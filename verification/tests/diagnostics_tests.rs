use rss_frontend::compiler::compile;
use rss_frontend::compiler::CompileError;
use rss_frontend::parser::ParseError;
use rss_frontend::parser::ParseErrorKind;
use rss_frontend::scanner::ScanError;
use rss_frontend::scanner::ScanErrorKind;
use rss_frontend::scanner::Token;

fn ident(name: &str) -> Token {
    Token::Identifier(name.to_string())
}

fn text(s: &str) -> Token {
    Token::String(s.to_string())
}

fn report_of(source: &str) -> String {
    compile(source.chars().collect()).unwrap_err().report()
}

#[test]
fn tokens_without_text_show_their_name() {
    assert_eq!(Token::LeftParen.debug_text(), "LeftParen");
    assert_eq!(Token::RightParen.debug_text(), "RightParen");
    assert_eq!(Token::LeftBrace.debug_text(), "LeftBrace");
    assert_eq!(Token::RightBrace.debug_text(), "RightBrace");
    assert_eq!(Token::DollarSign.debug_text(), "DollarSign");
    assert_eq!(Token::Slash.debug_text(), "Slash");
    assert_eq!(Token::Comma.debug_text(), "Comma");
    assert_eq!(Token::Bang.debug_text(), "Bang");
    assert_eq!(Token::BangEqual.debug_text(), "BangEqual");
    assert_eq!(Token::Equal.debug_text(), "Equal");
    assert_eq!(Token::EqualEqual.debug_text(), "EqualEqual");
    assert_eq!(Token::Fun.debug_text(), "Fun");
    assert_eq!(Token::Cmd.debug_text(), "Cmd");
    assert_eq!(Token::Main.debug_text(), "Main");
    assert_eq!(Token::Return.debug_text(), "Return");
    assert_eq!(Token::Let.debug_text(), "Let");
    assert_eq!(Token::If.debug_text(), "If");
    assert_eq!(Token::While.debug_text(), "While");
    assert_eq!(Token::For.debug_text(), "For");
    assert_eq!(Token::Newline.debug_text(), "Newline");
    assert_eq!(Token::Eof.debug_text(), "Eof");
}

#[test]
fn tokens_with_text_show_it_between_quotes() {
    assert_eq!(ident("foo").debug_text(), "Identifier(\"foo\")");
    assert_eq!(text("hello world").debug_text(), "String(\"hello world\")");
    assert_eq!(text("").debug_text(), "String(\"\")");
    assert_eq!(ident("count!").debug_text(), "Identifier(\"count!\")");
}

#[test]
fn quoted_text_is_escaped() {
    assert_eq!(text("a\\b").debug_text(), "String(\"a\\\\b\")");
    assert_eq!(text("tab\there").debug_text(), "String(\"tab\\there\")");
    assert_eq!(text("it's").debug_text(), "String(\"it's\")");
    assert_eq!(text("say \"hi\"").debug_text(), "String(\"say \\\"hi\\\"\")");
    assert_eq!(text("line\nend").debug_text(), "String(\"line\\nend\")");
    assert_eq!(text("h\u{e9}llo").debug_text(), "String(\"h\u{e9}llo\")");
    assert_eq!(text("\u{7f}").debug_text(), "String(\"\\u{7f}\")");
}

#[test]
fn numbers_show_in_decimal() {
    assert_eq!(Token::Number(0).debug_text(), "Number(0)");
    assert_eq!(Token::Number(7).debug_text(), "Number(7)");
    assert_eq!(Token::Number(10).debug_text(), "Number(10)");
    assert_eq!(Token::Number(1234567890).debug_text(), "Number(1234567890)");
    assert_eq!(Token::Number(-1).debug_text(), "Number(-1)");
    assert_eq!(Token::Number(-120).debug_text(), "Number(-120)");
    assert_eq!(Token::Number(isize::MAX).debug_text(), format!("Number({})", isize::MAX));
    assert_eq!(Token::Number(isize::MIN).debug_text(), format!("Number({})", isize::MIN));
}

#[test]
fn debug_text_is_what_debug_formatting_writes() {
    let tokens = vec![
        Token::LeftParen,
        Token::RightParen,
        Token::LeftBrace,
        Token::RightBrace,
        Token::DollarSign,
        Token::Slash,
        Token::Comma,
        Token::Bang,
        Token::BangEqual,
        Token::Equal,
        Token::EqualEqual,
        ident("name"),
        ident("_x1!"),
        text("plain"),
        text("with \\ and \" and \t and \u{1b}[0m"),
        text("\u{4e16}\u{754c} \u{301}"),
        Token::Number(0),
        Token::Number(42),
        Token::Number(-42),
        Token::Number(isize::MAX),
        Token::Number(isize::MIN),
        Token::Fun,
        Token::Cmd,
        Token::Main,
        Token::Return,
        Token::Let,
        Token::If,
        Token::While,
        Token::For,
        Token::Newline,
        Token::Eof,
    ];
    for token in &tokens {
        assert_eq!(token.debug_text(), format!("{:?}", token));
    }
}

#[test]
fn debug_text_with_takes_the_quoted_text_as_given() {
    assert_eq!(ident("foo").debug_text_with("<foo>"), "Identifier(<foo>)");
    assert_eq!(text("foo").debug_text_with("\"bar\""), "String(\"bar\")");
    assert_eq!(Token::Number(5).debug_text_with("\"unused\""), "Number(5)");
    assert_eq!(Token::Comma.debug_text_with("\"unused\""), "Comma");
}

#[test]
fn scan_error_messages() {
    let e = |kind| ScanError { line: 1, kind };
    assert_eq!(e(ScanErrorKind::UnexpectedChar('#')).message(), "unexpected character '#'");
    assert_eq!(e(ScanErrorKind::UnexpectedChar('\'')).message(), "unexpected character '''");
    assert_eq!(
        e(ScanErrorKind::UnexpectedChar('\u{e9}')).message(),
        "unexpected character '\u{e9}'"
    );
    assert_eq!(e(ScanErrorKind::MultiLineString).message(), "do not support multi-line string");
    assert_eq!(e(ScanErrorKind::UnterminatedString).message(), "unterminated string");
    assert_eq!(e(ScanErrorKind::NumberTooLarge).message(), "number too large");
}

#[test]
fn scan_error_reports() {
    assert_eq!(
        ScanError { line: 1, kind: ScanErrorKind::UnexpectedChar('#') }.report(),
        "Scan error at line 1: unexpected character '#'"
    );
    assert_eq!(
        ScanError { line: 12, kind: ScanErrorKind::UnterminatedString }.report(),
        "Scan error at line 12: unterminated string"
    );
    assert_eq!(
        ScanError { line: 1000, kind: ScanErrorKind::MultiLineString }.report(),
        "Scan error at line 1000: do not support multi-line string"
    );
    assert_eq!(
        ScanError { line: usize::MAX, kind: ScanErrorKind::NumberTooLarge }.report(),
        format!("Scan error at line {}: number too large", usize::MAX)
    );
    assert_eq!(
        ScanError { line: 0, kind: ScanErrorKind::NumberTooLarge }.report(),
        "Scan error at line 0: number too large"
    );
}

#[test]
fn parse_error_messages() {
    let e = |kind| ParseError { line: 1, kind };
    assert_eq!(
        e(ParseErrorKind::UnexpectedToken(Token::Let)).message(),
        "unexpected token: Let"
    );
    assert_eq!(
        e(ParseErrorKind::Expected { got: ident("b"), expected: Token::RightParen }).message(),
        "got Identifier(\"b\"), expect token: RightParen"
    );
    assert_eq!(
        e(ParseErrorKind::ExpectedIdentifier(Token::RightParen)).message(),
        "got RightParen, expect identifier"
    );
    assert_eq!(
        e(ParseErrorKind::ExpectedString(Token::Number(3))).message(),
        "got Number(3), expect literal string"
    );
    assert_eq!(e(ParseErrorKind::WrongReturnValue).message(), "Wrong return value");
    assert_eq!(e(ParseErrorKind::WrongExpression).message(), "Wrong expression");
}

#[test]
fn parse_error_reports() {
    assert_eq!(
        ParseError { line: 7, kind: ParseErrorKind::WrongExpression }.report(),
        "Parse error at line 7: Wrong expression"
    );
    assert_eq!(
        ParseError {
            line: 21,
            kind: ParseErrorKind::Expected { got: text("x y"), expected: Token::DollarSign },
        }
        .report(),
        "Parse error at line 21: got String(\"x y\"), expect token: DollarSign"
    );
}

#[test]
fn compile_error_reports_are_those_of_the_stage() {
    let scan = ScanError { line: 3, kind: ScanErrorKind::UnterminatedString };
    assert_eq!(CompileError::Scan(scan).report(), scan.report());
    assert_eq!(
        CompileError::Parse(ParseError { line: 4, kind: ParseErrorKind::WrongReturnValue })
            .report(),
        "Parse error at line 4: Wrong return value"
    );
}

#[test]
fn reports_of_source_texts() {
    assert_eq!(
        report_of("fun add(a,) { return 1 }"),
        "Parse error at line 1: got RightParen, expect identifier"
    );
    assert_eq!(
        report_of("fun f() {\n  let x = 1 + 2\n}\n"),
        "Scan error at line 2: unexpected character '+'"
    );
    assert_eq!(
        report_of("cmd c() {\n\n  ls 1\n}\n"),
        "Parse error at line 3: got Number(1), expect token: DollarSign"
    );
    assert_eq!(report_of("x"), "Parse error at line 1: unexpected token: Identifier(\"x\")");
    assert_eq!(report_of("\n\n\n\n\n\n\n\n\n\"a"), "Scan error at line 10: unterminated string");
}
