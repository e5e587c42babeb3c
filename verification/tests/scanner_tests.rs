use rss_frontend::scanner::scan;
use rss_frontend::scanner::ScanError;
use rss_frontend::scanner::ScanErrorKind;
use rss_frontend::scanner::Token;

fn chars(text: &str) -> Vec<char> {
    text.chars().collect()
}

fn ident(name: &str) -> Token {
    Token::Identifier(name.to_string())
}

fn text(s: &str) -> Token {
    Token::String(s.to_string())
}

fn error(line: usize, kind: ScanErrorKind) -> Result<Vec<Token>, ScanError> {
    Err(ScanError { line, kind })
}

#[test]
fn empty_text_has_no_tokens() {
    assert_eq!(scan(chars("")), Ok(vec![]));
}

#[test]
fn blanks_alone_have_no_tokens() {
    assert_eq!(scan(chars(" \t\r  ")), Ok(vec![]));
}

#[test]
fn no_eof_token_behind_trailing_blanks() {
    assert_eq!(scan(chars("foo  ")), Ok(vec![ident("foo")]));
    assert_eq!(scan(chars("foo // the end")), Ok(vec![ident("foo")]));
}

#[test]
fn punctuation_maps_to_its_tokens() {
    assert_eq!(
        scan(chars("(){}$,/")),
        Ok(vec![
            Token::LeftParen,
            Token::RightParen,
            Token::LeftBrace,
            Token::RightBrace,
            Token::DollarSign,
            Token::Comma,
            Token::Slash,
        ])
    );
}

#[test]
fn bang_and_equal_look_one_character_ahead() {
    assert_eq!(
        scan(chars("! != = ==")),
        Ok(vec![Token::Bang, Token::BangEqual, Token::Equal, Token::EqualEqual])
    );
    assert_eq!(scan(chars("!")), Ok(vec![Token::Bang]));
    assert_eq!(scan(chars("=")), Ok(vec![Token::Equal]));
    assert_eq!(scan(chars("===")), Ok(vec![Token::EqualEqual, Token::Equal]));
    assert_eq!(scan(chars("!==")), Ok(vec![Token::BangEqual, Token::Equal]));
}

#[test]
fn slash_alone_is_a_token() {
    assert_eq!(scan(chars("/ /")), Ok(vec![Token::Slash, Token::Slash]));
    assert_eq!(scan(chars("/")), Ok(vec![Token::Slash]));
}

#[test]
fn newline_is_a_token() {
    assert_eq!(
        scan(chars("a\nb\n")),
        Ok(vec![ident("a"), Token::Newline, ident("b"), Token::Newline])
    );
    assert_eq!(scan(chars("\n\n")), Ok(vec![Token::Newline, Token::Newline]));
}

#[test]
fn string_literal_round_trip() {
    assert_eq!(scan(chars("\"hello world\"")), Ok(vec![text("hello world")]));
    assert_eq!(scan(chars("\"\"")), Ok(vec![text("")]));
    assert_eq!(scan(chars("\"// no comment $x (1)\"")), Ok(vec![text("// no comment $x (1)")]));
    assert_eq!(scan(chars("\"h\u{e9}llo \u{4e16}\u{754c}\"")), Ok(vec![text("h\u{e9}llo \u{4e16}\u{754c}")]));
}

#[test]
fn two_string_literals_side_by_side() {
    assert_eq!(scan(chars("\"a\"\"b\"")), Ok(vec![text("a"), text("b")]));
}

#[test]
fn comment_runs_to_the_end_of_its_line() {
    assert_eq!(
        scan(chars("// comment\nfoo")),
        Ok(vec![Token::Newline, ident("foo")])
    );
    assert_eq!(scan(chars("// comment\nfoo")), scan(chars("\nfoo")));
    assert_eq!(scan(chars("// comment")), scan(chars("")));
    assert_eq!(scan(chars("foo // comment\nbar")), scan(chars("foo \nbar")));
    assert_eq!(scan(chars("//")), Ok(vec![]));
}

#[test]
fn comment_keeps_the_line_count() {
    assert_eq!(
        scan(chars("// one\n// two\n#")),
        error(3, ScanErrorKind::UnexpectedChar('#'))
    );
}

#[test]
fn keywords_are_recognised() {
    assert_eq!(scan(chars("fun")), Ok(vec![Token::Fun]));
    assert_eq!(scan(chars("cmd")), Ok(vec![Token::Cmd]));
    assert_eq!(scan(chars("let")), Ok(vec![Token::Let]));
    assert_eq!(scan(chars("return")), Ok(vec![Token::Return]));
}

#[test]
fn words_around_keywords_are_identifiers() {
    assert_eq!(scan(chars("fun1")), Ok(vec![ident("fun1")]));
    assert_eq!(scan(chars("_fun")), Ok(vec![ident("_fun")]));
    assert_eq!(scan(chars("funx")), Ok(vec![ident("funx")]));
    assert_eq!(scan(chars("Fun")), Ok(vec![ident("Fun")]));
    assert_eq!(scan(chars("returns")), Ok(vec![ident("returns")]));
    assert_eq!(scan(chars("retur")), Ok(vec![ident("retur")]));
}

#[test]
fn reserved_words_without_grammar_are_identifiers() {
    assert_eq!(
        scan(chars("main if while for")),
        Ok(vec![ident("main"), ident("if"), ident("while"), ident("for")])
    );
}

#[test]
fn bang_behind_a_word_joins_it() {
    assert_eq!(scan(chars("foo!")), Ok(vec![ident("foo!")]));
    assert_eq!(scan(chars("fun!")), Ok(vec![ident("fun!")]));
    assert_eq!(scan(chars("foo!!")), Ok(vec![ident("foo!"), Token::Bang]));
    assert_eq!(scan(chars("foo!=")), Ok(vec![ident("foo!"), Token::Equal]));
    assert_eq!(scan(chars("foo !")), Ok(vec![ident("foo"), Token::Bang]));
}

#[test]
fn numbers_are_read_in_decimal() {
    assert_eq!(scan(chars("0")), Ok(vec![Token::Number(0)]));
    assert_eq!(scan(chars("7")), Ok(vec![Token::Number(7)]));
    assert_eq!(scan(chars("1234567890")), Ok(vec![Token::Number(1234567890)]));
    assert_eq!(scan(chars("007")), Ok(vec![Token::Number(7)]));
    assert_eq!(scan(chars("12 34")), Ok(vec![Token::Number(12), Token::Number(34)]));
}

#[test]
fn largest_number_is_read() {
    let largest = isize::MAX.to_string();
    assert_eq!(scan(chars(&largest)), Ok(vec![Token::Number(isize::MAX)]));
}

#[test]
fn number_above_the_largest_is_an_error() {
    let too_large = (isize::MAX as u128 + 1).to_string();
    assert_eq!(scan(chars(&too_large)), error(1, ScanErrorKind::NumberTooLarge));
    assert_eq!(
        scan(chars("\n99999999999999999999999999999999999999999")),
        error(2, ScanErrorKind::NumberTooLarge)
    );
}

#[test]
fn minus_is_no_part_of_a_number() {
    assert_eq!(scan(chars("-1")), error(1, ScanErrorKind::UnexpectedChar('-')));
}

#[test]
fn digits_then_letters_are_two_tokens() {
    assert_eq!(scan(chars("12ab")), Ok(vec![Token::Number(12), ident("ab")]));
    assert_eq!(scan(chars("ab12")), Ok(vec![ident("ab12")]));
}

#[test]
fn unexpected_character_is_an_error() {
    assert_eq!(scan(chars("#")), error(1, ScanErrorKind::UnexpectedChar('#')));
    assert_eq!(scan(chars("a\nb\n  @")), error(3, ScanErrorKind::UnexpectedChar('@')));
    assert_eq!(scan(chars("\u{0}")), error(1, ScanErrorKind::UnexpectedChar('\u{0}')));
}

#[test]
fn unterminated_string_is_an_error() {
    assert_eq!(scan(chars("\"abc")), error(1, ScanErrorKind::UnterminatedString));
    assert_eq!(scan(chars("\"")), error(1, ScanErrorKind::UnterminatedString));
    assert_eq!(scan(chars("x\n\ny \"abc")), error(3, ScanErrorKind::UnterminatedString));
}

#[test]
fn line_end_inside_a_string_is_an_error() {
    assert_eq!(scan(chars("\"abc\ndef\"")), error(1, ScanErrorKind::MultiLineString));
    assert_eq!(scan(chars("\n\"abc\n")), error(2, ScanErrorKind::MultiLineString));
}

#[test]
fn first_error_wins() {
    assert_eq!(scan(chars("# \"abc")), error(1, ScanErrorKind::UnexpectedChar('#')));
    assert_eq!(scan(chars("\"abc\n #")), error(1, ScanErrorKind::MultiLineString));
}

#[test]
fn function_definition_is_scanned() {
    assert_eq!(
        scan(chars("fun add(a, b) {\n  return 1\n}\n")),
        Ok(vec![
            Token::Fun,
            ident("add"),
            Token::LeftParen,
            ident("a"),
            Token::Comma,
            ident("b"),
            Token::RightParen,
            Token::LeftBrace,
            Token::Newline,
            Token::Return,
            Token::Number(1),
            Token::Newline,
            Token::RightBrace,
            Token::Newline,
        ])
    );
}

#[test]
fn token_clone_keeps_the_token() {
    let tokens = vec![
        Token::LeftParen,
        ident("name"),
        text("some text"),
        Token::Number(42),
        Token::Newline,
        Token::Eof,
        Token::Main,
        Token::If,
        Token::While,
        Token::For,
    ];
    for token in &tokens {
        assert_eq!(&token.clone(), token);
    }
}
