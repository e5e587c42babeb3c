//! Diagnostics: the one line of text that reports an error.

use crate::compiler::CompileError;
use crate::compiler::CompileErrorView;
use crate::parser::ParseError;
use crate::parser::ParseErrorKind;
use crate::parser::ParseErrorKindView;
use crate::scanner::ScanError;
use crate::scanner::ScanErrorKind;
use crate::scanner::Token;
use crate::scanner::TokenView;
use vstd::prelude::*;

verus! {

/// The character that writes the digit `d`.
pub open spec fn digit_char(d: nat) -> char {
    ('0' as nat + d) as char
}

/// A natural number in decimal, without leading zeros.
pub open spec fn decimal_text(n: nat) -> Seq<char>
    decreases n,
{
    if n < 10 {
        seq![digit_char(n)]
    } else {
        decimal_text(n / 10).push(digit_char(n % 10))
    }
}

/// An integer in decimal, with `-` in front of a negative one.
pub open spec fn integer_text(n: int) -> Seq<char> {
    if n < 0 {
        seq!['-'] + decimal_text((-n) as nat)
    } else {
        decimal_text(n as nat)
    }
}

/// The character of a digit.
fn digit_of(d: u8) -> (c: char)
    requires
        d < 10,
    ensures
        c == digit_char(d as nat),
{
    match d {
        0 => '0',
        1 => '1',
        2 => '2',
        3 => '3',
        4 => '4',
        5 => '5',
        6 => '6',
        7 => '7',
        8 => '8',
        _ => '9',
    }
}

/// Appends `n` in decimal.
fn push_decimal(text: &mut String, n: u128)
    ensures
        final(text)@ == old(text)@ + decimal_text(n as nat),
    decreases n,
{
    if n >= 10 {
        push_decimal(text, n / 10);
    }
    text.push(digit_of((n % 10) as u8));
}

/// Appends `n` in decimal, with its sign if it is negative.
fn push_integer(text: &mut String, n: isize)
    ensures
        final(text)@ == old(text)@ + integer_text(n as int),
{
    let wide: i128 = n as i128;
    if wide < 0 {
        text.push('-');
        push_decimal(text, (-wide) as u128);
    } else {
        push_decimal(text, wide as u128);
    }
}

/// What `{:?}` writes for a text: the text between double quotes, with
/// escapes for the characters that cannot stand there as they are.
pub uninterp spec fn quoted(text: Seq<char>) -> Seq<char>;

/// `format!` with `{:?}` on a string, which is `Debug` of std for `str`.
/// What it writes depends on the text alone; the contract gives it its name
/// and says nothing of what it holds.
#[verifier::external_body]
fn quote(text: &String) -> (r: String)
    ensures
        r@ == quoted(text@),
{
    format!("{:?}", text)
}

/// The text of a token as `{:?}` writes it, where `quoted_text` is what
/// `{:?}` writes for the text that the token carries.
pub open spec fn token_text_with(token: TokenView, quoted_text: Seq<char>) -> Seq<char> {
    match token {
        TokenView::LeftParen => "LeftParen"@,
        TokenView::RightParen => "RightParen"@,
        TokenView::LeftBrace => "LeftBrace"@,
        TokenView::RightBrace => "RightBrace"@,
        TokenView::DollarSign => "DollarSign"@,
        TokenView::Slash => "Slash"@,
        TokenView::Comma => "Comma"@,
        TokenView::Bang => "Bang"@,
        TokenView::BangEqual => "BangEqual"@,
        TokenView::Equal => "Equal"@,
        TokenView::EqualEqual => "EqualEqual"@,
        TokenView::Identifier(_) => "Identifier("@ + quoted_text + ")"@,
        TokenView::String(_) => "String("@ + quoted_text + ")"@,
        TokenView::Number(n) => "Number("@ + integer_text(n) + ")"@,
        TokenView::Fun => "Fun"@,
        TokenView::Cmd => "Cmd"@,
        TokenView::Main => "Main"@,
        TokenView::Return => "Return"@,
        TokenView::Let => "Let"@,
        TokenView::If => "If"@,
        TokenView::While => "While"@,
        TokenView::For => "For"@,
        TokenView::Newline => "Newline"@,
        TokenView::Eof => "Eof"@,
    }
}

/// The text of a token as `{:?}` writes it.
pub open spec fn token_text(token: TokenView) -> Seq<char> {
    match token {
        TokenView::Identifier(name) => token_text_with(token, quoted(name)),
        TokenView::String(text) => token_text_with(token, quoted(text)),
        _ => token_text_with(token, Seq::empty()),
    }
}

/// A variant's name with what it carries between parentheses.
fn wrapped(name: &str, inner: &str) -> (r: String)
    ensures
        r@ == name@ + inner@ + ")"@,
{
    let mut r = String::from_str(name);
    r.append(inner);
    r.append(")");
    r
}

impl Token {
    /// The text of the token as `{:?}` writes it, given what `{:?}` writes
    /// for the text that the token carries.
    pub fn debug_text_with(&self, quoted_text: &str) -> (r: String)
        ensures
            r@ == token_text_with(self@, quoted_text@),
    {
        match self {
            Token::LeftParen => String::from_str("LeftParen"),
            Token::RightParen => String::from_str("RightParen"),
            Token::LeftBrace => String::from_str("LeftBrace"),
            Token::RightBrace => String::from_str("RightBrace"),
            Token::DollarSign => String::from_str("DollarSign"),
            Token::Slash => String::from_str("Slash"),
            Token::Comma => String::from_str("Comma"),
            Token::Bang => String::from_str("Bang"),
            Token::BangEqual => String::from_str("BangEqual"),
            Token::Equal => String::from_str("Equal"),
            Token::EqualEqual => String::from_str("EqualEqual"),
            Token::Identifier(_) => wrapped("Identifier(", quoted_text),
            Token::String(_) => wrapped("String(", quoted_text),
            Token::Number(n) => {
                let mut r = String::from_str("Number(");
                push_integer(&mut r, *n);
                r.append(")");
                r
            },
            Token::Fun => String::from_str("Fun"),
            Token::Cmd => String::from_str("Cmd"),
            Token::Main => String::from_str("Main"),
            Token::Return => String::from_str("Return"),
            Token::Let => String::from_str("Let"),
            Token::If => String::from_str("If"),
            Token::While => String::from_str("While"),
            Token::For => String::from_str("For"),
            Token::Newline => String::from_str("Newline"),
            Token::Eof => String::from_str("Eof"),
        }
    }

    /// The text of the token as `{:?}` writes it.
    pub fn debug_text(&self) -> (r: String)
        ensures
            r@ == token_text(self@),
    {
        match self {
            Token::Identifier(name) => {
                let quoted_name = quote(name);
                self.debug_text_with(quoted_name.as_str())
            },
            Token::String(text) => {
                let quoted_text = quote(text);
                self.debug_text_with(quoted_text.as_str())
            },
            _ => self.debug_text_with(""),
        }
    }
}

/// What a scan error says.
pub open spec fn scan_message(kind: ScanErrorKind) -> Seq<char> {
    match kind {
        ScanErrorKind::UnexpectedChar(c) => "unexpected character '"@.push(c) + "'"@,
        ScanErrorKind::MultiLineString => "do not support multi-line string"@,
        ScanErrorKind::UnterminatedString => "unterminated string"@,
        ScanErrorKind::NumberTooLarge => "number too large"@,
    }
}

/// What a parse error says.
pub open spec fn parse_message(kind: ParseErrorKindView) -> Seq<char> {
    match kind {
        ParseErrorKindView::UnexpectedToken(got) => "unexpected token: "@ + token_text(got),
        ParseErrorKindView::Expected { got, expected } => "got "@ + token_text(got)
            + ", expect token: "@ + token_text(expected),
        ParseErrorKindView::ExpectedIdentifier(got) => "got "@ + token_text(got)
            + ", expect identifier"@,
        ParseErrorKindView::ExpectedString(got) => "got "@ + token_text(got)
            + ", expect literal string"@,
        ParseErrorKindView::WrongReturnValue => "Wrong return value"@,
        ParseErrorKindView::WrongExpression => "Wrong expression"@,
    }
}

/// The line that reports an error of the given stage: the stage, the number
/// of the line and what the error says.
pub open spec fn report_line(stage: Seq<char>, line: usize, message: Seq<char>) -> Seq<char> {
    stage + " error at line "@ + decimal_text(line as nat) + ": "@ + message
}

/// Writes the line that reports an error.
fn report(stage: &str, line: usize, message: &str) -> (r: String)
    ensures
        r@ == report_line(stage@, line, message@),
{
    let mut r = String::from_str(stage);
    r.append(" error at line ");
    push_decimal(&mut r, line as u128);
    r.append(": ");
    r.append(message);
    r
}

impl ScanError {
    /// What the error says.
    pub fn message(&self) -> (r: String)
        ensures
            r@ == scan_message(self.kind),
    {
        match self.kind {
            ScanErrorKind::UnexpectedChar(c) => {
                let mut r = String::from_str("unexpected character '");
                r.push(c);
                r.append("'");
                r
            },
            ScanErrorKind::MultiLineString => String::from_str("do not support multi-line string"),
            ScanErrorKind::UnterminatedString => String::from_str("unterminated string"),
            ScanErrorKind::NumberTooLarge => String::from_str("number too large"),
        }
    }

    /// The line that reports the error: `Scan error at line <n>: <message>`.
    pub fn report(&self) -> (r: String)
        ensures
            r@ == report_line("Scan"@, self.line, scan_message(self.kind)),
    {
        let message = self.message();
        report("Scan", self.line, message.as_str())
    }
}

impl ParseError {
    /// What the error says.
    pub fn message(&self) -> (r: String)
        ensures
            r@ == parse_message(self.kind@),
    {
        match &self.kind {
            ParseErrorKind::UnexpectedToken(got) => {
                let mut r = String::from_str("unexpected token: ");
                r.append(got.debug_text().as_str());
                r
            },
            ParseErrorKind::Expected { got, expected } => {
                let mut r = String::from_str("got ");
                r.append(got.debug_text().as_str());
                r.append(", expect token: ");
                r.append(expected.debug_text().as_str());
                r
            },
            ParseErrorKind::ExpectedIdentifier(got) => {
                let mut r = String::from_str("got ");
                r.append(got.debug_text().as_str());
                r.append(", expect identifier");
                r
            },
            ParseErrorKind::ExpectedString(got) => {
                let mut r = String::from_str("got ");
                r.append(got.debug_text().as_str());
                r.append(", expect literal string");
                r
            },
            ParseErrorKind::WrongReturnValue => String::from_str("Wrong return value"),
            ParseErrorKind::WrongExpression => String::from_str("Wrong expression"),
        }
    }

    /// The line that reports the error: `Parse error at line <n>: <message>`.
    pub fn report(&self) -> (r: String)
        ensures
            r@ == report_line("Parse"@, self.line, parse_message(self.kind@)),
    {
        let message = self.message();
        report("Parse", self.line, message.as_str())
    }
}

/// The line that reports a compile error: that of the stage it comes from.
pub open spec fn compile_report(e: CompileErrorView) -> Seq<char> {
    match e {
        CompileErrorView::Scan(e) => report_line("Scan"@, e.line, scan_message(e.kind)),
        CompileErrorView::Parse(e) => report_line("Parse"@, e.line, parse_message(e.kind)),
    }
}

impl CompileError {
    /// The line that reports the error.
    pub fn report(&self) -> (r: String)
        ensures
            r@ == compile_report(self@),
    {
        match self {
            CompileError::Scan(e) => e.report(),
            CompileError::Parse(e) => e.report(),
        }
    }
}

} // verus!
