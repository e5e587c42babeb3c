//! The scanner: from the characters of a source text to its tokens.

use crate::util::char::alpha_numeric_or_underscore;
use crate::util::char::alpha_or_underscore;
use crate::util::char::digit;
use crate::util::char::is_alpha_numeric_or_underscore;
use crate::util::char::is_alpha_or_underscore;
use crate::util::char::is_digit;
use crate::util::scan_iter::lemma_newlines_same;
use crate::util::scan_iter::line_number;
use crate::util::scan_iter::newlines_before;
use crate::util::scan_iter::CmpType;
use crate::util::scan_iter::Newline;
use crate::util::scan_iter::ScanIter;
use crate::util::scan_iter::Terminal;
use vstd::prelude::*;

verus! {

/// One lexical unit of a source text.
#[derive(Debug, PartialEq)]
pub enum Token {
    LeftParen,
    RightParen,
    LeftBrace,
    RightBrace,
    DollarSign,
    Slash,
    Comma,
    Bang,
    BangEqual,
    Equal,
    EqualEqual,
    Identifier(String),
    String(String),
    Number(isize),
    Fun,
    Cmd,
    Main,
    Return,
    Let,
    If,
    While,
    For,
    Newline,
    Eof,
}

/// A token as contracts see it: text as a sequence of characters, a number
/// as a mathematical integer.
pub enum TokenView {
    LeftParen,
    RightParen,
    LeftBrace,
    RightBrace,
    DollarSign,
    Slash,
    Comma,
    Bang,
    BangEqual,
    Equal,
    EqualEqual,
    Identifier(Seq<char>),
    String(Seq<char>),
    Number(int),
    Fun,
    Cmd,
    Main,
    Return,
    Let,
    If,
    While,
    For,
    Newline,
    Eof,
}

impl TokenView {
    /// A number that tells the variants apart and ignores what they carry.
    pub open spec fn kind(self) -> int {
        match self {
            TokenView::LeftParen => 0,
            TokenView::RightParen => 1,
            TokenView::LeftBrace => 2,
            TokenView::RightBrace => 3,
            TokenView::DollarSign => 4,
            TokenView::Slash => 5,
            TokenView::Comma => 6,
            TokenView::Bang => 7,
            TokenView::BangEqual => 8,
            TokenView::Equal => 9,
            TokenView::EqualEqual => 10,
            TokenView::Identifier(_) => 11,
            TokenView::String(_) => 12,
            TokenView::Number(_) => 13,
            TokenView::Fun => 14,
            TokenView::Cmd => 15,
            TokenView::Main => 16,
            TokenView::Return => 17,
            TokenView::Let => 18,
            TokenView::If => 19,
            TokenView::While => 20,
            TokenView::For => 21,
            TokenView::Newline => 22,
            TokenView::Eof => 23,
        }
    }
}

impl View for Token {
    type V = TokenView;

    open spec fn view(&self) -> TokenView {
        match self {
            Token::LeftParen => TokenView::LeftParen,
            Token::RightParen => TokenView::RightParen,
            Token::LeftBrace => TokenView::LeftBrace,
            Token::RightBrace => TokenView::RightBrace,
            Token::DollarSign => TokenView::DollarSign,
            Token::Slash => TokenView::Slash,
            Token::Comma => TokenView::Comma,
            Token::Bang => TokenView::Bang,
            Token::BangEqual => TokenView::BangEqual,
            Token::Equal => TokenView::Equal,
            Token::EqualEqual => TokenView::EqualEqual,
            Token::Identifier(name) => TokenView::Identifier(name@),
            Token::String(text) => TokenView::String(text@),
            Token::Number(n) => TokenView::Number(*n as int),
            Token::Fun => TokenView::Fun,
            Token::Cmd => TokenView::Cmd,
            Token::Main => TokenView::Main,
            Token::Return => TokenView::Return,
            Token::Let => TokenView::Let,
            Token::If => TokenView::If,
            Token::While => TokenView::While,
            Token::For => TokenView::For,
            Token::Newline => TokenView::Newline,
            Token::Eof => TokenView::Eof,
        }
    }
}

impl DeepView for Token {
    type V = TokenView;

    open spec fn deep_view(&self) -> TokenView {
        self@
    }
}

impl Clone for Token {
    fn clone(&self) -> (copy: Token)
        ensures
            copy@ == self@,
    {
        match self {
            Token::LeftParen => Token::LeftParen,
            Token::RightParen => Token::RightParen,
            Token::LeftBrace => Token::LeftBrace,
            Token::RightBrace => Token::RightBrace,
            Token::DollarSign => Token::DollarSign,
            Token::Slash => Token::Slash,
            Token::Comma => Token::Comma,
            Token::Bang => Token::Bang,
            Token::BangEqual => Token::BangEqual,
            Token::Equal => Token::Equal,
            Token::EqualEqual => Token::EqualEqual,
            Token::Identifier(name) => Token::Identifier(name.clone()),
            Token::String(text) => Token::String(text.clone()),
            Token::Number(n) => Token::Number(*n),
            Token::Fun => Token::Fun,
            Token::Cmd => Token::Cmd,
            Token::Main => Token::Main,
            Token::Return => Token::Return,
            Token::Let => Token::Let,
            Token::If => Token::If,
            Token::While => Token::While,
            Token::For => Token::For,
            Token::Newline => Token::Newline,
            Token::Eof => Token::Eof,
        }
    }
}

impl Token {
    /// The number of the token's variant, as `TokenView::kind` gives it.
    fn kind(&self) -> (k: u8)
        ensures
            k == self@.kind(),
    {
        match self {
            Token::LeftParen => 0,
            Token::RightParen => 1,
            Token::LeftBrace => 2,
            Token::RightBrace => 3,
            Token::DollarSign => 4,
            Token::Slash => 5,
            Token::Comma => 6,
            Token::Bang => 7,
            Token::BangEqual => 8,
            Token::Equal => 9,
            Token::EqualEqual => 10,
            Token::Identifier(_) => 11,
            Token::String(_) => 12,
            Token::Number(_) => 13,
            Token::Fun => 14,
            Token::Cmd => 15,
            Token::Main => 16,
            Token::Return => 17,
            Token::Let => 18,
            Token::If => 19,
            Token::While => 20,
            Token::For => 21,
            Token::Newline => 22,
            Token::Eof => 23,
        }
    }
}

impl Newline for Token {
    open spec fn newline(&self) -> bool {
        self@ == TokenView::Newline
    }

    fn is_newline(&self) -> (b: bool) {
        match self {
            Token::Newline => true,
            _ => false,
        }
    }
}

/// Two tokens are of one type when they are the same variant.
impl CmpType for Token {
    open spec fn same_type(&self, other: &Token) -> bool {
        self@.kind() == other@.kind()
    }

    fn cmp_type(&self, other: &Token) -> (b: bool) {
        self.kind() == other.kind()
    }
}

/// Past the last token a cursor shows `Eof`.
impl Terminal for Token {
    open spec fn terminal_spec() -> Token {
        Token::Eof
    }

    fn terminal() -> (t: Token) {
        Token::Eof
    }
}

/// Why a source text has no tokens.
#[derive(Debug, Clone, Copy, PartialEq, Eq)]
pub enum ScanErrorKind {
    /// A character that starts no token.
    UnexpectedChar(char),
    /// A line ends inside a string literal.
    MultiLineString,
    /// The text ends inside a string literal.
    UnterminatedString,
    /// An integer literal is larger than `isize::MAX`.
    NumberTooLarge,
}

/// A scan error and the line it was found on.
#[derive(Debug, Clone, Copy, PartialEq, Eq)]
pub struct ScanError {
    pub line: usize,
    pub kind: ScanErrorKind,
}

/// The stretches of characters that the scanner reads as a whole.
pub enum Run {
    /// The rest of the line.
    Comment,
    /// What stands between the quotes of a string literal.
    StringBody,
    /// Decimal digits.
    Digits,
    /// Letters, digits and underscores.
    Word,
}

impl Run {
    /// Whether `c` belongs to the run.
    pub open spec fn holds(self, c: char) -> bool {
        match self {
            Run::Comment => c != '\n',
            Run::StringBody => c != '"' && c != '\n',
            Run::Digits => digit(c),
            Run::Word => alpha_numeric_or_underscore(c),
        }
    }
}

/// Space, carriage return and tab separate tokens and mean nothing else.
pub open spec fn blank(c: char) -> bool {
    c == ' ' || c == '\r' || c == '\t'
}

/// The first index from `i` on whose character is not part of `run`, or the
/// length of `s` when there is none.
pub open spec fn run_end(s: Seq<char>, i: int, run: Run) -> int
    decreases s.len() - i,
{
    if i < 0 || i >= s.len() || !run.holds(s[i]) {
        i
    } else {
        run_end(s, i + 1, run)
    }
}

/// Two slashes at index `i`.
pub open spec fn starts_comment(s: Seq<char>, i: int) -> bool {
    0 <= i && i + 1 < s.len() && s[i] == '/' && s[i + 1] == '/'
}

/// The first index from `i` on that is neither blank nor inside a comment,
/// or the length of `s`.
pub open spec fn skip_blank(s: Seq<char>, i: int) -> int
    decreases s.len() - i,
{
    if i < 0 || i >= s.len() {
        i
    } else if blank(s[i]) {
        skip_blank(s, i + 1)
    } else if starts_comment(s, i) {
        proof {
            lemma_run_end_bounds(s, i + 2, Run::Comment);
        }
        skip_blank(s, run_end(s, i + 2, Run::Comment))
    } else {
        i
    }
}

/// The number that a sequence of decimal digits writes.
pub open spec fn decimal_value(digits: Seq<char>) -> nat
    decreases digits.len(),
{
    if digits.len() == 0 {
        0
    } else {
        decimal_value(digits.drop_last()) * 10 + (digits.last() as nat - '0' as nat) as nat
    }
}

/// `fun`, `cmd`, `let` and `return` are keywords; any other word is an
/// identifier.
pub open spec fn keyword_or_identifier(word: Seq<char>) -> TokenView {
    if word == seq!['f', 'u', 'n'] {
        TokenView::Fun
    } else if word == seq!['c', 'm', 'd'] {
        TokenView::Cmd
    } else if word == seq!['l', 'e', 't'] {
        TokenView::Let
    } else if word == seq!['r', 'e', 't', 'u', 'r', 'n'] {
        TokenView::Return
    } else {
        TokenView::Identifier(word)
    }
}

/// The string literal whose opening quote is at index `i`: its text runs to
/// the closing quote and may hold no line end.
pub open spec fn string_token(s: Seq<char>, i: int) -> Result<(TokenView, int), ScanErrorKind> {
    let end = run_end(s, i + 1, Run::StringBody);
    if end >= s.len() {
        Err(ScanErrorKind::UnterminatedString)
    } else if s[end] == '\n' {
        Err(ScanErrorKind::MultiLineString)
    } else {
        Ok((TokenView::String(s.subrange(i + 1, end)), end + 1))
    }
}

/// The integer literal whose first digit is at index `i`: the longest run of
/// digits, if the number fits `isize`.
pub open spec fn number_token(s: Seq<char>, i: int) -> Result<(TokenView, int), ScanErrorKind> {
    let end = run_end(s, i + 1, Run::Digits);
    let value = decimal_value(s.subrange(i, end));
    if value <= isize::MAX {
        Ok((TokenView::Number(value as int), end))
    } else {
        Err(ScanErrorKind::NumberTooLarge)
    }
}

/// The word whose first character is at index `i`. A `!` right behind the
/// word belongs to it and makes it an identifier, keyword or not.
pub open spec fn word_token(s: Seq<char>, i: int) -> (TokenView, int) {
    let end = run_end(s, i + 1, Run::Word);
    if end < s.len() && s[end] == '!' {
        (TokenView::Identifier(s.subrange(i, end + 1)), end + 1)
    } else {
        (keyword_or_identifier(s.subrange(i, end)), end)
    }
}

/// The token that starts at index `i`, with the index behind it.
pub open spec fn token_at(s: Seq<char>, i: int) -> Result<(TokenView, int), ScanErrorKind> {
    let c = s[i];
    let followed_by_equal = i + 1 < s.len() && s[i + 1] == '=';
    if c == '(' {
        Ok((TokenView::LeftParen, i + 1))
    } else if c == ')' {
        Ok((TokenView::RightParen, i + 1))
    } else if c == '{' {
        Ok((TokenView::LeftBrace, i + 1))
    } else if c == '}' {
        Ok((TokenView::RightBrace, i + 1))
    } else if c == '$' {
        Ok((TokenView::DollarSign, i + 1))
    } else if c == ',' {
        Ok((TokenView::Comma, i + 1))
    } else if c == '/' {
        Ok((TokenView::Slash, i + 1))
    } else if c == '\n' {
        Ok((TokenView::Newline, i + 1))
    } else if c == '!' {
        if followed_by_equal {
            Ok((TokenView::BangEqual, i + 2))
        } else {
            Ok((TokenView::Bang, i + 1))
        }
    } else if c == '=' {
        if followed_by_equal {
            Ok((TokenView::EqualEqual, i + 2))
        } else {
            Ok((TokenView::Equal, i + 1))
        }
    } else if c == '"' {
        string_token(s, i)
    } else if digit(c) {
        number_token(s, i)
    } else if alpha_or_underscore(c) {
        Ok(word_token(s, i))
    } else {
        Err(ScanErrorKind::UnexpectedChar(c))
    }
}

/// Where the scan stands once the token at index `i` is found in error:
/// behind a character that starts no token, behind the last digit of a
/// number that is too large, and where the text of a string literal breaks
/// off, which is at the line end or at the end of the text.
pub open spec fn error_end(s: Seq<char>, i: int) -> int {
    if s[i] == '"' {
        run_end(s, i + 1, Run::StringBody)
    } else if digit(s[i]) {
        run_end(s, i + 1, Run::Digits)
    } else {
        i + 1
    }
}

/// The next token from index `i` on, blanks and comments skipped, with the
/// index behind it; `Eof` when only blanks and comments are left. An error
/// carries the line on which the offending token starts.
pub open spec fn next_token(s: Seq<char>, i: int) -> Result<(TokenView, int), ScanError> {
    let start = skip_blank(s, i);
    if start >= s.len() {
        Ok((TokenView::Eof, start))
    } else {
        match token_at(s, start) {
            Ok(found) => Ok(found),
            Err(kind) => Err(ScanError { line: line_number(newlines_before(s, start)), kind }),
        }
    }
}

/// The tokens of `s` from index `i` on: one token after the other until the
/// text is used up. The first error ends it.
pub open spec fn tokens_from(s: Seq<char>, i: int) -> Result<Seq<TokenView>, ScanError>
    decreases s.len() - i,
    when 0 <= i <= s.len()
{
    match next_token(s, i) {
        Err(e) => Err(e),
        Ok((token, end)) => if token == TokenView::Eof {
            Ok(Seq::empty())
        } else {
            proof {
                lemma_next_token_advances(s, i);
            }
            match tokens_from(s, end) {
                Ok(rest) => Ok(seq![token] + rest),
                Err(e) => Err(e),
            }
        },
    }
}

/// The tokens of a whole source text.
pub open spec fn tokens_of(s: Seq<char>) -> Result<Seq<TokenView>, ScanError> {
    tokens_from(s, 0)
}

/// A run ends at or behind its start and inside the text; everything before
/// its end belongs to it, and what stands at its end does not.
pub proof fn lemma_run_end_bounds(s: Seq<char>, i: int, run: Run)
    requires
        0 <= i <= s.len(),
    ensures
        i <= run_end(s, i, run) <= s.len(),
        forall|k: int| i <= k < run_end(s, i, run) ==> run.holds(#[trigger] s[k]),
        run_end(s, i, run) < s.len() ==> !run.holds(s[run_end(s, i, run)]),
    decreases s.len() - i,
{
    if i < s.len() && run.holds(s[i]) {
        lemma_run_end_bounds(s, i + 1, run);
    }
}

/// An index up to which everything belongs to the run, and at which the run
/// cannot go on, is the run's end.
pub proof fn lemma_run_end_is(s: Seq<char>, i: int, end: int, run: Run)
    requires
        0 <= i <= end <= s.len(),
        forall|k: int| i <= k < end ==> run.holds(#[trigger] s[k]),
        end < s.len() ==> !run.holds(s[end]),
    ensures
        run_end(s, i, run) == end,
    decreases end - i,
{
    if i < end {
        lemma_run_end_is(s, i + 1, end, run);
    }
}

/// Skipping blanks and comments ends at or behind its start and inside the
/// text, on a character that is neither blank nor the start of a comment.
pub proof fn lemma_skip_blank_bounds(s: Seq<char>, i: int)
    requires
        0 <= i <= s.len(),
    ensures
        i <= skip_blank(s, i) <= s.len(),
        skip_blank(s, i) < s.len() ==> !blank(s[skip_blank(s, i)]) && !starts_comment(
            s,
            skip_blank(s, i),
        ),
    decreases s.len() - i,
{
    if i < s.len() {
        if blank(s[i]) {
            lemma_skip_blank_bounds(s, i + 1);
        } else if starts_comment(s, i) {
            lemma_run_end_bounds(s, i + 2, Run::Comment);
            lemma_skip_blank_bounds(s, run_end(s, i + 2, Run::Comment));
        }
    }
}

/// A token takes at least one character and none from behind the text, and
/// is never `Eof`.
pub proof fn lemma_token_at_advances(s: Seq<char>, i: int)
    requires
        0 <= i < s.len(),
    ensures
        match token_at(s, i) {
            Ok((token, end)) => i < end <= s.len() && token != TokenView::Eof,
            Err(_) => true,
        },
{
    lemma_run_end_bounds(s, i + 1, Run::StringBody);
    lemma_run_end_bounds(s, i + 1, Run::Digits);
    lemma_run_end_bounds(s, i + 1, Run::Word);
}

/// A scan that fails has taken at least the character it fails on, and
/// none from behind the text.
pub proof fn lemma_error_end_bounds(s: Seq<char>, i: int)
    requires
        0 <= i < s.len(),
    ensures
        i < error_end(s, i) <= s.len(),
{
    lemma_run_end_bounds(s, i + 1, Run::StringBody);
    lemma_run_end_bounds(s, i + 1, Run::Digits);
}

/// Unless the text is used up, the next token ends behind the index at which
/// the search for it began.
pub proof fn lemma_next_token_advances(s: Seq<char>, i: int)
    requires
        0 <= i <= s.len(),
    ensures
        match next_token(s, i) {
            Ok((token, end)) => i <= end <= s.len() && (token != TokenView::Eof ==> i < end),
            Err(_) => true,
        },
{
    lemma_skip_blank_bounds(s, i);
    let start = skip_blank(s, i);
    if start < s.len() {
        lemma_token_at_advances(s, start);
    }
}

/// What the text of an identifier may be: a word, or a word with one `!`
/// behind it.
pub open spec fn identifier_text(text: Seq<char>) -> bool {
    let word = if text.len() > 0 && text.last() == '!' {
        text.drop_last()
    } else {
        text
    };
    &&& word.len() > 0
    &&& alpha_or_underscore(word[0])
    &&& forall|k: int| 0 <= k < word.len() ==> alpha_numeric_or_underscore(#[trigger] word[k])
}

/// What a token of a source text may be: not `Eof`, which only ends the
/// scan, and none of the reserved `Main`, `If`, `While` and `For`; an
/// identifier holds the text of one, a string no quote and no line end, and
/// a number is not negative.
pub open spec fn scanned(token: TokenView) -> bool {
    match token {
        TokenView::Eof | TokenView::Main | TokenView::If | TokenView::While | TokenView::For => false,
        TokenView::Identifier(name) => identifier_text(name),
        TokenView::String(text) => forall|k: int|
            0 <= k < text.len() ==> Run::StringBody.holds(#[trigger] text[k]),
        TokenView::Number(n) => 0 <= n <= isize::MAX,
        _ => true,
    }
}

/// The token at an index is one that a source text may have.
pub proof fn lemma_token_at_scanned(s: Seq<char>, i: int)
    requires
        0 <= i < s.len(),
    ensures
        token_at(s, i) matches Ok(found) ==> scanned(found.0),
{
    lemma_run_end_bounds(s, i + 1, Run::StringBody);
    lemma_run_end_bounds(s, i + 1, Run::Word);
    let c = s[i];
    if c == '"' {
        let text = s.subrange(i + 1, run_end(s, i + 1, Run::StringBody));
        assert forall|k: int| 0 <= k < text.len() implies Run::StringBody.holds(
            #[trigger] text[k],
        ) by {}
    } else if alpha_or_underscore(c) {
        let word = s.subrange(i, run_end(s, i + 1, Run::Word));
        assert forall|k: int| 0 <= k < word.len() implies alpha_numeric_or_underscore(
            #[trigger] word[k],
        ) by {}
    }
}

/// Every token of a source text is one that a source text may have. So the
/// tokens hold no `Eof`: they end where the text ends.
pub proof fn lemma_tokens_are_scanned(s: Seq<char>, i: int)
    requires
        0 <= i <= s.len(),
    ensures
        tokens_from(s, i) matches Ok(tokens) ==> forall|k: int|
            0 <= k < tokens.len() ==> scanned(#[trigger] tokens[k]),
    decreases s.len() - i,
{
    lemma_next_token_advances(s, i);
    lemma_skip_blank_bounds(s, i);
    match next_token(s, i) {
        Ok((token, end)) => {
            if token != TokenView::Eof {
                lemma_token_at_scanned(s, skip_blank(s, i));
                lemma_tokens_are_scanned(s, end);
                match tokens_from(s, end) {
                    Ok(rest) => {
                        let tokens = seq![token] + rest;
                        assert forall|k: int| 0 <= k < tokens.len() implies scanned(
                            #[trigger] tokens[k],
                        ) by {
                            if k > 0 {
                                assert(tokens[k] == rest[k - 1]);
                            }
                        }
                    },
                    Err(_) => {},
                }
            }
        },
        Err(_) => {},
    }
}

/// A text that is one token from its first character to its last has that
/// token and no other.
pub proof fn lemma_single_token(s: Seq<char>, token: TokenView)
    requires
        s.len() > 0,
        !blank(s[0]),
        !starts_comment(s, 0),
        token_at(s, 0) == Ok::<(TokenView, int), ScanErrorKind>((token, s.len() as int)),
    ensures
        tokens_of(s) == Ok::<Seq<TokenView>, ScanError>(seq![token]),
{
    let end = s.len() as int;
    assert(tokens_from(s, end) == Ok::<Seq<TokenView>, ScanError>(Seq::empty()));
}

/// A string literal gives back its text: between two quotes, a text without
/// a quote and without a line end is scanned as one `String` token that
/// holds exactly that text.
pub proof fn lemma_string_literal_round_trip(text: Seq<char>)
    requires
        forall|k: int| 0 <= k < text.len() ==> text[k] != '"' && text[k] != '\n',
    ensures
        tokens_of(seq!['"'] + text + seq!['"']) == Ok::<Seq<TokenView>, ScanError>(
            seq![TokenView::String(text)],
        ),
{
    let s = seq!['"'] + text + seq!['"'];
    let close = text.len() as int + 1;
    assert forall|k: int| 1 <= k < close implies Run::StringBody.holds(#[trigger] s[k]) by {
        assert(s[k] == text[k - 1]);
    }
    lemma_run_end_is(s, 1, close, Run::StringBody);
    assert(s.subrange(1, close) =~= text);
    lemma_single_token(s, TokenView::String(text));
}

/// A word is one token: a text that starts with a letter or an underscore
/// and goes on with letters, digits and underscores is scanned as the
/// keyword it spells, or else as one identifier with the whole text.
pub proof fn lemma_word_is_one_token(word: Seq<char>)
    requires
        word.len() > 0,
        alpha_or_underscore(word[0]),
        forall|k: int| 0 <= k < word.len() ==> alpha_numeric_or_underscore(word[k]),
    ensures
        tokens_of(word) == Ok::<Seq<TokenView>, ScanError>(seq![keyword_or_identifier(word)]),
{
    lemma_run_end_is(word, 1, word.len() as int, Run::Word);
    assert(word.subrange(0, word.len() as int) =~= word);
    lemma_single_token(word, keyword_or_identifier(word));
}

/// A `!` right behind a word belongs to the word: the two are scanned as one
/// identifier, never as a keyword or an identifier followed by `Bang`.
pub proof fn lemma_bang_joins_word(word: Seq<char>)
    requires
        word.len() > 0,
        alpha_or_underscore(word[0]),
        forall|k: int| 0 <= k < word.len() ==> alpha_numeric_or_underscore(word[k]),
    ensures
        tokens_of(word + seq!['!']) == Ok::<Seq<TokenView>, ScanError>(
            seq![TokenView::Identifier(word + seq!['!'])],
        ),
{
    let s = word + seq!['!'];
    assert forall|k: int| 1 <= k < word.len() implies Run::Word.holds(#[trigger] s[k]) by {
        assert(s[k] == word[k]);
    }
    lemma_run_end_is(s, 1, word.len() as int, Run::Word);
    assert(s.subrange(0, s.len() as int) =~= s);
    lemma_single_token(s, TokenView::Identifier(s));
}

/// In front of a text, characters without a line end move every run by
/// their number and change nothing else of it.
pub proof fn lemma_run_end_after_prefix(prefix: Seq<char>, rest: Seq<char>, i: int, run: Run)
    requires
        0 <= i <= rest.len(),
    ensures
        run_end(prefix + rest, prefix.len() + i, run) == prefix.len() + run_end(rest, i, run),
    decreases rest.len() - i,
{
    if i < rest.len() && run.holds(rest[i]) {
        lemma_run_end_after_prefix(prefix, rest, i + 1, run);
    }
}

/// The same for the skipping of blanks and comments.
pub proof fn lemma_skip_blank_after_prefix(prefix: Seq<char>, rest: Seq<char>, i: int)
    requires
        0 <= i <= rest.len(),
    ensures
        skip_blank(prefix + rest, prefix.len() + i) == prefix.len() + skip_blank(rest, i),
    decreases rest.len() - i,
{
    if i < rest.len() {
        if blank(rest[i]) {
            lemma_skip_blank_after_prefix(prefix, rest, i + 1);
        } else if starts_comment(rest, i) {
            lemma_run_end_bounds(rest, i + 2, Run::Comment);
            lemma_run_end_after_prefix(prefix, rest, i + 2, Run::Comment);
            lemma_skip_blank_after_prefix(prefix, rest, run_end(rest, i + 2, Run::Comment));
        }
    }
}

/// `t` with its end moved by `by`.
pub open spec fn moved(t: Result<(TokenView, int), ScanErrorKind>, by: int) -> Result<
    (TokenView, int),
    ScanErrorKind,
> {
    match t {
        Ok((token, end)) => Ok((token, end + by)),
        Err(kind) => Err(kind),
    }
}

/// The same for the token at an index: it is the same token, and ends as
/// much later as the prefix is long.
pub proof fn lemma_token_at_after_prefix(prefix: Seq<char>, rest: Seq<char>, i: int)
    requires
        0 <= i < rest.len(),
    ensures
        token_at(prefix + rest, prefix.len() + i) == moved(token_at(rest, i), prefix.len() as int),
{
    let s = prefix + rest;
    let d = prefix.len() as int;
    lemma_run_end_after_prefix(prefix, rest, i + 1, Run::StringBody);
    lemma_run_end_after_prefix(prefix, rest, i + 1, Run::Digits);
    lemma_run_end_after_prefix(prefix, rest, i + 1, Run::Word);
    lemma_run_end_bounds(rest, i + 1, Run::StringBody);
    lemma_run_end_bounds(rest, i + 1, Run::Digits);
    lemma_run_end_bounds(rest, i + 1, Run::Word);
    let string_end = run_end(rest, i + 1, Run::StringBody);
    let digits_end = run_end(rest, i + 1, Run::Digits);
    let word_end = run_end(rest, i + 1, Run::Word);
    assert(s.subrange(d + i + 1, d + string_end) =~= rest.subrange(i + 1, string_end));
    assert(s.subrange(d + i, d + digits_end) =~= rest.subrange(i, digits_end));
    assert(s.subrange(d + i, d + word_end) =~= rest.subrange(i, word_end));
    if word_end < rest.len() {
        assert(s.subrange(d + i, d + word_end + 1) =~= rest.subrange(i, word_end + 1));
    }
}

/// Behind a prefix without a line end, the count of line ends is that of
/// the rest alone.
pub proof fn lemma_newlines_after_prefix(prefix: Seq<char>, rest: Seq<char>, i: int)
    requires
        0 <= i <= rest.len(),
        forall|k: int| 0 <= k < prefix.len() ==> prefix[k] != '\n',
    ensures
        newlines_before(prefix + rest, prefix.len() + i) == newlines_before(rest, i),
    decreases i,
{
    let s = prefix + rest;
    let d = prefix.len() as int;
    if i == 0 {
        assert forall|k: int| 0 <= k < d implies !(#[trigger] s[k]).newline() by {
            assert(s[k] == prefix[k]);
        }
        lemma_newlines_same(s, 0, d);
    } else {
        lemma_newlines_after_prefix(prefix, rest, i - 1);
    }
}

/// What is scanned from an index on depends on the text before it only
/// through the line ends there: behind a prefix that holds none, the tokens
/// and the errors are those of the rest alone.
pub proof fn lemma_tokens_after_prefix(prefix: Seq<char>, rest: Seq<char>, i: int)
    requires
        0 <= i <= rest.len(),
        forall|k: int| 0 <= k < prefix.len() ==> prefix[k] != '\n',
    ensures
        tokens_from(prefix + rest, prefix.len() + i) == tokens_from(rest, i),
    decreases rest.len() - i,
{
    let s = prefix + rest;
    let d = prefix.len() as int;
    lemma_skip_blank_after_prefix(prefix, rest, i);
    lemma_skip_blank_bounds(rest, i);
    let start = skip_blank(rest, i);
    if start < rest.len() {
        lemma_token_at_after_prefix(prefix, rest, start);
        lemma_newlines_after_prefix(prefix, rest, start);
        lemma_token_at_advances(rest, start);
        match token_at(rest, start) {
            Ok((token, end)) => {
                lemma_tokens_after_prefix(prefix, rest, end);
            },
            Err(_) => {},
        }
    }
}

/// A comment adds no token: with `//` and the rest of its line in front, a
/// text that is empty or starts with a line end is scanned as without them.
pub proof fn lemma_comment_adds_no_token(comment: Seq<char>, rest: Seq<char>)
    requires
        forall|k: int| 0 <= k < comment.len() ==> comment[k] != '\n',
        rest.len() == 0 || rest[0] == '\n',
    ensures
        tokens_of(seq!['/', '/'] + comment + rest) == tokens_of(rest),
{
    let prefix = seq!['/', '/'] + comment;
    let s = prefix + rest;
    let d = prefix.len() as int;
    assert forall|k: int| 2 <= k < d implies Run::Comment.holds(#[trigger] s[k]) by {
        assert(s[k] == comment[k - 2]);
    }
    lemma_run_end_is(s, 2, d, Run::Comment);
    assert(tokens_from(s, 0) == tokens_from(s, d));
    assert forall|k: int| 0 <= k < prefix.len() implies prefix[k] != '\n' by {
        if k >= 2 {
            assert(prefix[k] == comment[k - 2]);
        }
    }
    lemma_tokens_after_prefix(prefix, rest, 0);
}

/// Behind any prefix the tokens are those of the rest alone; only the lines
/// of the errors may differ, by the line ends in the prefix.
pub proof fn lemma_tokens_after_any_prefix(prefix: Seq<char>, rest: Seq<char>, i: int)
    requires
        0 <= i <= rest.len(),
    ensures
        match tokens_from(rest, i) {
            Ok(tokens) => tokens_from(prefix + rest, prefix.len() + i) == Ok::<
                Seq<TokenView>,
                ScanError,
            >(tokens),
            Err(e) => tokens_from(prefix + rest, prefix.len() + i) matches Err(other)
                && other.kind == e.kind,
        },
    decreases rest.len() - i,
{
    lemma_skip_blank_after_prefix(prefix, rest, i);
    lemma_skip_blank_bounds(rest, i);
    let start = skip_blank(rest, i);
    if start < rest.len() {
        lemma_token_at_after_prefix(prefix, rest, start);
        lemma_token_at_advances(rest, start);
        match token_at(rest, start) {
            Ok((token, end)) => {
                lemma_tokens_after_any_prefix(prefix, rest, end);
            },
            Err(_) => {},
        }
    }
}

/// A line that holds a comment and nothing else adds one `Newline` and no
/// other token to the tokens of the text behind it.
pub proof fn lemma_comment_line(comment: Seq<char>, rest: Seq<char>)
    requires
        forall|k: int| 0 <= k < comment.len() ==> comment[k] != '\n',
    ensures
        tokens_of(rest) matches Ok(tokens) ==> tokens_of(
            seq!['/', '/'] + comment + seq!['\n'] + rest,
        ) == Ok::<Seq<TokenView>, ScanError>(seq![TokenView::Newline] + tokens),
{
    let line_end = seq!['\n'];
    let behind = line_end + rest;
    assert(seq!['/', '/'] + comment + line_end + rest =~= seq!['/', '/'] + comment + behind);
    lemma_comment_adds_no_token(comment, behind);
    lemma_tokens_after_any_prefix(line_end, rest, 0);
    assert(next_token(behind, 0) == Ok::<(TokenView, int), ScanError>((TokenView::Newline, 1)));
}

/// `String::push` of std appends the given character to the end of the
/// string and changes nothing else of it.
pub assume_specification[ std::string::String::push ](s: &mut std::string::String, c: char)
    ensures
        final(s)@ == old(s)@.push(c),
;

/// The views of the tokens, in their order.
pub open spec fn token_views(tokens: Seq<Token>) -> Seq<TokenView> {
    tokens.map_values(|t: Token| t@)
}

/// `found` in front of the tokens of `rest`, or the error of `rest`.
spec fn after(found: Seq<TokenView>, rest: Result<Seq<TokenView>, ScanError>) -> Result<
    Seq<TokenView>,
    ScanError,
> {
    match rest {
        Ok(tokens) => Ok(found + tokens),
        Err(e) => Err(e),
    }
}

/// Turns a source text into its tokens. The result holds no `Eof`: it ends
/// where the text ends. The first error ends the scan, and no tokens are
/// returned then.
pub fn scan(src: Vec<char>) -> (r: Result<Vec<Token>, ScanError>)
    ensures
        match r {
            Ok(tokens) => tokens_of(src@) == Ok::<Seq<TokenView>, ScanError>(tokens.deep_view()),
            Err(e) => tokens_of(src@) == Err::<Seq<TokenView>, ScanError>(e),
        },
{
    let ghost s = src@;
    let mut chars = ScanIter::new(src);
    let mut tokens: Vec<Token> = Vec::new();
    loop
        invariant
            s == src@,
            chars.wf(),
            chars.items() == s,
            tokens_of(s) == after(token_views(tokens@), tokens_from(s, chars.position())),
        decreases s.len() - chars.position(),
    {
        proof {
            lemma_next_token_advances(s, chars.position());
        }
        let ghost found = token_views(tokens@);
        match scan_token(&mut chars) {
            Err(e) => {
                return Err(e);
            },
            Ok(Token::Eof) => {
                assert(tokens.deep_view() =~= found);
                return Ok(tokens);
            },
            Ok(token) => {
                tokens.push(token);
                assert(token_views(tokens@) =~= found.push(token@));
                assert(forall|rest: Seq<TokenView>|
                    found.push(token@) + rest =~= found + (seq![token@] + rest));
            },
        }
    }
}

/// Reads the next token and leaves the cursor behind it. At the end of the
/// text the token is `Eof`. Where it fails, the cursor stands where the
/// error was found, behind at least one character.
fn scan_token(src: &mut ScanIter<char>) -> (r: Result<Token, ScanError>)
    requires
        old(src).wf(),
    ensures
        final(src).wf(),
        final(src).items() == old(src).items(),
        match next_token(old(src).items(), old(src).position()) {
            Ok((token, end)) => r matches Ok(t) && t@ == token && final(src).position() == end,
            Err(e) => r == Err::<Token, ScanError>(e) && final(src).position() == error_end(
                old(src).items(),
                skip_blank(old(src).items(), old(src).position()),
            ),
        },
        r is Err ==> old(src).position() < final(src).position() <= final(src).items().len(),
{
    let ghost s = src.items();
    let ghost begin = src.position();
    loop
        invariant
            src.wf(),
            src.items() == s,
            s == old(src).items(),
            begin == old(src).position(),
            0 <= begin <= src.position() <= s.len(),
            skip_blank(s, src.position()) == skip_blank(s, begin),
        decreases s.len() - src.position(),
    {
        if src.is_at_end() {
            return Ok(Token::Eof);
        }
        let line: usize = src.line();
        let c = *src.peek();
        let ghost at = src.position();
        src.advance();
        match c {
            ' ' | '\r' | '\t' => {},
            '/' => {
                if src.match_item('/') {
                    while !src.is_at_end() && !src.peek().is_newline()
                        invariant
                            src.wf(),
                            src.items() == s,
                            0 <= at,
                            at + 2 <= src.position() <= s.len(),
                            forall|k: int| at + 2 <= k < src.position() ==> s[k] != '\n',
                        decreases s.len() - src.position(),
                    {
                        src.advance();
                    }
                    proof {
                        lemma_run_end_is(s, at + 2, src.position(), Run::Comment);
                    }
                } else {
                    return Ok(Token::Slash);
                }
            },
            '(' => {
                return Ok(Token::LeftParen);
            },
            ')' => {
                return Ok(Token::RightParen);
            },
            '{' => {
                return Ok(Token::LeftBrace);
            },
            '}' => {
                return Ok(Token::RightBrace);
            },
            '$' => {
                return Ok(Token::DollarSign);
            },
            ',' => {
                return Ok(Token::Comma);
            },
            '\n' => {
                return Ok(Token::Newline);
            },
            '!' => {
                if src.match_item('=') {
                    return Ok(Token::BangEqual);
                } else {
                    return Ok(Token::Bang);
                }
            },
            '=' => {
                if src.match_item('=') {
                    return Ok(Token::EqualEqual);
                } else {
                    return Ok(Token::Equal);
                }
            },
            '"' => {
                proof {
                    lemma_error_end_bounds(s, at);
                }
                return scan_string(src);
            },
            _ => {
                if is_digit(c) {
                    proof {
                        lemma_error_end_bounds(s, at);
                    }
                    return scan_number(src);
                } else if is_alpha_or_underscore(c) {
                    return Ok(scan_identifier_or_keyword(src));
                } else {
                    return Err(ScanError { line, kind: ScanErrorKind::UnexpectedChar(c) });
                }
            },
        }
    }
}

/// Reads a string literal whose opening quote has just been consumed.
/// Where it fails, the cursor stands where the text breaks off: at the line
/// end, or at the end of the text.
fn scan_string(src: &mut ScanIter<char>) -> (r: Result<Token, ScanError>)
    requires
        old(src).wf(),
        old(src).position() > 0,
        old(src).items()[old(src).position() - 1] == '"',
    ensures
        final(src).wf(),
        final(src).items() == old(src).items(),
        match string_token(old(src).items(), old(src).position() - 1) {
            Ok((token, end)) => r matches Ok(t) && t@ == token && final(src).position() == end,
            Err(kind) => r == Err::<Token, ScanError>(
                ScanError {
                    line: line_number(
                        newlines_before(old(src).items(), old(src).position() - 1),
                    ),
                    kind,
                },
            ) && final(src).position() == run_end(
                old(src).items(),
                old(src).position(),
                Run::StringBody,
            ),
        },
{
    let ghost s = src.items();
    let ghost start = src.position();
    let mut text = String::new();
    let mut c = *src.peek();
    while c != '"' && !src.is_at_end()
        invariant
            src.wf(),
            src.items() == s,
            s == old(src).items(),
            start == old(src).position(),
            0 < start <= src.position() <= s.len(),
            s[start - 1] == '"',
            c == src.current(),
            forall|k: int| start <= k < src.position() ==> Run::StringBody.holds(#[trigger] s[k]),
            text@ == s.subrange(start, src.position()),
        decreases s.len() - src.position(),
    {
        if c == '\n' {
            proof {
                lemma_run_end_is(s, start, src.position(), Run::StringBody);
                lemma_newlines_same(s, start - 1, src.position());
            }
            return Err(ScanError { line: src.line(), kind: ScanErrorKind::MultiLineString });
        }
        text.push(c);
        src.advance();
        c = *src.peek();
    }
    proof {
        lemma_run_end_is(s, start, src.position(), Run::StringBody);
        lemma_newlines_same(s, start - 1, src.position());
    }
    if src.is_at_end() {
        return Err(ScanError { line: src.line(), kind: ScanErrorKind::UnterminatedString });
    }
    src.advance();
    Ok(Token::String(text))
}

/// The number that one decimal digit writes.
fn digit_value(c: char) -> (d: isize)
    requires
        digit(c),
    ensures
        0 <= d <= 9,
        d == c as nat - '0' as nat,
{
    (c as u8 - '0' as u8) as isize
}

/// Reads an integer literal whose first digit has just been consumed. It
/// takes every digit of the literal, also where the number is too large.
fn scan_number(src: &mut ScanIter<char>) -> (r: Result<Token, ScanError>)
    requires
        old(src).wf(),
        old(src).position() > 0,
        digit(old(src).items()[old(src).position() - 1]),
    ensures
        final(src).wf(),
        final(src).items() == old(src).items(),
        match number_token(old(src).items(), old(src).position() - 1) {
            Ok((token, end)) => r matches Ok(t) && t@ == token && final(src).position() == end,
            Err(kind) => r == Err::<Token, ScanError>(
                ScanError {
                    line: line_number(
                        newlines_before(old(src).items(), old(src).position() - 1),
                    ),
                    kind,
                },
            ) && final(src).position() == run_end(
                old(src).items(),
                old(src).position(),
                Run::Digits,
            ),
        },
{
    let ghost s = src.items();
    let ghost start = src.position();
    let mut value: isize = digit_value(*src.previous());
    let mut fits = true;
    let mut c = *src.peek();
    proof {
        let first = s.subrange(start - 1, start);
        assert(decimal_value(first.drop_last()) == 0);
    }
    while is_digit(c)
        invariant
            src.wf(),
            src.items() == s,
            s == old(src).items(),
            start == old(src).position(),
            0 < start <= src.position() <= s.len(),
            c == src.current(),
            forall|k: int| start - 1 <= k < src.position() ==> digit(#[trigger] s[k]),
            fits ==> value == decimal_value(s.subrange(start - 1, src.position())),
            !fits ==> decimal_value(s.subrange(start - 1, src.position())) > isize::MAX,
            0 <= value,
        decreases s.len() - src.position(),
    {
        let d: isize = digit_value(c);
        proof {
            let longer = s.subrange(start - 1, src.position() + 1);
            assert(longer.drop_last() =~= s.subrange(start - 1, src.position()));
        }
        if fits {
            match value.checked_mul(10) {
                Some(tenfold) => match tenfold.checked_add(d) {
                    Some(next) => {
                        value = next;
                    },
                    None => {
                        fits = false;
                    },
                },
                None => {
                    fits = false;
                },
            }
        }
        src.advance();
        c = *src.peek();
    }
    proof {
        lemma_run_end_is(s, start, src.position(), Run::Digits);
        lemma_newlines_same(s, start - 1, src.position());
    }
    if fits {
        Ok(Token::Number(value))
    } else {
        Err(ScanError { line: src.line(), kind: ScanErrorKind::NumberTooLarge })
    }
}

/// A string with the given characters.
fn string_from(chars: &Vec<char>) -> (text: String)
    ensures
        text@ == chars@,
{
    let mut text = String::new();
    let mut i: usize = 0;
    while i < chars.len()
        invariant
            0 <= i <= chars.len(),
            text@ == chars@.subrange(0, i as int),
        decreases chars.len() - i,
    {
        text.push(chars[i]);
        i = i + 1;
    }
    text
}

/// The keyword that `word` spells, or the identifier with that text.
fn keyword_or_identifier_token(word: Vec<char>) -> (token: Token)
    ensures
        token@ == keyword_or_identifier(word@),
{
    let n: usize = word.len();
    if n == 3 && word[0] == 'f' && word[1] == 'u' && word[2] == 'n' {
        assert(word@ =~= seq!['f', 'u', 'n']);
        Token::Fun
    } else if n == 3 && word[0] == 'c' && word[1] == 'm' && word[2] == 'd' {
        assert(word@ =~= seq!['c', 'm', 'd']);
        Token::Cmd
    } else if n == 3 && word[0] == 'l' && word[1] == 'e' && word[2] == 't' {
        assert(word@ =~= seq!['l', 'e', 't']);
        Token::Let
    } else if n == 6 && word[0] == 'r' && word[1] == 'e' && word[2] == 't' && word[3] == 'u'
        && word[4] == 'r' && word[5] == 'n' {
        assert(word@ =~= seq!['r', 'e', 't', 'u', 'r', 'n']);
        Token::Return
    } else {
        Token::Identifier(string_from(&word))
    }
}

/// Reads a word whose first character has just been consumed.
fn scan_identifier_or_keyword(src: &mut ScanIter<char>) -> (token: Token)
    requires
        old(src).wf(),
        old(src).position() > 0,
    ensures
        final(src).wf(),
        final(src).items() == old(src).items(),
        token@ == word_token(old(src).items(), old(src).position() - 1).0,
        final(src).position() == word_token(old(src).items(), old(src).position() - 1).1,
{
    let ghost s = src.items();
    let ghost start = src.position();
    let mut word: Vec<char> = Vec::new();
    let mut c = *src.peek();
    word.push(*src.previous());
    while is_alpha_numeric_or_underscore(c)
        invariant
            src.wf(),
            src.items() == s,
            s == old(src).items(),
            start == old(src).position(),
            0 < start <= src.position() <= s.len(),
            c == src.current(),
            forall|k: int| start <= k < src.position() ==> Run::Word.holds(#[trigger] s[k]),
            word@ == s.subrange(start - 1, src.position()),
        decreases s.len() - src.position(),
    {
        word.push(c);
        src.advance();
        c = *src.peek();
    }
    proof {
        lemma_run_end_is(s, start, src.position(), Run::Word);
    }
    if c == '!' {
        word.push(c);
        assert(s.subrange(start - 1, src.position()).push(c) =~= s.subrange(
            start - 1,
            src.position() + 1,
        ));
        src.advance();
        return Token::Identifier(string_from(&word));
    }
    keyword_or_identifier_token(word)
}

} // verus!
