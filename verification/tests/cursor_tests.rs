use rss_frontend::scanner::Token;
use rss_frontend::util::char::is_alpha_numeric_or_underscore;
use rss_frontend::util::char::is_alpha_or_underscore;
use rss_frontend::util::char::is_digit;
use rss_frontend::util::CmpType;
use rss_frontend::util::Newline;
use rss_frontend::util::ScanIter;
use rss_frontend::util::Terminal;

#[test]
fn digits_are_zero_to_nine() {
    for c in ['0', '1', '5', '9'] {
        assert!(is_digit(c));
    }
    for c in ['/', ':', 'a', ' ', '\u{0}', '\u{663}'] {
        assert!(!is_digit(c));
    }
}

#[test]
fn letters_and_underscore_start_a_word() {
    for c in ['a', 'z', 'A', 'Z', '_', 'm'] {
        assert!(is_alpha_or_underscore(c));
    }
    for c in ['0', '9', '@', '[', '`', '{', ' ', '\u{e9}'] {
        assert!(!is_alpha_or_underscore(c));
    }
}

#[test]
fn letters_digits_and_underscore_continue_a_word() {
    for c in ['a', 'Z', '_', '0', '9'] {
        assert!(is_alpha_numeric_or_underscore(c));
    }
    for c in ['!', '-', ' ', '\n', '\u{e9}'] {
        assert!(!is_alpha_numeric_or_underscore(c));
    }
}

#[test]
fn newline_marks() {
    assert!('\n'.is_newline());
    assert!(!'\r'.is_newline());
    assert!(Token::Newline.is_newline());
    assert!(!Token::Eof.is_newline());
}

#[test]
fn characters_compare_by_value() {
    assert!('a'.cmp_type(&'a'));
    assert!(!'a'.cmp_type(&'b'));
}

#[test]
fn tokens_compare_by_variant() {
    assert!(Token::String("a".to_string()).cmp_type(&Token::String("".to_string())));
    assert!(Token::Identifier("a".to_string()).cmp_type(&Token::Identifier("b".to_string())));
    assert!(Token::Number(1).cmp_type(&Token::Number(2)));
    assert!(Token::Fun.cmp_type(&Token::Fun));
    assert!(!Token::String("a".to_string()).cmp_type(&Token::Identifier("a".to_string())));
    assert!(!Token::Fun.cmp_type(&Token::Cmd));
    assert!(!Token::Newline.cmp_type(&Token::Eof));
}

#[test]
fn terminal_elements() {
    assert_eq!(char::terminal(), '\u{0}');
    assert_eq!(Token::terminal(), Token::Eof);
}

#[test]
fn cursor_walks_the_sequence() {
    let mut cursor = ScanIter::new(vec!['a', 'b']);
    assert!(!cursor.is_at_end());
    assert_eq!(*cursor.peek(), 'a');
    cursor.advance();
    assert_eq!(*cursor.previous(), 'a');
    assert_eq!(*cursor.peek(), 'b');
    assert!(!cursor.is_at_end());
    cursor.advance();
    assert_eq!(*cursor.previous(), 'b');
    assert!(cursor.is_at_end());
}

#[test]
fn cursor_shows_the_terminal_element_at_the_end() {
    let mut cursor = ScanIter::new(vec!['a']);
    cursor.advance();
    assert!(cursor.is_at_end());
    assert_eq!(*cursor.peek(), '\u{0}');
    let empty: ScanIter<Token> = ScanIter::new(vec![]);
    assert!(empty.is_at_end());
    assert_eq!(*empty.peek(), Token::Eof);
}

#[test]
fn advance_does_nothing_past_the_end() {
    let mut cursor = ScanIter::new(vec!['a']);
    cursor.advance();
    cursor.advance();
    cursor.advance();
    assert!(cursor.is_at_end());
    assert_eq!(*cursor.previous(), 'a');
    assert_eq!(*cursor.peek(), '\u{0}');
    assert_eq!(cursor.line(), 1);
}

#[test]
fn line_counts_consumed_line_ends() {
    let mut cursor = ScanIter::new(vec!['a', '\n', '\n', 'b']);
    assert_eq!(cursor.line(), 1);
    cursor.advance();
    assert_eq!(cursor.line(), 1);
    cursor.advance();
    assert_eq!(cursor.line(), 2);
    cursor.advance();
    assert_eq!(cursor.line(), 3);
    cursor.advance();
    assert_eq!(cursor.line(), 3);
}

#[test]
fn line_counts_newline_tokens() {
    let mut cursor = ScanIter::new(vec![Token::Fun, Token::Newline, Token::Cmd]);
    cursor.advance();
    assert_eq!(cursor.line(), 1);
    cursor.advance();
    assert_eq!(cursor.line(), 2);
}

#[test]
fn check_item_does_not_consume() {
    let cursor = ScanIter::new(vec![Token::String("abc".to_string()), Token::Fun]);
    assert!(cursor.check_item(Token::String("".to_string())));
    assert!(!cursor.check_item(Token::Identifier("abc".to_string())));
    assert_eq!(*cursor.peek(), Token::String("abc".to_string()));
}

#[test]
fn match_item_consumes_on_a_match_only() {
    let mut cursor = ScanIter::new(vec![Token::Identifier("x".to_string()), Token::Fun]);
    assert!(!cursor.match_item(Token::Fun));
    assert_eq!(*cursor.peek(), Token::Identifier("x".to_string()));
    assert!(cursor.match_item(Token::Identifier("other".to_string())));
    assert_eq!(*cursor.peek(), Token::Fun);
    assert!(cursor.match_item(Token::Fun));
    assert!(cursor.is_at_end());
    assert!(!cursor.match_item(Token::Fun));
}

#[test]
fn match_item_on_characters() {
    let mut cursor = ScanIter::new(vec!['=', '=', 'x']);
    assert!(cursor.match_item('='));
    assert!(cursor.match_item('='));
    assert!(!cursor.match_item('='));
    assert_eq!(*cursor.peek(), 'x');
}

#[test]
fn match_item_at_the_end_sees_the_terminal_element() {
    let mut cursor: ScanIter<Token> = ScanIter::new(vec![]);
    assert!(cursor.check_item(Token::Eof));
    assert!(cursor.match_item(Token::Eof));
    assert!(cursor.is_at_end());
    assert!(!cursor.match_item(Token::Newline));
}
