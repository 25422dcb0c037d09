use embedded_text::escape::EscapeCode;
use embedded_text::parser::{Parser, Token};

#[test]
fn parse() {
    let text = "Lorem ipsum \r dolor sit amet, conse😅ctetur adipiscing\nelit";

    assert_eq!(
        Parser::parse(text).tokens(),
        vec![
            Token::Word("Lorem"),
            Token::Whitespace(1, " "),
            Token::Word("ipsum"),
            Token::Whitespace(1, " "),
            Token::CarriageReturn,
            Token::Whitespace(1, " "),
            Token::Word("dolor"),
            Token::Whitespace(1, " "),
            Token::Word("sit"),
            Token::Whitespace(1, " "),
            Token::Word("amet,"),
            Token::Whitespace(1, " "),
            Token::Word("conse😅ctetur"),
            Token::Whitespace(1, " "),
            Token::Word("adipiscing"),
            Token::NewLine,
            Token::Word("elit"),
        ]
    );
}

#[test]
fn parse_multibyte_last() {
    let text = "test😅";

    assert_eq!(Parser::parse(text).tokens(), vec![Token::Word("test😅"),]);
}

#[test]
fn parse_nbsp_as_word_char() {
    let text = "test\u{A0}word";

    assert_eq!(9, "test\u{A0}word".chars().count());
    assert_eq!(
        Parser::parse(text).tokens(),
        vec![Token::Word("test\u{A0}word"),]
    );
    assert_eq!(
        Parser::parse(" \u{A0}word").tokens(),
        vec![Token::Whitespace(1, " "), Token::Word("\u{A0}word"),]
    );
}

#[test]
fn whitespace_run_counts_characters_not_bytes() {
    // an em space is three bytes long, but one whitespace character
    assert_eq!(
        Parser::parse("a \u{2003}  b").tokens(),
        vec![
            Token::Word("a"),
            Token::Whitespace(4, " \u{2003}  "),
            Token::Word("b"),
        ]
    );
}

#[test]
fn tab_newline_and_carriage_return_are_tokens_of_their_own() {
    assert_eq!(
        Parser::parse("a\t\tb\r\n").tokens(),
        vec![
            Token::Word("a"),
            Token::Tab,
            Token::Tab,
            Token::Word("b"),
            Token::CarriageReturn,
            Token::NewLine,
        ]
    );
}

#[test]
fn soft_hyphen_interrupts_a_word() {
    assert_eq!(
        Parser::parse("sam\u{AD}ple").tokens(),
        vec![
            Token::Word("sam"),
            Token::Break("-", "\u{AD}"),
            Token::Word("ple"),
        ]
    );
}

#[test]
fn escape_sequence_is_a_token() {
    let mut params = [0u8; 5];
    params[0] = 92;
    assert_eq!(
        Parser::parse("foo\x1b[92mbar").tokens(),
        vec![
            Token::Word("foo"),
            Token::EscapeSequence(EscapeCode::SetGraphicsMode(1, params), "\x1b[92m"),
            Token::Word("bar"),
        ]
    );
    assert_eq!(
        Parser::parse("\x1b[3C\x1b[2D").tokens(),
        vec![
            Token::EscapeSequence(EscapeCode::CursorForward(3), "\x1b[3C"),
            Token::EscapeSequence(EscapeCode::CursorBackward(2), "\x1b[2D"),
        ]
    );
}

#[test]
fn malformed_escape_sequence_is_word_text() {
    assert_eq!(
        Parser::parse("a\x1b[b c").tokens(),
        vec![
            Token::Word("a\x1b[b"),
            Token::Whitespace(1, " "),
            Token::Word("c"),
        ]
    );
}

fn raw(t: &Token) -> String {
    match t {
        Token::NewLine => "\n".to_string(),
        Token::CarriageReturn => "\r".to_string(),
        Token::Tab => "\t".to_string(),
        Token::Whitespace(_, s) | Token::Word(s) | Token::Break(_, s) => s.to_string(),
        Token::EscapeSequence(_, s) => s.to_string(),
    }
}

#[test]
fn tokens_reproduce_the_text() {
    for text in [
        "",
        "Lorem ipsum \r dolor\n\nsit",
        "  \t lead and trail \t ",
        "super\u{AD}cali\u{AD}fragi",
        "glued\u{a0}words and \u{2003} em",
        "Lorem \x1b[92mIpsum\x1b[0m x\x1b[3C",
        "😅\u{AD}\u{AD}😅",
    ] {
        let joined: String = Parser::parse(text).tokens().iter().map(raw).collect();
        assert_eq!(joined, text);
    }
}

#[test]
fn peek_does_not_advance() {
    let mut parser = Parser::parse("one two");
    assert_eq!(parser.peek(), Some(Token::Word("one")));
    assert_eq!(parser.peek(), Some(Token::Word("one")));
    assert_eq!(parser.next(), Some(Token::Word("one")));
    assert_eq!(parser.peek(), Some(Token::Whitespace(1, " ")));
}

#[test]
fn remaining_counts_bytes_and_is_empty_at_end() {
    let mut parser = Parser::parse("ab\u{A0}c d");
    assert_eq!(parser.remaining(), 7);
    assert!(!parser.is_empty());
    assert_eq!(parser.next(), Some(Token::Word("ab\u{A0}c")));
    assert_eq!(parser.remaining(), 2);
    assert_eq!(parser.next(), Some(Token::Whitespace(1, " ")));
    assert_eq!(parser.next(), Some(Token::Word("d")));
    assert!(parser.is_empty());
    assert_eq!(parser.remaining(), 0);
    assert_eq!(parser.next(), None);
    assert_eq!(parser.peek(), None);
}
