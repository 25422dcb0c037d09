use embedded_text::ansi::{try_parse_sgr, Sgr};
use embedded_text::color::Rgb;
use embedded_text::middleware::MiddlewareWrapper;
use embedded_text::parser::{Parser, Token};
use embedded_text::plugin::{Middleware, NoMiddleware, NoPlugin, PluginWrapper, ProcessingState};

#[test]
fn middleware_peek_does_not_move_the_source() {
    let mut parser = Parser::parse("one two");
    let mut mw = MiddlewareWrapper::new(NoMiddleware::new());
    assert_eq!(mw.peek_token(&mut parser), Some(Token::Word("one")));
    assert_eq!(mw.peek_token(&mut parser), Some(Token::Word("one")));
    assert_eq!(parser.remaining(), 7);
    assert_eq!(mw.peeked_len(), 3);
    mw.consume_peeked_token(&mut parser);
    assert_eq!(parser.remaining(), 4);
    assert_eq!(mw.peek_token(&mut parser), Some(Token::Whitespace(1, " ")));
}

#[test]
fn middleware_replace_and_new_line() {
    let mut parser = Parser::parse("abcdef gh");
    let mut mw = MiddlewareWrapper::new(NoMiddleware::new());
    assert_eq!(mw.peek_token(&mut parser), Some(Token::Word("abcdef")));
    mw.replace_peeked_token(2, Token::Word("ab"));
    assert_eq!(mw.peek_token(&mut parser), Some(Token::Word("ab")));
    mw.consume_peeked_token(&mut parser);
    assert_eq!(mw.peek_token(&mut parser), Some(Token::Word("cdef")));
    mw.replace_peeked_token(0, Token::Word("x"));
    mw.new_line();
    assert_eq!(mw.peek_token(&mut parser), Some(Token::Word("cdef")));
}

#[derive(Clone)]
struct Shout;

impl<'a> Middleware<'a> for Shout {
    fn render_token(&mut self, token: Token<'a>) -> Option<Token<'a>> {
        match token {
            Token::Word(_) => Some(Token::Word("WORD")),
            other => Some(other),
        }
    }
}

#[test]
fn render_token_only_rewrites_while_rendering() {
    let mut mw = MiddlewareWrapper::new(Shout);
    assert_eq!(mw.render_token(Token::Word("w")), Some(Token::Word("w")));
    mw.set_state(ProcessingState::Render);
    assert_eq!(mw.render_token(Token::Word("w")), Some(Token::Word("WORD")));

    let mut plugin = PluginWrapper::new(Shout);
    assert_eq!(plugin.render_token(Token::Word("w")), Some(Token::Word("w")));
    plugin.set_state(ProcessingState::Render);
    assert_eq!(plugin.render_token(Token::Word("w")), Some(Token::Word("WORD")));
}

#[test]
fn plugin_peek_moves_the_source_and_consume_partial_truncates() {
    let mut parser = Parser::parse("   word");
    let mut plugin = PluginWrapper::new(NoPlugin::new());
    assert_eq!(plugin.peek_token(&mut parser), Some(Token::Whitespace(3, "   ")));
    assert_eq!(parser.remaining(), 4);
    plugin.consume_partial(2);
    assert_eq!(plugin.peek_token(&mut parser), Some(Token::Whitespace(1, " ")));
    plugin.consume_peeked_token();
    assert_eq!(plugin.peek_token(&mut parser), Some(Token::Word("word")));
    plugin.consume_partial(1);
    assert_eq!(plugin.peek_token(&mut parser), Some(Token::Word("ord")));
    plugin.new_line();
    assert_eq!(plugin.peek_token(&mut parser), Some(Token::Word("ord")));
    plugin.consume_peeked_token();
    assert_eq!(plugin.peek_token(&mut parser), None);
    let _inner: NoPlugin = plugin.into_inner();
}

#[test]
fn sgr_codes() {
    assert_eq!(try_parse_sgr(&[]), None);
    assert_eq!(try_parse_sgr(&[0]), Some(Sgr::Reset));
    assert_eq!(try_parse_sgr(&[4]), Some(Sgr::Underline));
    assert_eq!(try_parse_sgr(&[24]), Some(Sgr::UnderlineOff));
    assert_eq!(
        try_parse_sgr(&[31]),
        Some(Sgr::ChangeTextColor(Rgb::new(197, 15, 31)))
    );
    assert_eq!(
        try_parse_sgr(&[92]),
        Some(Sgr::ChangeTextColor(Rgb::new(22, 198, 12)))
    );
    assert_eq!(
        try_parse_sgr(&[107]),
        Some(Sgr::ChangeBackgroundColor(Rgb::new(242, 242, 242)))
    );
    assert_eq!(
        try_parse_sgr(&[38, 2, 1, 2, 3]),
        Some(Sgr::ChangeTextColor(Rgb::new(1, 2, 3)))
    );
    assert_eq!(
        try_parse_sgr(&[48, 5, 16 + 36 + 6 + 1]),
        Some(Sgr::ChangeBackgroundColor(Rgb::new(51, 51, 51)))
    );
    assert_eq!(
        try_parse_sgr(&[38, 5, 255]),
        Some(Sgr::ChangeTextColor(Rgb::new(238, 238, 238)))
    );
    assert_eq!(try_parse_sgr(&[38, 2, 1]), None);
    assert_eq!(try_parse_sgr(&[1]), None);
}

#[test]
fn rgb_channels() {
    let c = Rgb::new(1, 2, 3);
    assert_eq!((c.r(), c.g(), c.b()), (1, 2, 3));
}
