use std::convert::Infallible;

use embedded_graphics::{
    mono_font::{ascii::FONT_6X9, MonoTextStyle},
    pixelcolor::BinaryColor,
};
use embedded_text::ansi::Sgr;
use embedded_text::color::Rgb;
use embedded_text::cursor::{LineCursor, SpaceConfig};
use embedded_text::line_iter::{
    ElementHandler, Event, HorizontalAlignment, LineElementParser, LineEndType,
};
use embedded_text::middleware::MiddlewareWrapper;
use embedded_text::parser::Parser;
use embedded_text::plugin::NoMiddleware;

#[derive(PartialEq, Eq, Debug)]
enum RenderElement {
    Space(u32),
    String(String, u32),
    MoveCursor(i32),
    Sgr(Sgr),
}

impl RenderElement {
    fn string(st: &str, width: u32) -> Self {
        Self::String(st.to_owned(), width)
    }
}

/// The width of a text in a monospaced font: one glyph per character (the font's own
/// string measurement counts bytes).
fn str_width(style: &MonoTextStyle<'_, BinaryColor>, st: &str) -> u32 {
    let n = st.chars().count() as u32;
    let glyph = style.font.character_size.width + style.font.character_spacing;
    (n * glyph).saturating_sub(style.font.character_spacing)
}

struct TestElementHandler<'s> {
    elements: Vec<RenderElement>,
    style: MonoTextStyle<'s, BinaryColor>,
}

impl<'s> TestElementHandler<'s> {
    fn new(style: MonoTextStyle<'s, BinaryColor>) -> Self {
        Self {
            elements: vec![],
            style,
        }
    }
}

impl<'s> ElementHandler for TestElementHandler<'s> {
    type Error = Infallible;

    fn measured(&self, st: &str) -> u32 {
        str_width(&self.style, st)
    }

    fn measure(&self, st: &str) -> u32 {
        self.measured(st)
    }

    fn whitespace(&mut self, _count: u32, width: u32) -> Result<(), Self::Error> {
        self.elements.push(RenderElement::Space(width));
        Ok(())
    }

    fn printed_characters(&mut self, st: &str, width: u32) -> Result<(), Self::Error> {
        self.elements
            .push(RenderElement::String(st.to_owned(), width));
        Ok(())
    }

    fn move_cursor(&mut self, by: i32) -> Result<(), Self::Error> {
        self.elements.push(RenderElement::MoveCursor(by));
        Ok(())
    }

    fn sgr(&mut self, sgr: Sgr) -> Result<(), Self::Error> {
        self.elements.push(RenderElement::Sgr(sgr));
        Ok(())
    }
}

fn line_width(max_chars: u32) -> u32 {
    FONT_6X9.character_size.width * max_chars
}

fn run_line<'a>(
    parser: &mut Parser<'a>,
    width: u32,
    alignment: HorizontalAlignment,
) -> (LineEndType, Vec<RenderElement>) {
    let style = MonoTextStyle::new(&FONT_6X9, BinaryColor::On);
    let space = str_width(&style, " ");
    let config = SpaceConfig::new(space, None);
    let cursor = LineCursor::new(width, 4 * space);

    let mut handler = TestElementHandler::new(style);
    let mut mw = MiddlewareWrapper::new(NoMiddleware::new());
    let mut line1 = LineElementParser::new(cursor, config, alignment);

    let end = line1.process(parser, &mut mw, &mut handler).unwrap();
    (end, handler.elements)
}

fn assert_line_elements<'a>(parser: &mut Parser<'a>, max_chars: u32, elements: &[RenderElement]) {
    let (_, got) = run_line(parser, line_width(max_chars), HorizontalAlignment::Left);
    assert_eq!(got, elements);
}

#[test]
fn insufficient_width_no_looping() {
    let mut parser = Parser::parse("foobar");

    let (_, elements) = run_line(&mut parser, line_width(1) - 1, HorizontalAlignment::Left);

    assert_eq!(elements, &[]);
}

#[test]
fn soft_hyphen_no_wrapping() {
    let mut parser = Parser::parse("sam\u{00AD}ple");

    // "sample" fits, but "sam-ple" does not: the break is taken
    assert_line_elements(
        &mut parser,
        6,
        &[
            RenderElement::string("sam", 18),
            RenderElement::string("-", 6),
        ],
    );
    assert_line_elements(&mut parser, 6, &[RenderElement::string("ple", 18)]);
}

#[test]
fn soft_hyphen() {
    let mut parser = Parser::parse("sam\u{00AD}ple");

    assert_line_elements(
        &mut parser,
        5,
        &[
            RenderElement::string("sam", 18),
            RenderElement::string("-", 6),
        ],
    );
    assert_line_elements(&mut parser, 5, &[RenderElement::string("ple", 18)]);
}

#[test]
fn soft_hyphen_wrapped() {
    let mut parser = Parser::parse("sam\u{00AD}mm");

    assert_line_elements(&mut parser, 3, &[RenderElement::string("sam", 18)]);
    assert_line_elements(
        &mut parser,
        3,
        &[
            RenderElement::string("-", 6),
            RenderElement::string("mm", 12),
        ],
    );
}

#[test]
fn nbsp_issue() {
    let mut parser = Parser::parse("a b c\u{a0}d e f");

    assert_line_elements(
        &mut parser,
        5,
        &[
            RenderElement::string("a", 6),
            RenderElement::Space(6),
            RenderElement::string("b", 6),
            RenderElement::MoveCursor(6),
        ],
    );
    assert_line_elements(
        &mut parser,
        5,
        &[
            RenderElement::string("c", 6),
            RenderElement::Space(6),
            RenderElement::string("d", 6),
            RenderElement::Space(6),
            RenderElement::string("e", 6),
        ],
    );
    assert_line_elements(&mut parser, 5, &[RenderElement::string("f", 6)]);
}

#[test]
fn soft_hyphen_issue_42() {
    let mut parser =
        Parser::parse("super\u{AD}cali\u{AD}fragi\u{AD}listic\u{AD}espeali\u{AD}docious");

    assert_line_elements(&mut parser, 5, &[RenderElement::string("super", 30)]);
    assert_line_elements(
        &mut parser,
        5,
        &[
            RenderElement::string("-", 6),
            RenderElement::string("cali", 24),
        ],
    );
}

#[test]
fn nbsp_is_rendered_as_space() {
    let mut parser = Parser::parse("glued\u{a0}words");

    assert_line_elements(
        &mut parser,
        50,
        &[
            RenderElement::string("glued", 30),
            RenderElement::Space(6),
            RenderElement::string("words", 30),
        ],
    );
}

#[test]
fn tabs() {
    let mut parser = Parser::parse("a\tword\nand\t\tanother\t");

    assert_line_elements(
        &mut parser,
        16,
        &[
            RenderElement::string("a", 6),
            RenderElement::Space(6 * 3),
            RenderElement::string("word", 24),
        ],
    );
    assert_line_elements(
        &mut parser,
        16,
        &[
            RenderElement::string("and", 18),
            RenderElement::Space(6),
            RenderElement::Space(6 * 4),
            RenderElement::string("another", 42),
            RenderElement::MoveCursor(6),
        ],
    );
}

#[test]
fn cursor_limit() {
    let mut parser = Parser::parse("Some sample text");

    assert_line_elements(&mut parser, 2, &[RenderElement::string("So", 12)]);
}

#[test]
fn colors() {
    let mut parser = Parser::parse("Lorem \x1b[92mIpsum");

    assert_line_elements(
        &mut parser,
        100,
        &[
            RenderElement::string("Lorem", 30),
            RenderElement::Space(6),
            RenderElement::Sgr(Sgr::ChangeTextColor(Rgb::new(22, 198, 12))),
            RenderElement::string("Ipsum", 30),
        ],
    );
}

#[test]
fn ansi_code_does_not_break_word() {
    let mut parser = Parser::parse("Lorem foo\x1b[92mbarum");

    assert_line_elements(
        &mut parser,
        8,
        &[
            RenderElement::string("Lorem", 30),
            RenderElement::MoveCursor(6),
        ],
    );

    assert_line_elements(
        &mut parser,
        8,
        &[
            RenderElement::string("foo", 18),
            RenderElement::Sgr(Sgr::ChangeTextColor(Rgb::new(22, 198, 12))),
            RenderElement::string("barum", 30),
        ],
    );
}

#[test]
fn forced_wrap_ends_with_line_break() {
    let mut parser = Parser::parse("Some sample text");

    let (end, elements) = run_line(&mut parser, line_width(2), HorizontalAlignment::Left);
    assert_eq!(end, LineEndType::LineBreak);
    assert_eq!(elements, &[RenderElement::string("So", 12)]);
    let (_, elements) = run_line(&mut parser, line_width(2), HorizontalAlignment::Left);
    assert_eq!(elements, &[RenderElement::string("me", 12)]);
}

#[test]
fn soft_hyphen_glyph_only_where_the_line_breaks() {
    // "sam-ple" fits into 7 characters: the break is not taken, and no hyphen is drawn
    let mut parser = Parser::parse("sam\u{AD}ple");
    let (end, elements) = run_line(&mut parser, line_width(7), HorizontalAlignment::Left);
    assert_eq!(end, LineEndType::EndOfText);
    assert_eq!(
        elements,
        &[RenderElement::string("sam", 18), RenderElement::string("ple", 18)]
    );

    let mut parser = Parser::parse("sam\u{AD}ple");
    let (end, elements) = run_line(&mut parser, line_width(5), HorizontalAlignment::Left);
    assert_eq!(end, LineEndType::LineBreak);
    assert_eq!(
        elements,
        &[RenderElement::string("sam", 18), RenderElement::string("-", 6)]
    );
    let (_, elements) = run_line(&mut parser, line_width(5), HorizontalAlignment::Left);
    assert_eq!(elements, &[RenderElement::string("ple", 18)]);
}

#[test]
fn nbsp_glued_word_moves_to_next_line_whole() {
    // "x a" fits, "x a b" does not: the glued word goes to the next line whole
    let mut parser = Parser::parse("x a\u{A0}b");
    let (end, elements) = run_line(&mut parser, line_width(4), HorizontalAlignment::Left);
    assert_eq!(end, LineEndType::LineBreak);
    assert_eq!(
        elements,
        &[RenderElement::string("x", 6), RenderElement::MoveCursor(6)]
    );
    let (_, elements) = run_line(&mut parser, line_width(4), HorizontalAlignment::Left);
    assert_eq!(
        elements,
        &[
            RenderElement::string("a", 6),
            RenderElement::Space(6),
            RenderElement::string("b", 6),
        ]
    );
}

#[test]
fn two_tabs_from_line_start_advance_a_full_pitch_each() {
    let mut parser = Parser::parse("\t\tx");
    let (_, elements) = run_line(&mut parser, line_width(20), HorizontalAlignment::Left);
    assert_eq!(
        elements,
        &[
            RenderElement::Space(24),
            RenderElement::Space(24),
            RenderElement::string("x", 6),
        ]
    );
}

#[test]
fn tab_stop_from_any_position() {
    let mut cursor = LineCursor::new(100, 24);
    assert_eq!(cursor.next_tab_width(), 24);
    assert_eq!(cursor.move_cursor(5), Ok(5));
    assert_eq!(cursor.next_tab_width(), 19);
    assert_eq!(cursor.move_cursor(19), Ok(19));
    assert_eq!(cursor.next_tab_width(), 24);
    assert_eq!(LineCursor::new(100, 0).next_tab_width(), 0);
}

#[test]
fn leading_whitespace_depends_on_alignment() {
    let mut parser = Parser::parse(" a");
    let (_, elements) = run_line(&mut parser, line_width(10), HorizontalAlignment::Left);
    assert_eq!(
        elements,
        &[RenderElement::Space(6), RenderElement::string("a", 6)]
    );

    for alignment in [
        HorizontalAlignment::Center,
        HorizontalAlignment::Right,
        HorizontalAlignment::Justified,
    ] {
        let mut parser = Parser::parse(" a");
        let (_, elements) = run_line(&mut parser, line_width(10), alignment);
        assert_eq!(
            elements,
            &[RenderElement::MoveCursor(6), RenderElement::string("a", 6)]
        );
    }
}

#[test]
fn line_end_types() {
    let mut parser = Parser::parse("a\nb\rc");
    assert_eq!(
        run_line(&mut parser, line_width(10), HorizontalAlignment::Left).0,
        LineEndType::NewLine
    );
    assert_eq!(
        run_line(&mut parser, line_width(10), HorizontalAlignment::Left).0,
        LineEndType::CarriageReturn
    );
    assert_eq!(
        run_line(&mut parser, line_width(10), HorizontalAlignment::Left).0,
        LineEndType::EndOfText
    );
    assert!(parser.is_empty());
}

#[test]
fn every_line_makes_progress_on_a_narrow_line() {
    let text = "  a verylongword\u{AD}x \t b\u{A0}c\n\x1b[2Cd";
    for width in 1..20u32 {
        let mut parser = Parser::parse(text);
        let mut lines = 0;
        loop {
            let before = parser.remaining();
            let (end, _) = run_line(&mut parser, width, HorizontalAlignment::Left);
            lines += 1;
            assert!(lines < 100);
            if end == LineEndType::EndOfText {
                break;
            }
            assert!(parser.remaining() < before);
        }
    }
}

#[test]
fn cursor_forward_escape_moves_by_space_glyphs() {
    let mut parser = Parser::parse("a\x1b[2Cb");
    let (_, elements) = run_line(&mut parser, line_width(10), HorizontalAlignment::Left);
    assert_eq!(
        elements,
        &[
            RenderElement::string("a", 6),
            RenderElement::Space(12),
            RenderElement::string("b", 6),
        ]
    );
}

#[test]
fn cursor_backward_escape_moves_back() {
    let mut parser = Parser::parse("ab\x1b[1Dc");
    let (_, elements) = run_line(&mut parser, line_width(10), HorizontalAlignment::Left);
    assert_eq!(
        elements,
        &[
            RenderElement::string("ab", 12),
            RenderElement::MoveCursor(-6),
            RenderElement::Space(6),
            RenderElement::MoveCursor(-6),
            RenderElement::string("c", 6),
        ]
    );
}

struct FailingHandler;

impl ElementHandler for FailingHandler {
    type Error = &'static str;

    fn measured(&self, st: &str) -> u32 {
        6 * st.chars().count() as u32
    }

    fn measure(&self, st: &str) -> u32 {
        self.measured(st)
    }

    fn whitespace(&mut self, _count: u32, _width: u32) -> Result<(), Self::Error> {
        Ok(())
    }

    fn printed_characters(&mut self, _st: &str, _width: u32) -> Result<(), Self::Error> {
        Err("display failed")
    }

    fn move_cursor(&mut self, _by: i32) -> Result<(), Self::Error> {
        Ok(())
    }

    fn sgr(&mut self, _sgr: Sgr) -> Result<(), Self::Error> {
        Ok(())
    }
}

#[test]
fn handler_error_stops_the_line() {
    let mut parser = Parser::parse("word more");
    let mut mw = MiddlewareWrapper::new(NoMiddleware::new());
    let mut line = LineElementParser::new(
        LineCursor::new(600, 24),
        SpaceConfig::new(6, None),
        HorizontalAlignment::Left,
    );
    assert_eq!(
        line.process(&mut parser, &mut mw, &mut FailingHandler),
        Err("display failed")
    );
}

struct WideHandler;

impl ElementHandler for WideHandler {
    type Error = Infallible;

    fn measured(&self, _st: &str) -> u32 {
        3_000_000_000
    }

    fn measure(&self, st: &str) -> u32 {
        self.measured(st)
    }

    fn whitespace(&mut self, _count: u32, _width: u32) -> Result<(), Self::Error> {
        Ok(())
    }

    fn printed_characters(&mut self, _st: &str, _width: u32) -> Result<(), Self::Error> {
        Ok(())
    }

    fn move_cursor(&mut self, _by: i32) -> Result<(), Self::Error> {
        Ok(())
    }

    fn sgr(&mut self, _sgr: Sgr) -> Result<(), Self::Error> {
        Ok(())
    }
}

#[test]
fn very_wide_word_fits_a_very_wide_line() {
    // the width does not fit an i32: the move is clamped to i32::MAX, which fits
    let mut parser = Parser::parse("w");
    let mut mw = MiddlewareWrapper::new(NoMiddleware::new());
    let mut line = LineElementParser::new(
        LineCursor::new(u32::MAX, 24),
        SpaceConfig::new(6, None),
        HorizontalAlignment::Left,
    );
    assert_eq!(
        line.process(&mut parser, &mut mw, &mut WideHandler),
        Ok(LineEndType::EndOfText)
    );
}

#[test]
fn justified_spaces_take_extra_pixels_first() {
    let mut spaces = SpaceConfig::new(6, Some(3));
    assert_eq!(spaces.consume(2), 14);
    assert_eq!(spaces.consume(2), 13);
    assert_eq!(spaces.consume(2), 12);
    assert_eq!(SpaceConfig::new(u32::MAX, None).consume(2), u32::MAX);
}

fn plan<'a>(
    parser: &mut Parser<'a>,
    width: u32,
    alignment: HorizontalAlignment,
) -> (Vec<Event<'a>>, LineEndType) {
    let style = MonoTextStyle::new(&FONT_6X9, BinaryColor::On);
    let space = str_width(&style, " ");
    let handler = TestElementHandler::new(style);
    let mut line = LineElementParser::new(
        LineCursor::new(width, 4 * space),
        SpaceConfig::new(space, None),
        alignment,
    );
    line.plan_line(parser, &handler)
}

#[test]
fn plan_line_forced_wrap() {
    let mut parser = Parser::parse("Some sample text");
    let (events, end) = plan(&mut parser, line_width(2), HorizontalAlignment::Left);
    assert_eq!(events, vec![Event::Printed("So", 12)]);
    assert_eq!(end, LineEndType::LineBreak);
    assert_eq!(parser.tokens().first(), Some(&embedded_text::parser::Token::Word("me")));
}

#[test]
fn plan_line_drops_a_word_when_nothing_fits() {
    let mut parser = Parser::parse("foobar");
    let (events, end) = plan(&mut parser, line_width(1) - 1, HorizontalAlignment::Left);
    assert_eq!(events, vec![]);
    assert_eq!(end, LineEndType::LineBreak);
    assert!(parser.is_empty());
}

#[test]
fn plan_line_soft_hyphen() {
    let mut parser = Parser::parse("sam\u{AD}ple");
    let (events, end) = plan(&mut parser, line_width(6), HorizontalAlignment::Left);
    assert_eq!(events, vec![Event::Printed("sam", 18), Event::Printed("-", 6)]);
    assert_eq!(end, LineEndType::LineBreak);
    let (events, end) = plan(&mut parser, line_width(6), HorizontalAlignment::Left);
    assert_eq!(events, vec![Event::Printed("ple", 18)]);
    assert_eq!(end, LineEndType::EndOfText);
}

#[test]
fn plan_line_tabs_and_leading_whitespace() {
    let mut parser = Parser::parse("\t\tword");
    let (events, end) = plan(&mut parser, 96, HorizontalAlignment::Left);
    assert_eq!(
        events,
        vec![Event::Whitespace(1, 24), Event::Whitespace(1, 24), Event::Printed("word", 24)]
    );
    assert_eq!(end, LineEndType::EndOfText);

    let mut parser = Parser::parse("  a");
    let (events, _) = plan(&mut parser, 96, HorizontalAlignment::Right);
    assert_eq!(events, vec![Event::MoveCursor(12), Event::Printed("a", 6)]);
}

#[test]
fn plan_line_nbsp_is_no_wrap_point() {
    let mut parser = Parser::parse("x a\u{A0}b");
    let (events, end) = plan(&mut parser, line_width(4), HorizontalAlignment::Left);
    assert_eq!(events, vec![Event::Printed("x", 6), Event::MoveCursor(6)]);
    assert_eq!(end, LineEndType::LineBreak);
    let (events, _) = plan(&mut parser, line_width(4), HorizontalAlignment::Left);
    assert_eq!(
        events,
        vec![Event::Printed("a", 6), Event::Whitespace(1, 6), Event::Printed("b", 6)]
    );
}
