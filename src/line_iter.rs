//! Line iterator.
//!
//! Turns a token stream into a number of events. A single `LineElementParser` object
//! operates on a single line and is responsible for word wrapping, eating leading and
//! trailing whitespace, tab characters, soft hyphens, non-breaking spaces and escape
//! sequences.
use crate::ansi::{sgr_of, try_parse_sgr, Sgr};
use crate::cursor::{move_fits, spaces_width, tab_advance, LineCursor, SpaceConfig};
use crate::escape::{escape_prefix, EscapeCode};
use crate::middleware::{consumed_len, MiddlewareWrapper};
use crate::parser::{
    escape_starts, is_first_token, space_char, token_len, Parser, Token, SPEC_CHAR_ESCAPE, SPEC_CHAR_NBSP,
    SPEC_CHAR_SHY,
};
use crate::plugin::{skip_chars, skip_str, Middleware};
use az::SaturatingAs;
use vstd::prelude::*;

verus! {

/// Horizontal text alignment.
#[derive(Debug, Clone, Copy, PartialEq, Eq, Structural)]
pub enum HorizontalAlignment {
    /// Left aligned.
    Left,
    /// Centered.
    Center,
    /// Right aligned.
    Right,
    /// Justified.
    Justified,
}

/// Why a line ended.
#[derive(Debug, Clone, Copy, PartialEq, Eq, Structural)]
pub enum LineEndType {
    /// A newline character.
    NewLine,
    /// A carriage return character.
    CarriageReturn,
    /// The text has no more tokens.
    EndOfText,
    /// The line is full: the text goes on in the next line.
    LineBreak,
}

/// The consumer of layout events: it measures text and receives what to draw.
pub trait ElementHandler {
    /// The error that an event may fail with; it ends the layout of the line.
    type Error;

    /// The width of the given string in pixels.
    spec fn measured(&self, st: &str) -> u32;

    /// Returns the width of the given string in pixels; it depends on the characters of
    /// the string alone.
    fn measure(&self, st: &str) -> (r: u32)
        ensures
            r == self.measured(choose|x: &str| x@ == st@),
    ;

    /// The events that the handler has received so far, for verified handlers that keep
    /// such a log; others need not give it.
    closed spec fn received(&self) -> Seq<EventView> {
        Seq::empty()
    }

    /// A whitespace block with the given width.
    fn whitespace(&mut self, space_count: u32, width: u32) -> (r: Result<(), Self::Error>)
        ensures
            r is Ok ==> final(self).received() == old(self).received().push(
                EventView::Whitespace(space_count, width),
            ),
    ;

    /// A string of printable characters.
    fn printed_characters(&mut self, st: &str, width: u32) -> (r: Result<(), Self::Error>)
        ensures
            r is Ok ==> final(self).received() == old(self).received().push(
                EventView::Printed(st@, width),
            ),
    ;

    /// A cursor movement event.
    fn move_cursor(&mut self, by: i32) -> (r: Result<(), Self::Error>)
        ensures
            r is Ok ==> final(self).received() == old(self).received().push(
                EventView::MoveCursor(by),
            ),
    ;

    /// A Select Graphic Rendition code.
    fn sgr(&mut self, sgr: Sgr) -> (r: Result<(), Self::Error>)
        ensures
            r is Ok ==> final(self).received() == old(self).received().push(EventView::Style(sgr)),
    ;
}

/// `x` as an `i32`, capped at `i32::MAX`.
pub open spec fn clamp_i32(x: u32) -> i32 {
    if x > i32::MAX {
        i32::MAX
    } else {
        x as i32
    }
}

/// Relies on az's `SaturatingAs` from `u32` to `i32`: the value where it fits, else
/// `i32::MAX`.
#[verifier::external_body]
fn saturating_i32(x: u32) -> (r: i32)
    ensures
        r == clamp_i32(x),
{
    x.saturating_as::<i32>()
}

/// Relies on az's `SaturatingAs` from `i32` to `u32`: the value where it is not
/// negative, else 0.
#[verifier::external_body]
fn saturating_u32(x: i32) -> (r: u32)
    ensures
        r == if x < 0 {
            0
        } else {
            x as u32
        },
{
    x.saturating_as::<u32>()
}

/// `a * b`, capped at `u32::MAX`.
pub open spec fn mul_capped(a: u32, b: u32) -> u32 {
    if a * b > u32::MAX {
        u32::MAX
    } else {
        (a * b) as u32
    }
}

fn saturating_mul(a: u32, b: u32) -> (r: u32)
    ensures
        r == mul_capped(a, b),
{
    match a.checked_mul(b) {
        Some(v) => v,
        None => u32::MAX,
    }
}

/// The width that `h` measures for a text of the characters `s`.
pub open spec fn text_width<E: ElementHandler>(h: &E, s: Seq<char>) -> u32 {
    h.measured(choose|x: &str| x@ == s)
}

/// `acc + w`, capped at `u32::MAX`; `w` alone where there is no `acc`.
pub open spec fn add_width(acc: Option<u32>, w: u32) -> u32 {
    match acc {
        Some(a) => if a + w > u32::MAX {
            u32::MAX
        } else {
            (a + w) as u32
        },
        None => w,
    }
}

/// Whether the first token of a non-empty text is a word.
pub open spec fn first_is_word(s: Seq<char>) -> bool {
    let c = s[0];
    c != '\n' && c != '\r' && c != '\t' && c != SPEC_CHAR_SHY && !(c == SPEC_CHAR_ESCAPE
        && escape_starts(s)) && !space_char(c)
}

/// The number of non-breaking spaces in `s`.
pub open spec fn nbsp_count(s: Seq<char>) -> nat
    decreases s.len(),
{
    if s.len() == 0 {
        0
    } else {
        (if s[0] == SPEC_CHAR_NBSP {
            1nat
        } else {
            0nat
        }) + nbsp_count(s.drop_first())
    }
}

proof fn lemma_nbsp_count_split(a: Seq<char>, b: Seq<char>)
    ensures
        nbsp_count(a + b) == nbsp_count(a) + nbsp_count(b),
    decreases a.len(),
{
    if a.len() == 0 {
        assert(a + b =~= b);
    } else {
        assert((a + b).drop_first() =~= a.drop_first() + b);
        lemma_nbsp_count_split(a.drop_first(), b);
    }
}

proof fn lemma_nbsp_count_none(a: Seq<char>)
    requires
        forall|j: int| 0 <= j < a.len() ==> a[j] != SPEC_CHAR_NBSP,
    ensures
        nbsp_count(a) == 0,
    decreases a.len(),
{
    if a.len() > 0 {
        lemma_nbsp_count_none(a.drop_first());
    }
}

/// The width of the word that follows in `s`, added to `acc`: its parts are joined
/// across escape sequences, up to the next soft hyphen. Nothing (just `acc`) where
/// neither a word nor a soft hyphen follows.
pub open spec fn word_width_ahead<E: ElementHandler>(
    h: &E,
    s: Seq<char>,
    acc: Option<u32>,
) -> Option<u32>
    decreases s.len(),
{
    if s.len() == 0 || token_len(s) < 1 || token_len(s) > s.len() {
        acc
    } else if s[0] == SPEC_CHAR_SHY {
        Some(
            match acc {
                Some(a) => a,
                None => 0,
            },
        )
    } else if first_is_word(s) {
        word_width_ahead(
            h,
            s.skip(token_len(s) as int),
            Some(add_width(acc, text_width(h, s.take(token_len(s) as int)))),
        )
    } else if s[0] == SPEC_CHAR_ESCAPE && escape_starts(s) {
        word_width_ahead(h, s.skip(token_len(s) as int), acc)
    } else {
        acc
    }
}

/// The width of the word that follows in `s` together with a hyphen glyph of `hyphen`
/// pixels, where a word or a soft hyphen follows.
pub open spec fn width_with_hyphen<E: ElementHandler>(h: &E, s: Seq<char>, hyphen: u32) -> Option<
    u32,
> {
    match word_width_ahead(h, s, None) {
        Some(w) => Some(add_width(Some(w), hyphen)),
        None => None,
    }
}

/// The move that a cursor escape sequence over `n` characters makes, one space glyph
/// of `space` pixels per character.
pub open spec fn escape_move(n: u32, space: u32, forward: bool) -> int {
    if forward {
        clamp_i32(mul_capped(n, space)) as int
    } else {
        -(clamp_i32(mul_capped(n, space)) as int)
    }
}

/// Whether the next word of `s` still fits into a line of `width` pixels when the cursor
/// is at `pos`: the whitespace, tabs and cursor moves before it must fit too, and a line
/// end or the end of the text before it means that it does not.
pub open spec fn fits_ahead<E: ElementHandler>(
    h: &E,
    s: Seq<char>,
    pos: int,
    width: int,
    tab: nat,
    unit: nat,
    extra: nat,
) -> bool
    decreases s.len(),
{
    if s.len() == 0 || token_len(s) < 1 || token_len(s) > s.len() {
        false
    } else {
        let n = token_len(s);
        let rest = s.skip(n as int);
        let c = s[0];
        if c == '\n' || c == '\r' {
            false
        } else if c == '\t' {
            let d = clamp_i32(tab_advance(pos as nat, tab) as u32) as int;
            move_fits(pos, d, width) && fits_ahead(h, rest, pos + d, width, tab, unit, extra)
        } else if c == SPEC_CHAR_SHY {
            move_fits(pos, clamp_i32(text_width(h, seq!['-'])) as int, width)
        } else if c == SPEC_CHAR_ESCAPE && escape_starts(s) {
            match escape_prefix(s) {
                Some((_, EscapeCode::CursorForward(k))) => {
                    let d = escape_move(k, text_width(h, seq![' ']), true);
                    move_fits(pos, d, width) && fits_ahead(h, rest, pos + d, width, tab, unit, extra)
                },
                Some((_, EscapeCode::CursorBackward(k))) => {
                    let d = escape_move(k, text_width(h, seq![' ']), false);
                    move_fits(pos, d, width) && fits_ahead(h, rest, pos + d, width, tab, unit, extra)
                },
                _ => fits_ahead(h, rest, pos, width, tab, unit, extra),
            }
        } else if space_char(c) {
            let d = clamp_i32(spaces_width(n, unit, extra) as u32) as int;
            move_fits(pos, d, width) && fits_ahead(
                h,
                rest,
                pos + d,
                width,
                tab,
                unit,
                if n < extra {
                    (extra - n) as nat
                } else {
                    0
                },
            )
        } else {
            move_fits(pos, clamp_i32(text_width(h, s.take(n as int))) as int, width)
        }
    }
}

/// The total width of the first `i` characters of `w`, each measured alone.
pub open spec fn chars_width<E: ElementHandler>(h: &E, w: Seq<char>, i: nat) -> nat
    decreases i,
{
    if i == 0 || i > w.len() {
        0
    } else {
        (chars_width(h, w, (i - 1) as nat) + text_width(h, seq![w[i - 1]])) as nat
    }
}

/// The number of leading characters of `w`, counted on from `i`, whose widths add up to
/// at most `space`.
pub open spec fn fitting_prefix_len<E: ElementHandler>(
    h: &E,
    w: Seq<char>,
    space: nat,
    i: nat,
) -> nat
    decreases w.len() - i,
{
    if i < w.len() && chars_width(h, w, i + 1) <= space {
        fitting_prefix_len(h, w, space, i + 1)
    } else {
        i
    }
}

/// A layout event, as handed to an [`ElementHandler`].
#[derive(Debug, Clone, Copy, PartialEq, Eq)]
pub enum Event<'a> {
    /// A whitespace block: the number of space units and the width.
    Whitespace(u32, u32),
    /// A run of printed characters and its width.
    Printed(&'a str, u32),
    /// A cursor move.
    MoveCursor(i32),
    /// A text style change.
    Style(Sgr),
}

/// An [`Event`] with its text as characters.
pub enum EventView {
    /// A whitespace block: the number of space units and the width.
    Whitespace(u32, u32),
    /// A run of printed characters and its width.
    Printed(Seq<char>, u32),
    /// A cursor move.
    MoveCursor(i32),
    /// A text style change.
    Style(Sgr),
}

impl<'a> Event<'a> {
    /// The event with its text as characters.
    pub open spec fn view(&self) -> EventView {
        match *self {
            Event::Whitespace(n, w) => EventView::Whitespace(n, w),
            Event::Printed(s, w) => EventView::Printed(s@, w),
            Event::MoveCursor(by) => EventView::MoveCursor(by),
            Event::Style(sgr) => EventView::Style(sgr),
        }
    }
}

/// The events of a sequence, with their texts as characters.
pub open spec fn views<'a>(s: Seq<Event<'a>>) -> Seq<EventView> {
    s.map_values(|e: Event<'a>| e.view())
}

proof fn lemma_views_one<'a>(e: Event<'a>)
    ensures
        views(seq![e]) == seq![e.view()],
        views(Seq::<Event<'a>>::empty()) == Seq::<EventView>::empty(),
{
    assert(views(seq![e]) =~= seq![e.view()]);
    assert(views(Seq::<Event<'a>>::empty()) =~= Seq::<EventView>::empty());
}

proof fn lemma_views_add<'a>(a: Seq<Event<'a>>, b: Seq<Event<'a>>)
    ensures
        views(a + b) == views(a) + views(b),
{
    assert(views(a + b) =~= views(a) + views(b));
}

/// What the layout does with a token once its events are out.
#[derive(Debug, Clone, Copy, PartialEq, Eq)]
pub enum LineStep<'a> {
    /// Consume the token and go on with the line.
    Next,
    /// Consume the token and end the line.
    End(LineEndType),
    /// Leave the token for the next line, which starts after a line break.
    Stop,
    /// Consume this many characters of the token, leave the rest for the next line, and
    /// end the line.
    Prefix(usize),
    /// Consume the token, keep this rest of it read ahead, and end the line.
    Rest(Token<'a>),
}

/// `a - b`, or 0 where `b` is larger.
pub open spec fn sub_nat(a: nat, b: nat) -> nat {
    if b < a {
        (a - b) as nat
    } else {
        0
    }
}

/// The index of the first non-breaking space in `w` at or after `i`, or the length of `w`.
pub open spec fn nbsp_index(w: Seq<char>, i: nat) -> nat
    decreases w.len() - i,
{
    if i < w.len() && w[i as int] != SPEC_CHAR_NBSP {
        nbsp_index(w, i + 1)
    } else {
        i
    }
}

/// The events of a word: its parts between non-breaking spaces printed with their widths,
/// each non-breaking space a whitespace block of one unit from the space budget.
pub open spec fn word_events<E: ElementHandler>(
    h: &E,
    w: Seq<char>,
    unit: nat,
    extra: nat,
) -> Seq<EventView>
    decreases w.len(),
{
    let i = nbsp_index(w, 0);
    if i >= w.len() {
        seq![EventView::Printed(w, text_width(h, w))]
    } else {
        let head = if i == 0 {
            Seq::<EventView>::empty()
        } else {
            seq![EventView::Printed(w.take(i as int), text_width(h, w.take(i as int)))]
        };
        let gap = seq![EventView::Whitespace(1, spaces_width(1, unit, extra) as u32)];
        let tail = w.skip((i + 1) as int);
        if tail.len() == 0 {
            head + gap
        } else {
            head + gap + word_events(h, tail, unit, sub_nat(extra, 1))
        }
    }
}

/// Whether the next word fits after a move by `d` from `pos`.
pub open spec fn fits_after<E: ElementHandler>(
    h: &E,
    look: Seq<char>,
    pos: int,
    d: int,
    width: int,
    tab: nat,
    unit: nat,
    extra: nat,
) -> bool {
    move_fits(pos, d, width) && fits_ahead(h, look, pos + d, width, tab, unit, extra)
}

/// The events of a whitespace run of `n` units and `sw` pixels before `look`, whether and
/// after how many whole units the line ends, and the new cursor position. On an empty
/// line that is not left aligned the run is a cursor move; a run that fits is a visible
/// block where the line is empty or the next word fits, else a cursor move; of a run that
/// does not fit, the whole units that fit are drawn and the line ends.
pub open spec fn whitespace_events<E: ElementHandler>(
    h: &E,
    look: Seq<char>,
    pos: int,
    width: int,
    tab: nat,
    unit: nat,
    extra: nat,
    empty: bool,
    left: bool,
    n: u32,
    sw: u32,
) -> (Seq<EventView>, Option<u32>, int) {
    let d = clamp_i32(sw) as int;
    if empty && !left {
        if move_fits(pos, d, width) {
            (seq![EventView::MoveCursor(d as i32)], None, pos + d)
        } else {
            (seq![EventView::MoveCursor((width - pos) as i32)], None, pos)
        }
    } else if move_fits(pos, d, width) {
        if empty || fits_after(h, look, pos, d, width, tab, unit, extra) {
            (seq![EventView::Whitespace(n, d as u32)], None, pos + d)
        } else {
            (seq![EventView::MoveCursor(d as i32)], None, pos + d)
        }
    } else {
        let single: int = if n == 0 {
            0
        } else {
            (sw / n) as int
        };
        let units: int = if single == 0 {
            0
        } else if (width - pos) / single < n {
            (width - pos) / single
        } else {
            n as int
        };
        (
            if units > 0 {
                seq![EventView::Whitespace(units as u32, (units * single) as u32)]
            } else {
                Seq::<EventView>::empty()
            },
            Some(units as u32),
            pos,
        )
    }
}

/// The events of a tab of `sw` pixels before `look`, and the new cursor position: a
/// visible block where it fits and the line is empty and left aligned or the next word
/// fits, else a cursor move (to the end of the line where it does not fit).
pub open spec fn tab_events<E: ElementHandler>(
    h: &E,
    look: Seq<char>,
    pos: int,
    width: int,
    tab: nat,
    unit: nat,
    extra: nat,
    empty: bool,
    left: bool,
    sw: u32,
) -> (Seq<EventView>, int) {
    let d = clamp_i32(sw) as int;
    let draw = if empty && !left {
        false
    } else {
        empty || fits_after(h, look, pos, d, width, tab, unit, extra)
    };
    if move_fits(pos, d, width) {
        (
            if draw {
                seq![EventView::Whitespace(1, d as u32)]
            } else {
                seq![EventView::MoveCursor(d as i32)]
            },
            pos + d,
        )
    } else {
        (seq![EventView::MoveCursor((width - pos) as i32)], pos)
    }
}

/// The events of a soft hyphen with the glyph `glyph` before `look`, what becomes of it,
/// and the new cursor position. The break is taken where the next word with the glyph
/// does not fit, or the line is empty: the glyph is drawn where it fits, and a line that
/// holds a word ends. Where the break is not taken, or no word follows, the hyphen is
/// dropped without a trace.
pub open spec fn break_step<'a, E: ElementHandler>(
    h: &E,
    look: Seq<char>,
    glyph: Seq<char>,
    pos: int,
    width: int,
    empty: bool,
) -> (Seq<EventView>, LineStep<'a>, int) {
    let hw = text_width(h, glyph);
    match width_with_hyphen(h, look, hw) {
        None => (Seq::<EventView>::empty(), LineStep::Next, pos),
        Some(total) => {
            if pos + total <= width && !empty {
                (Seq::<EventView>::empty(), LineStep::Next, pos)
            } else {
                let d = clamp_i32(hw) as int;
                if move_fits(pos, d, width) {
                    (
                        seq![EventView::Printed(glyph, hw)],
                        if empty {
                            LineStep::Next
                        } else {
                            LineStep::End(LineEndType::LineBreak)
                        },
                        pos + d,
                    )
                } else {
                    (
                        Seq::<EventView>::empty(),
                        if empty {
                            LineStep::Next
                        } else {
                            LineStep::Stop
                        },
                        pos,
                    )
                }
            }
        },
    }
}

/// The events of a word, what becomes of it, the new cursor position, the new count of
/// wider space units, and whether the line is still empty. A word that fits is placed;
/// one that does not ends a line that holds a word; on an empty line its longest leading
/// part that fits is placed and the rest left for the next line, and where not one
/// character fits, the word is dropped.
pub open spec fn word_step<'a, E: ElementHandler>(
    h: &E,
    w: Seq<char>,
    pos: int,
    width: int,
    unit: nat,
    extra: nat,
    empty: bool,
) -> (Seq<EventView>, LineStep<'a>, int, nat, bool) {
    let d = clamp_i32(text_width(h, w)) as int;
    if move_fits(pos, d, width) {
        (word_events(h, w, unit, extra), LineStep::Next, pos + d, sub_nat(extra, nbsp_count(w)), false)
    } else if !empty {
        (Seq::<EventView>::empty(), LineStep::Stop, pos, extra, empty)
    } else {
        let k = fitting_prefix_len(h, w, (width - pos) as nat, 0);
        if k == 0 {
            (Seq::<EventView>::empty(), LineStep::End(LineEndType::LineBreak), pos, extra, empty)
        } else {
            let part = w.take(k as int);
            (
                word_events(h, part, unit, extra),
                if k < w.len() {
                    LineStep::Prefix(k as usize)
                } else {
                    LineStep::Next
                },
                pos,
                sub_nat(extra, nbsp_count(part)),
                false,
            )
        }
    }
}

/// The events of an escape sequence and the new cursor position: a style change where
/// its parameters name one, a move of one space glyph per character for the cursor
/// sequences (clipped to the line, and reported as a whitespace block of no units),
/// nothing for the others.
pub open spec fn escape_effect<E: ElementHandler>(
    h: &E,
    code: EscapeCode,
    pos: int,
    width: int,
) -> (Seq<EventView>, int) {
    match code {
        EscapeCode::SetGraphicsMode(count, params) => {
            let v = params@.take(
                if count < 5 {
                    count as int
                } else {
                    5
                },
            );
            match sgr_of(v) {
                Some(sgr) => (seq![EventView::Style(sgr)], pos),
                None => (Seq::<EventView>::empty(), pos),
            }
        },
        EscapeCode::CursorForward(n) => {
            let d = escape_move(n, text_width(h, seq![' ']), true);
            if move_fits(pos, d, width) {
                (seq![EventView::Whitespace(0, d as u32)], pos + d)
            } else {
                (seq![EventView::Whitespace(0, (width - pos) as u32)], pos)
            }
        },
        EscapeCode::CursorBackward(n) => {
            let d = escape_move(n, text_width(h, seq![' ']), false);
            if move_fits(pos, d, width) {
                (
                    seq![
                        EventView::MoveCursor(d as i32),
                        EventView::Whitespace(0, (-d) as u32),
                        EventView::MoveCursor(d as i32),
                    ],
                    pos + d,
                )
            } else {
                (
                    seq![
                        EventView::MoveCursor((-pos) as i32),
                        EventView::Whitespace(0, pos as u32),
                        EventView::MoveCursor((-pos) as i32),
                    ],
                    pos,
                )
            }
        },
        EscapeCode::Other => (Seq::<EventView>::empty(), pos),
    }
}

/// What becomes of a token, without the token itself.
pub enum StepKind {
    /// The token is consumed and the line goes on.
    Next,
    /// The token is consumed and the line ends.
    End(LineEndType),
    /// The token is left for the next line, and the line breaks.
    Stop,
    /// This many characters of the token are consumed, and the line breaks.
    Prefix(nat),
    /// The token is consumed, and the line breaks in it.
    Rest,
}

/// What becomes of a token, as a [`StepKind`].
pub open spec fn step_kind<'a>(step: LineStep<'a>) -> StepKind {
    match step {
        LineStep::Next => StepKind::Next,
        LineStep::End(e) => StepKind::End(e),
        LineStep::Stop => StepKind::Stop,
        LineStep::Prefix(k) => StepKind::Prefix(k as nat),
        LineStep::Rest(_) => StepKind::Rest,
    }
}

/// The effect of the first token of the non-empty text `s` on a line: its events, what
/// becomes of it, the new cursor position, the new count of wider space units, and
/// whether the line is still empty.
#[verifier::opaque]
pub open spec fn token_effect<E: ElementHandler>(
    h: &E,
    s: Seq<char>,
    pos: int,
    width: int,
    tab: nat,
    unit: nat,
    extra: nat,
    empty: bool,
    left: bool,
) -> (Seq<EventView>, StepKind, int, nat, bool) {
    let n = token_len(s);
    let rest = s.skip(n as int);
    let c = s[0];
    if c == '\n' {
        (Seq::<EventView>::empty(), StepKind::End(LineEndType::NewLine), pos, extra, empty)
    } else if c == '\r' {
        (Seq::<EventView>::empty(), StepKind::End(LineEndType::CarriageReturn), pos, extra, empty)
    } else if c == '\t' {
        let e = tab_events(
            h,
            rest,
            pos,
            width,
            tab,
            unit,
            extra,
            empty,
            left,
            tab_advance(pos as nat, tab) as u32,
        );
        (e.0, StepKind::Next, e.1, extra, empty)
    } else if c == SPEC_CHAR_SHY {
        let e = break_step(h, rest, seq!['-'], pos, width, empty);
        (e.0, step_kind(e.1), e.2, extra, empty)
    } else if c == SPEC_CHAR_ESCAPE && escape_starts(s) {
        match escape_prefix(s) {
            Some((_, code)) => {
                let e = escape_effect(h, code, pos, width);
                (e.0, StepKind::Next, e.1, extra, empty)
            },
            None => (Seq::<EventView>::empty(), StepKind::Next, pos, extra, empty),
        }
    } else if space_char(c) {
        let rest_extra = sub_nat(extra, n);
        let e = whitespace_events(
            h,
            rest,
            pos,
            width,
            tab,
            unit,
            rest_extra,
            empty,
            left,
            n as u32,
            spaces_width(n, unit, extra) as u32,
        );
        (
            e.0,
            match e.1 {
                None => StepKind::Next,
                Some(u) => if !empty && u < n {
                    StepKind::Rest
                } else {
                    StepKind::End(LineEndType::LineBreak)
                },
            },
            e.2,
            rest_extra,
            empty,
        )
    } else {
        let e = word_step(h, s.take(n as int), pos, width, unit, extra, empty);
        (e.0, step_kind(e.1), e.2, e.3, e.4)
    }
}

/// The layout of one line of the text `s` on a cursor at `pos` in a line of `width`
/// pixels: the events, why the line ends, and how many characters of `s` it consumes.
pub open spec fn line_layout<E: ElementHandler>(
    h: &E,
    s: Seq<char>,
    pos: int,
    width: int,
    tab: nat,
    unit: nat,
    extra: nat,
    empty: bool,
    left: bool,
) -> (Seq<EventView>, LineEndType, nat)
    decreases s.len(),
{
    if s.len() == 0 || token_len(s) < 1 || token_len(s) > s.len() {
        (Seq::<EventView>::empty(), LineEndType::EndOfText, 0)
    } else {
        let n = token_len(s);
        let e = token_effect(h, s, pos, width, tab, unit, extra, empty, left);
        match e.1 {
            StepKind::Next => {
                let l = line_layout(h, s.skip(n as int), e.2, width, tab, unit, e.3, e.4, left);
                (e.0 + l.0, l.1, n + l.2)
            },
            StepKind::End(end) => (e.0, end, n),
            StepKind::Stop => (e.0, LineEndType::LineBreak, 0),
            StepKind::Prefix(k) => (e.0, LineEndType::LineBreak, k),
            StepKind::Rest => (e.0, LineEndType::LineBreak, n),
        }
    }
}

proof fn lemma_planned_effect<'a, E: ElementHandler>(
    h: &E,
    o: LineElementParser,
    t: Token<'a>,
    s: Seq<char>,
    evs: Seq<EventView>,
    step: LineStep<'a>,
    f: LineElementParser,
)
    requires
        s.len() > 0,
        1 <= token_len(s) <= s.len(),
        is_first_token(t, s),
        token_planned(h, o, t, s.skip(token_len(s) as int), evs, step, f),
    ensures
        token_effect(
            h,
            s,
            o.cursor().position() as int,
            o.cursor().width() as int,
            o.cursor().tab_width(),
            o.spaces().unit(),
            o.spaces().extra(),
            o.line_is_empty(),
            o.alignment() == HorizontalAlignment::Left,
        ) == (evs, step_kind(step), f.cursor().position() as int, f.spaces().extra(), f.line_is_empty()),
{
    reveal(token_planned);
    reveal(token_effect);
}

/// Hands the events to the handler in order; the first error ends it and is returned.
fn emit<'a, E: ElementHandler>(handler: &mut E, events: &Vec<Event<'a>>) -> (r: Result<
    (),
    E::Error,
>)
    ensures
        events@.len() == 0 ==> r is Ok,
        r is Ok ==> final(handler).received() == old(handler).received() + views(events@),
{
    let mut i: usize = 0;
    while i < events.len()
        invariant
            i <= events@.len(),
            handler.received() == old(handler).received() + views(events@.take(i as int)),
        decreases events@.len() - i,
    {
        proof {
            assert(events@.take(i + 1) =~= events@.take(i as int).push(events@[i as int]));
            assert(views(events@.take(i + 1)) =~= views(events@.take(i as int)).push(
                events@[i as int].view(),
            ));
        }
        match events[i] {
            Event::Whitespace(count, width) => handler.whitespace(count, width)?,
            Event::Printed(st, width) => handler.printed_characters(st, width)?,
            Event::MoveCursor(by) => handler.move_cursor(by)?,
            Event::Style(sgr) => handler.sgr(sgr)?,
        }
        i = i + 1;
    }
    assert(events@.take(events@.len() as int) =~= events@);
    Ok(())
}

/// Whether `evs`, `step` and the layout state `f` are what laying out `token`, which
/// `look` follows, gives from the state `o`.
#[verifier::opaque]
pub open spec fn token_planned<'a, E: ElementHandler>(
    h: &E,
    o: LineElementParser,
    token: Token<'a>,
    look: Seq<char>,
    evs: Seq<EventView>,
    step: LineStep<'a>,
    f: LineElementParser,
) -> bool {
    let p = o.cursor().position() as int;
    let width = o.cursor().width() as int;
    let tab = o.cursor().tab_width();
    let unit = o.spaces().unit();
    let extra = o.spaces().extra();
    let empty = o.line_is_empty();
    let left = o.alignment() == HorizontalAlignment::Left;
    let pos = f.cursor().position() as int;
    match token {
        Token::NewLine => evs.len() == 0 && step == LineStep::End(LineEndType::NewLine)
            && f == o,
        Token::CarriageReturn => evs.len() == 0 && step == LineStep::End(
            LineEndType::CarriageReturn,
        ) && f == o,
        Token::Whitespace(n, seq) => {
            let rest_extra = sub_nat(extra, n as nat);
            let e = whitespace_events(
                h,
                look,
                p,
                width,
                tab,
                unit,
                rest_extra,
                empty,
                left,
                n,
                spaces_width(n as nat, unit, extra) as u32,
            );
            &&& evs == e.0
            &&& pos == e.2
            &&& f.spaces().extra() == rest_extra
            &&& f.line_is_empty() == empty
            &&& match e.1 {
                None => step == LineStep::Next,
                Some(u) => if !empty && u < n {
                    step matches LineStep::Rest(Token::Whitespace(c, s)) && c == n - u
                        && s@ == skip_chars(seq@, u as nat)
                } else {
                    step == LineStep::End(LineEndType::LineBreak)
                },
            }
        },
        Token::Tab => {
            let e = tab_events(
                h,
                look,
                p,
                width,
                tab,
                unit,
                extra,
                empty,
                left,
                tab_advance(p as nat, tab) as u32,
            );
            &&& evs == e.0
            &&& pos == e.1
            &&& f.spaces().extra() == extra
            &&& f.line_is_empty() == empty
            &&& step == LineStep::Next
        },
        Token::Break(glyph, _) => {
            let e = break_step(h, look, glyph@, p, width, empty);
            &&& evs == e.0
            &&& step == e.1
            &&& pos == e.2
            &&& f.spaces().extra() == extra
            &&& f.line_is_empty() == empty
        },
        Token::Word(w) => {
            let e = word_step(h, w@, p, width, unit, extra, empty);
            &&& evs == e.0
            &&& step == e.1
            &&& pos == e.2
            &&& f.spaces().extra() == e.3
            &&& f.line_is_empty() == e.4
        },
        Token::EscapeSequence(code, _) => {
            let e = escape_effect(h, code, p, width);
            &&& evs == e.0
            &&& pos == e.1
            &&& f.spaces().extra() == extra
            &&& f.line_is_empty() == empty
            &&& step == LineStep::Next
        },
    }
            }

/// A copy of `parser` past the token that `middleware` read ahead.
fn lookahead<'a, M: Middleware<'a>>(
    parser: &Parser<'a>,
    middleware: &MiddlewareWrapper<'a, M>,
) -> (r: Parser<'a>)
    ensures
        match middleware.peeked() {
            Some((n, _)) => r@ == parser@.skip(consumed_len(n, parser@.len()) as int),
            None => r@ == parser@,
        },
{
    let mut look = *parser;
    let n = middleware.peeked_len();
    look.consume(n);
    proof {
        if middleware.peeked() is None {
            assert(look@ =~= parser@);
        }
    }
    look
}

/// Parser to break down a line into primitive elements used by measurement and
/// rendering.
#[derive(Debug)]
pub struct LineElementParser {
    cursor: LineCursor,
    spaces: SpaceConfig,
    alignment: HorizontalAlignment,
    empty: bool,
}

impl LineElementParser {
    /// Position information.
    pub closed spec fn cursor(&self) -> LineCursor {
        self.cursor
    }

    /// The width of whitespace.
    pub closed spec fn spaces(&self) -> SpaceConfig {
        self.spaces
    }

    /// The alignment of the line.
    pub closed spec fn alignment(&self) -> HorizontalAlignment {
        self.alignment
    }

    /// Whether no word has been placed on the line yet.
    pub closed spec fn line_is_empty(&self) -> bool {
        self.empty
    }

    /// Creates a new element parser for an empty line.
    pub fn new(cursor: LineCursor, spaces: SpaceConfig, alignment: HorizontalAlignment) -> (r:
        Self)
        ensures
            r.cursor() == cursor,
            r.spaces() == spaces,
            r.alignment() == alignment,
            r.line_is_empty(),
    {
        LineElementParser { cursor, spaces, alignment, empty: true }
    }

    /// The width of the word that follows in `look`, its parts joined across escape
    /// sequences up to the next soft hyphen, together with a hyphen glyph of `hyphen`
    /// pixels. Nothing where neither a word nor a soft hyphen follows.
    fn next_word_width<'a, E: ElementHandler>(look: Parser<'a>, handler: &E, hyphen: u32) -> (r:
        Option<u32>)
        ensures
            r == width_with_hyphen(handler, look@, hyphen),
    {
        let ghost s0 = look@;
        let mut ahead = look;
        let mut width: Option<u32> = None;
        loop
            invariant_except_break
                word_width_ahead(handler, s0, None) == word_width_ahead(handler, ahead@, width),
            ensures
                word_width_ahead(handler, s0, None) == width,
            decreases ahead@.len(),
        {
            let ghost s = ahead@;
            proof {
                if s.len() > 0 {
                    crate::parser::lemma_token_len_bounds(s);
                }
            }
            match ahead.next() {
                Some(Token::Word(w)) => {
                    let m = handler.measure(w);
                    width = Some(
                        match width {
                            Some(acc) => acc.saturating_add(m),
                            None => m,
                        },
                    );
                },
                Some(Token::Break(_, _)) => {
                    width = Some(
                        match width {
                            Some(acc) => acc,
                            None => 0,
                        },
                    );
                    break ;
                },
                Some(Token::EscapeSequence(_, _)) => {},
                _ => {
                    break ;
                },
            }
        }
        match width {
            Some(w) => Some(w.saturating_add(hyphen)),
            None => None,
        }
    }

    fn move_cursor(&mut self, by: i32) -> (r: Result<i32, i32>)
        ensures
            final(self).spaces() == old(self).spaces(),
            final(self).alignment() == old(self).alignment(),
            final(self).line_is_empty() == old(self).line_is_empty(),
            final(self).cursor().width() == old(self).cursor().width(),
            final(self).cursor().tab_width() == old(self).cursor().tab_width(),
            move_fits(old(self).cursor().position() as int, by as int, old(self).cursor().width() as int) ==> r == Ok::<i32, i32>(by)
                && final(self).cursor().position() == old(self).cursor().position() + by,
            !move_fits(old(self).cursor().position() as int, by as int, old(self).cursor().width() as int) ==> r is Err
                && final(self).cursor() == old(self).cursor(),
            r matches Err(m) ==> (by >= 0 ==> 0 <= m <= by) && (by < 0 ==> by <= m <= 0),
            old(self).cursor().position() + by > old(self).cursor().width() ==> r == Err::<i32, i32>(
                (old(self).cursor().width() - old(self).cursor().position()) as i32,
            ),
            old(self).cursor().position() + by < 0 ==> r == Err::<i32, i32>(
                (-old(self).cursor().position()) as i32,
            ),
    {
        self.cursor.move_cursor(by)
    }

    /// The longest leading part of `w` that fits into the rest of the line, measured
    /// character by character, and the remainder where there is one.
    fn longest_fitting_substr<'a, E: ElementHandler>(&self, handler: &E, w: &'a str) -> (r: (
        &'a str,
        Option<&'a str>,
    ))
        ensures
            ({
                let k = fitting_prefix_len(
                    handler,
                    w@,
                    (self.cursor().width() - self.cursor().position()) as nat,
                    0,
                );
                &&& k <= w@.len()
                &&& r.0@ == w@.take(k as int)
                &&& k < w@.len() ==> (r.1 matches Some(rest) && rest@ == w@.skip(k as int))
                &&& k >= w@.len() ==> r.1 is None
            }),
    {
        let ghost space = (self.cursor().width() - self.cursor().position()) as nat;
        let _ = self.cursor.space();
        let len = w.unicode_len();
        let mut width: u64 = 0;
        let mut i: usize = 0;
        while i < len
            invariant
                i <= len,
                len == w@.len(),
                width == chars_width(handler, w@, i as nat),
                width <= space,
                space == self.cursor().width() - self.cursor().position(),
                space <= u32::MAX,
                fitting_prefix_len(handler, w@, space, 0) == fitting_prefix_len(
                    handler,
                    w@,
                    space,
                    i as nat,
                ),
            decreases len - i,
        {
            let c = w.substring_char(i, i + 1);
            assert(c@ =~= seq![w@[i as int]]);
            let char_width = handler.measure(c);
            let total = width + char_width as u64;
            if total > u32::MAX as u64 || !self.cursor.fits_in_line(total as u32) {
                let head = w.substring_char(0, i);
                let tail = w.substring_char(i, len);
                assert(head@ =~= w@.take(i as int));
                assert(tail@ =~= w@.skip(i as int));
                return (head, Some(tail));
            }
            width = total;
            i = i + 1;
        }
        assert(w@.take(len as int) =~= w@);
        (w, None)
    }

    /// Whether the next word still fits into the line after whitespace of
    /// `space_width` pixels.
    fn next_word_fits<'a, E: ElementHandler>(
        &self,
        look: Parser<'a>,
        handler: &E,
        space_width: u32,
    ) -> (r: bool)
        ensures
            ({
                let p = self.cursor().position() as int;
                let d = clamp_i32(space_width) as int;
                r == (move_fits(p, d, self.cursor().width() as int) && fits_ahead(
                    handler,
                    look@,
                    p + d,
                    self.cursor().width() as int,
                    self.cursor().tab_width(),
                    self.spaces().unit(),
                    self.spaces().extra(),
                ))
            }),
    {
        let mut cursor = self.cursor;
        let mut spaces = self.spaces;
        match cursor.move_cursor(saturating_i32(space_width)) {
            Ok(_) => {},
            Err(_) => {
                return false;
            },
        }
        let ghost s0 = look@;
        let ghost p0 = cursor.position() as int;
        let mut ahead = look;
        loop
            invariant
                s0 == look@,
                p0 == self.cursor().position() + clamp_i32(space_width),
                move_fits(
                    self.cursor().position() as int,
                    clamp_i32(space_width) as int,
                    self.cursor().width() as int,
                ),
                cursor.width() == self.cursor().width(),
                cursor.tab_width() == self.cursor().tab_width(),
                spaces.unit() == self.spaces().unit(),
                fits_ahead(
                    handler,
                    s0,
                    p0,
                    cursor.width() as int,
                    cursor.tab_width(),
                    spaces.unit(),
                    self.spaces().extra(),
                ) == fits_ahead(
                    handler,
                    ahead@,
                    cursor.position() as int,
                    cursor.width() as int,
                    cursor.tab_width(),
                    spaces.unit(),
                    spaces.extra(),
                ),
            decreases ahead@.len(),
        {
            let ghost s = ahead@;
            proof {
                if s.len() > 0 {
                    crate::parser::lemma_token_len_bounds(s);
                }
            }
            let by: i32 = match ahead.next() {
                Some(Token::Word(w)) => {
                    let d = saturating_i32(handler.measure(w));
                    return cursor.move_cursor(d).is_ok();
                },
                Some(Token::Break(c, _)) => {
                    let d = saturating_i32(handler.measure(c));
                    return cursor.move_cursor(d).is_ok();
                },
                Some(Token::Whitespace(n, _)) => saturating_i32(spaces.consume(n)),
                Some(Token::Tab) => saturating_i32(cursor.next_tab_width()),
                Some(Token::EscapeSequence(EscapeCode::CursorForward(n), _)) => {
                    proof {
                        reveal_strlit(" ");
                        assert(" "@ =~= seq![' ']);
                    }
                    saturating_i32(saturating_mul(n, handler.measure(" ")))
                },
                Some(Token::EscapeSequence(EscapeCode::CursorBackward(n), _)) => {
                    proof {
                        reveal_strlit(" ");
                        assert(" "@ =~= seq![' ']);
                    }
                    0 - saturating_i32(saturating_mul(n, handler.measure(" ")))
                },
                Some(Token::EscapeSequence(_, _)) => 0,
                _ => {
                    return false;
                },
            };
            if cursor.move_cursor(by).is_err() {
                return false;
            }
        }
    }

    /// Places the whitespace run of `space_count` units and `space_width` pixels that
    /// stands before `look`, and returns its events and, where the line ends in it, the
    /// number of whole units drawn.
    fn draw_whitespace<'a, E: ElementHandler>(
        &mut self,
        handler: &E,
        look: Parser<'a>,
        space_count: u32,
        space_width: u32,
    ) -> (r: (Vec<Event<'a>>, Option<u32>))
        ensures
            final(self).cursor().width() == old(self).cursor().width(),
            final(self).cursor().tab_width() == old(self).cursor().tab_width(),
            final(self).alignment() == old(self).alignment(),
            final(self).line_is_empty() == old(self).line_is_empty(),
            final(self).spaces() == old(self).spaces(),
            ({
                let e = whitespace_events(
                    handler,
                    look@,
                    old(self).cursor().position() as int,
                    old(self).cursor().width() as int,
                    old(self).cursor().tab_width(),
                    old(self).spaces().unit(),
                    old(self).spaces().extra(),
                    old(self).line_is_empty(),
                    old(self).alignment() == HorizontalAlignment::Left,
                    space_count,
                    space_width,
                );
                &&& views(r.0@) == e.0
                &&& r.1 == e.1
                &&& final(self).cursor().position() == e.2
            }),
    {
        let _ = self.cursor.space();
        let d = saturating_i32(space_width);
        let mut ev: Vec<Event<'a>> = Vec::new();
        if self.empty && !self.render_leading_spaces() {
            let m = match self.move_cursor(d) {
                Ok(m) => m,
                Err(m) => m,
            };
            ev.push(Event::MoveCursor(m));
            proof {
                assert(views(ev@) =~= seq![Event::MoveCursor(m).view()]);
            }
            return (ev, None);
        }
        let draw = self.empty || self.render_trailing_spaces() || self.next_word_fits(
            look,
            handler,
            space_width,
        );
        let ghost before = self.cursor();
        match self.move_cursor(d) {
            Ok(m) => {
                let e = if draw {
                    Event::Whitespace(space_count, saturating_u32(m))
                } else {
                    Event::MoveCursor(m)
                };
                ev.push(e);
                proof {
                    assert(views(ev@) =~= seq![e.view()]);
                }
                (ev, None)
            },
            Err(moved) => {
                let single = if space_count == 0 {
                    0
                } else {
                    space_width / space_count
                };
                assert(0 <= before.width() - before.position() < d);
                let fit = saturating_u32(moved);
                let units = if single == 0 {
                    0
                } else {
                    let u = fit / single;
                    if u < space_count {
                        u
                    } else {
                        space_count
                    }
                };
                if units > 0 {
                    assert(units * single <= fit) by (nonlinear_arith)
                        requires
                            single > 0,
                            units <= fit / single,
                    {
                        vstd::arithmetic::div_mod::lemma_fundamental_div_mod(
                            fit as int,
                            single as int,
                        );
                        vstd::arithmetic::mul::lemma_mul_inequality(
                            units as int,
                            (fit / single) as int,
                            single as int,
                        );
                    }
                    let e = Event::Whitespace(units, units * single);
                    ev.push(e);
                    proof {
                        assert(views(ev@) =~= seq![e.view()]);
                    }
                } else {
                    proof {
                        lemma_views_one(Event::MoveCursor(0));
                    }
                }
                (ev, Some(units))
            },
        }
    }

    /// Places a tab of `space_width` pixels that stands before `look`, and returns its
    /// events.
    fn draw_tab<'a, E: ElementHandler>(
        &mut self,
        handler: &E,
        look: Parser<'a>,
        space_width: u32,
    ) -> (r: Vec<Event<'a>>)
        ensures
            final(self).cursor().width() == old(self).cursor().width(),
            final(self).cursor().tab_width() == old(self).cursor().tab_width(),
            final(self).alignment() == old(self).alignment(),
            final(self).line_is_empty() == old(self).line_is_empty(),
            final(self).spaces() == old(self).spaces(),
            ({
                let e = tab_events(
                    handler,
                    look@,
                    old(self).cursor().position() as int,
                    old(self).cursor().width() as int,
                    old(self).cursor().tab_width(),
                    old(self).spaces().unit(),
                    old(self).spaces().extra(),
                    old(self).line_is_empty(),
                    old(self).alignment() == HorizontalAlignment::Left,
                    space_width,
                );
                &&& views(r@) == e.0
                &&& final(self).cursor().position() == e.1
            }),
    {
        let d = saturating_i32(space_width);
        let draw = if self.empty && !self.render_leading_spaces() {
            false
        } else {
            self.empty || self.next_word_fits(look, handler, space_width)
        };
        let e = match self.move_cursor(d) {
            Ok(m) => if draw {
                Event::Whitespace(1, saturating_u32(m))
            } else {
                Event::MoveCursor(m)
            },
            Err(m) => Event::MoveCursor(m),
        };
        let mut ev: Vec<Event<'a>> = Vec::new();
        ev.push(e);
        proof {
            assert(views(ev@) =~= seq![e.view()]);
        }
        ev
    }

    /// The events of a word: its parts printed, each non-breaking space in it as one
    /// whitespace unit taken from the space budget.
    fn process_word<'a, E: ElementHandler>(&mut self, handler: &E, w: &'a str) -> (r: Vec<
        Event<'a>,
    >)
        ensures
            final(self).cursor() == old(self).cursor(),
            final(self).alignment() == old(self).alignment(),
            final(self).line_is_empty() == old(self).line_is_empty(),
            final(self).spaces().unit() == old(self).spaces().unit(),
            views(r@) == word_events(
                handler,
                w@,
                old(self).spaces().unit(),
                old(self).spaces().extra(),
            ),
            final(self).spaces().extra() == sub_nat(old(self).spaces().extra(), nbsp_count(w@)),
        decreases w@.len(),
    {
        let ghost unit = self.spaces().unit();
        let ghost extra = self.spaces().extra();
        let len = w.unicode_len();
        let mut i: usize = 0;
        while i < len
            invariant
                i <= len,
                len == w@.len(),
                forall|j: int| 0 <= j < i ==> w@[j] != SPEC_CHAR_NBSP,
                nbsp_index(w@, 0) == nbsp_index(w@, i as nat),
            ensures
                i <= len,
                forall|j: int| 0 <= j < i ==> w@[j] != SPEC_CHAR_NBSP,
                nbsp_index(w@, 0) == i,
                i < len ==> w@[i as int] == SPEC_CHAR_NBSP,
            decreases len - i,
        {
            if w.get_char(i) == SPEC_CHAR_NBSP {
                break;
            }
            i = i + 1;
        }
        let mut ev: Vec<Event<'a>> = Vec::new();
        if i == len {
            proof {
                lemma_nbsp_count_none(w@);
            }
            let m = handler.measure(w);
            ev.push(Event::Printed(w, m));
            proof {
                assert(views(ev@) =~= seq![Event::Printed(w, m).view()]);
            }
            return ev;
        }
        let ghost head = w@.take(i as int);
        let ghost tail = w@.skip(i as int + 1);
        proof {
            assert(w@ =~= head + (seq![SPEC_CHAR_NBSP] + tail));
            lemma_nbsp_count_split(head, seq![SPEC_CHAR_NBSP] + tail);
            lemma_nbsp_count_split(seq![SPEC_CHAR_NBSP], tail);
            lemma_nbsp_count_none(head);
            assert(seq![SPEC_CHAR_NBSP].drop_first() =~= Seq::<char>::empty());
            assert(nbsp_count(Seq::<char>::empty()) == 0);
            assert(nbsp_count(seq![SPEC_CHAR_NBSP]) == 1);
            assert(nbsp_count(w@) == 1 + nbsp_count(tail));
        }
        let ghost head_events = if i == 0 {
            Seq::<EventView>::empty()
        } else {
            seq![EventView::Printed(head, text_width(handler, head))]
        };
        if i != 0 {
            let word = w.substring_char(0, i);
            assert(word@ =~= head);
            let m = handler.measure(word);
            ev.push(Event::Printed(word, m));
        }
        let sw = self.spaces.consume(1);
        ev.push(Event::Whitespace(1, sw));
        let ghost gap = seq![EventView::Whitespace(1, spaces_width(1, unit, extra) as u32)];
        assert(views(ev@) =~= head_events + gap);
        if i + 1 < len {
            let rest = w.substring_char(i + 1, len);
            assert(rest@ =~= tail);
            let mut more = self.process_word(handler, rest);
            let ghost before = ev@;
            let ghost added = more@;
            ev.append(&mut more);
            proof {
                lemma_views_add(before, added);
            }
            return ev;
        }
        assert(tail =~= Seq::<char>::empty());
        ev
    }

    /// Lays out one token, which `look` follows: returns the events that it gives and
    /// what becomes of it.
    pub fn plan_token<'a, E: ElementHandler>(
        &mut self,
        token: Token<'a>,
        look: Parser<'a>,
        handler: &E,
    ) -> (r: (Vec<Event<'a>>, LineStep<'a>))
        ensures
            final(self).cursor().width() == old(self).cursor().width(),
            final(self).cursor().tab_width() == old(self).cursor().tab_width(),
            final(self).alignment() == old(self).alignment(),
            final(self).spaces().unit() == old(self).spaces().unit(),
            r.1 is Stop ==> !old(self).line_is_empty(),
            r.1 is Rest ==> !old(self).line_is_empty(),
            r.1 matches LineStep::Prefix(k) ==> k >= 1 && (token matches Token::Word(w) && k
                < w@.len()),
            !(r.1 matches LineStep::End(LineEndType::EndOfText)),
            old(self).line_is_empty() && !final(self).line_is_empty() ==> (r.1 is Next
                || r.1 is Prefix),
            token is NewLine ==> r.0@.len() == 0 && r.1 == LineStep::End(LineEndType::NewLine),
            token is CarriageReturn ==> r.0@.len() == 0 && r.1 == LineStep::End(
                LineEndType::CarriageReturn,
            ),
            token_planned(handler, *old(self), token, look@, views(r.0@), r.1, *final(self)),
    {
        proof {
            reveal(token_planned);
        }
        let _ = self.cursor.space();
        let mut ev: Vec<Event<'a>> = Vec::new();
        match token {
            Token::NewLine => (ev, LineStep::End(LineEndType::NewLine)),
            Token::CarriageReturn => (ev, LineStep::End(LineEndType::CarriageReturn)),
            Token::Whitespace(n, seq) => {
                let sw = self.spaces.consume(n);
                let (ev, units) = self.draw_whitespace(handler, look, n, sw);
                match units {
                    None => (ev, LineStep::Next),
                    Some(u) => if !self.empty && u < n {
                        (ev, LineStep::Rest(Token::Whitespace(n - u, skip_str(seq, u as usize))))
                    } else {
                        (ev, LineStep::End(LineEndType::LineBreak))
                    },
                }
            },
            Token::Tab => {
                let sw = self.cursor.next_tab_width();
                let ev = self.draw_tab(handler, look, sw);
                (ev, LineStep::Next)
            },
            Token::Break(c, _) => {
                proof {
                    lemma_views_one(Event::MoveCursor(0));
                }
                let hw = handler.measure(c);
                match Self::next_word_width(look, handler, hw) {
                    None => (ev, LineStep::Next),
                    Some(total) => {
                        if self.cursor.fits_in_line(total) && !self.empty {
                            (ev, LineStep::Next)
                        } else {
                            match self.move_cursor(saturating_i32(hw)) {
                                Ok(_) => {
                                    ev.push(Event::Printed(c, hw));
                                    proof {
                                        assert(views(ev@) =~= seq![Event::Printed(c, hw).view()]);
                                    }
                                    if self.empty {
                                        (ev, LineStep::Next)
                                    } else {
                                        (ev, LineStep::End(LineEndType::LineBreak))
                                    }
                                },
                                Err(_) => if self.empty {
                                    (ev, LineStep::Next)
                                } else {
                                    (ev, LineStep::Stop)
                                },
                            }
                        }
                    },
                }
            },
            Token::Word(w) => {
                proof {
                    lemma_views_one(Event::MoveCursor(0));
                }
                let width = handler.measure(w);
                match self.move_cursor(saturating_i32(width)) {
                    Ok(_) => {
                        self.empty = false;
                        let ev = self.process_word(handler, w);
                        (ev, LineStep::Next)
                    },
                    Err(_) => {
                        if !self.empty {
                            return (ev, LineStep::Stop);
                        }
                        let (word, remainder) = self.longest_fitting_substr(handler, w);
                        let k = word.unicode_len();
                        if k == 0 {
                            return (ev, LineStep::End(LineEndType::LineBreak));
                        }
                        self.empty = false;
                        let ev = self.process_word(handler, word);
                        match remainder {
                            Some(_) => (ev, LineStep::Prefix(k)),
                            None => (ev, LineStep::Next),
                        }
                    },
                }
            },
            Token::EscapeSequence(code, _) => {
                proof {
                    lemma_views_one(Event::MoveCursor(0));
                    reveal_strlit(" ");
                    assert(" "@ =~= seq![' ']);
                }
                match code {
                    EscapeCode::SetGraphicsMode(count, params) => {
                        let n = if count < 5 {
                            count
                        } else {
                            5
                        };
                        let all = params.as_slice();
                        let used = vstd::slice::slice_subrange(all, 0, n);
                        assert(used@ =~= params@.take(n as int));
                        match try_parse_sgr(used) {
                            Some(sgr) => {
                                ev.push(Event::Style(sgr));
                                proof {
                                    assert(views(ev@) =~= seq![Event::Style(sgr).view()]);
                                }
                            },
                            None => {},
                        }
                    },
                    EscapeCode::CursorForward(n) => {
                        let delta = saturating_i32(saturating_mul(n, handler.measure(" ")));
                        let moved = match self.move_cursor(delta) {
                            Ok(d) => d,
                            Err(d) => d,
                        };
                        let fwd = saturating_u32(moved);
                        ev.push(Event::Whitespace(0, fwd));
                        proof {
                            assert(views(ev@) =~= seq![Event::Whitespace(0, fwd).view()]);
                        }
                    },
                    EscapeCode::CursorBackward(n) => {
                        let delta = 0 - saturating_i32(saturating_mul(n, handler.measure(" ")));
                        let moved = match self.move_cursor(delta) {
                            Ok(d) => d,
                            Err(d) => d,
                        };
                        let back = saturating_u32(0 - moved);
                        ev.push(Event::MoveCursor(moved));
                        ev.push(Event::Whitespace(0, back));
                        ev.push(Event::MoveCursor(moved));
                        assert(views(ev@) =~= seq![
                            EventView::MoveCursor(moved),
                            EventView::Whitespace(0, back),
                            EventView::MoveCursor(moved),
                        ]);
                    },
                    EscapeCode::Other => {},
                }
                (ev, LineStep::Next)
            },
        }
    }

    /// Lays out one line of the text that `parser` holds, reading its tokens directly:
    /// returns the events of the line and why it ends, and advances `parser` past what the
    /// line consumed.
    #[verifier::loop_isolation(false)]
    pub fn plan_line<'a, E: ElementHandler>(&mut self, parser: &mut Parser<'a>, handler: &E) -> (r: (
        Vec<Event<'a>>,
        LineEndType,
    ))
        ensures
            ({
                let l = line_layout(
                    handler,
                    old(parser)@,
                    old(self).cursor().position() as int,
                    old(self).cursor().width() as int,
                    old(self).cursor().tab_width(),
                    old(self).spaces().unit(),
                    old(self).spaces().extra(),
                    old(self).line_is_empty(),
                    old(self).alignment() == HorizontalAlignment::Left,
                );
                &&& views(r.0@) == l.0
                &&& r.1 == l.1
                &&& l.2 <= old(parser)@.len()
                &&& final(parser)@ == old(parser)@.skip(l.2 as int)
            }),
    {
        let ghost s0 = parser@;
        let ghost layout0 = line_layout(
            handler,
            parser@,
            self.cursor().position() as int,
            self.cursor().width() as int,
            self.cursor().tab_width(),
            self.spaces().unit(),
            self.spaces().extra(),
            self.empty,
            self.alignment == HorizontalAlignment::Left,
        );
        let ghost w0 = self.cursor().width();
        let ghost t0 = self.cursor().tab_width();
        let ghost u0 = self.spaces().unit();
        let ghost a0 = self.alignment;
        let mut events: Vec<Event<'a>> = Vec::new();
        loop
            invariant
                self.cursor().width() == w0,
                self.cursor().tab_width() == t0,
                self.spaces().unit() == u0,
                self.alignment == a0,
                parser@.len() <= s0.len(),
                parser@ == s0.skip(s0.len() - parser@.len()),
                ({
                    let l = line_layout(
                        handler,
                        parser@,
                        self.cursor().position() as int,
                        w0 as int,
                        t0,
                        u0,
                        self.spaces().extra(),
                        self.empty,
                        a0 == HorizontalAlignment::Left,
                    );
                    &&& layout0.0 == views(events@) + l.0
                    &&& layout0.1 == l.1
                    &&& layout0.2 == (s0.len() - parser@.len()) + l.2
                }),
            decreases parser@.len(),
        {
            let ghost s = parser@;
            let ghost before = events@;
            let mut look = *parser;
            match look.next() {
                None => {
                    assert(views(events@) + Seq::<EventView>::empty() =~= views(events@));
                    return (events, LineEndType::EndOfText);
                },
                Some(t) => {
                    proof {
                        crate::parser::lemma_token_len_bounds(s);
                        reveal_strlit("-");
                        assert("-"@ =~= seq!['-']);
                    }
                    let ghost o = *self;
                    let ghost lay = line_layout(
                        handler,
                        s,
                        o.cursor().position() as int,
                        w0 as int,
                        t0,
                        u0,
                        o.spaces().extra(),
                        o.line_is_empty(),
                        a0 == HorizontalAlignment::Left,
                    );
                    let (mut ev, step) = self.plan_token(t, look, handler);
                    let ghost added = ev@;
                    proof {
                        lemma_planned_effect(handler, o, t, s, views(added), step, *self);
                    }
                    events.append(&mut ev);
                    proof {
                        lemma_views_add(before, added);
                    }
                    match step {
                        LineStep::Next => {
                            *parser = look;
                            assert(parser@ =~= s0.skip(s0.len() - parser@.len()));
                        },
                        LineStep::End(end) => {
                            *parser = look;
                            assert(parser@ =~= s0.skip(s0.len() - parser@.len()));
                            return (events, end);
                        },
                        LineStep::Stop => {
                            assert(lay.2 == 0);
                            assert(views(events@) =~= views(before) + views(added));
                            return (events, LineEndType::LineBreak);
                        },
                        LineStep::Prefix(k) => {
                            parser.consume(k);
                            assert(parser@ =~= s0.skip(s0.len() - parser@.len()));
                            return (events, LineEndType::LineBreak);
                        },
                        LineStep::Rest(_) => {
                            *parser = look;
                            assert(parser@ =~= s0.skip(s0.len() - parser@.len()));
                            return (events, LineEndType::LineBreak);
                        },
                    }
                },
            }
        }
    }

    /// Lays out one line: reads tokens through `middleware` from `parser` until the line
    /// ends, and returns the events of the line, as `plan_token` gives them for each token,
    /// and why it ends. Where the middleware hands on the tokens of the source unchanged
    /// and nothing was read ahead, this is the layout of the text.
    #[verifier::loop_isolation(false)]
    fn plan_through<'a, M: Middleware<'a>, E: ElementHandler>(
        &mut self,
        parser: &mut Parser<'a>,
        middleware: &mut MiddlewareWrapper<'a, M>,
        handler: &E,
    ) -> (r: (Vec<Event<'a>>, LineEndType))
        ensures
            final(self).cursor().width() == old(self).cursor().width(),
            final(self).cursor().tab_width() == old(self).cursor().tab_width(),
            final(self).alignment() == old(self).alignment(),
            final(parser)@.len() <= old(parser)@.len(),
            final(parser)@ == old(parser)@.skip(old(parser)@.len() - final(parser)@.len()),
            r.1 == LineEndType::EndOfText ==> final(parser)@.len() == 0
                && final(middleware).peeked() is None,
            old(self).line_is_empty() && old(middleware).peeked() is None && old(parser)@.len()
                > 0 ==> final(parser)@.len() < old(parser)@.len(),
            old(middleware).peeked() matches Some((n, Token::NewLine)) ==> r.0@.len() == 0
                && r.1 == LineEndType::NewLine && final(middleware).peeked() is None
                && final(parser)@ == old(parser)@.skip(consumed_len(n, old(parser)@.len()) as int),
            old(middleware).peeked() matches Some((n, Token::CarriageReturn)) ==> r.0@.len() == 0
                && r.1 == LineEndType::CarriageReturn && final(middleware).peeked() is None
                && final(parser)@ == old(parser)@.skip(consumed_len(n, old(parser)@.len()) as int),
            M::passes_through() && old(middleware).peeked() is None ==> ({
                let l = line_layout(
                    handler,
                    old(parser)@,
                    old(self).cursor().position() as int,
                    old(self).cursor().width() as int,
                    old(self).cursor().tab_width(),
                    old(self).spaces().unit(),
                    old(self).spaces().extra(),
                    old(self).line_is_empty(),
                    old(self).alignment() == HorizontalAlignment::Left,
                );
                &&& views(r.0@) == l.0
                &&& r.1 == l.1
                &&& final(parser)@ == old(parser)@.skip(l.2 as int)
            }),
    {
        let ghost p0 = parser@;
        let ghost pk0 = middleware.peeked() is Some;
        let ghost peeked0 = middleware.peeked();
        let ghost e0 = self.empty;
        let ghost w0 = self.cursor().width();
        let ghost t0 = self.cursor().tab_width();
        let ghost u0 = self.spaces().unit();
        let ghost a0 = self.alignment;
        let ghost exact = M::passes_through() && !pk0;
        let ghost layout0 = line_layout(
            handler,
            parser@,
            self.cursor().position() as int,
            self.cursor().width() as int,
            self.cursor().tab_width(),
            self.spaces().unit(),
            self.spaces().extra(),
            self.empty,
            self.alignment == HorizontalAlignment::Left,
        );
        let mut events: Vec<Event<'a>> = Vec::new();
        loop
            invariant
                self.cursor().width() == w0,
                self.cursor().tab_width() == t0,
                self.spaces().unit() == u0,
                self.alignment == a0,
                parser@.len() <= p0.len(),
                parser@ == p0.skip(p0.len() - parser@.len()),
                middleware.peeked() is Some ==> pk0 && parser@ == p0 && events@.len() == 0,
                !pk0 && e0 && !self.empty ==> parser@.len() < p0.len(),
                (peeked0 matches Some((_, t)) && (t is NewLine || t is CarriageReturn))
                    ==> middleware.peeked() == peeked0 && parser@ == p0,
                exact ==> ({
                    let l = line_layout(
                        handler,
                        parser@,
                        self.cursor().position() as int,
                        w0 as int,
                        t0,
                        u0,
                        self.spaces().extra(),
                        self.empty,
                        a0 == HorizontalAlignment::Left,
                    );
                    &&& layout0.0 == views(events@) + l.0
                    &&& layout0.1 == l.1
                    &&& layout0.2 == (p0.len() - parser@.len()) + l.2
                }),
            decreases parser@.len(), if middleware.peeked() is Some {
                1int
            } else {
                0int
            },
        {
            let ghost s = parser@;
            let ghost before = events@;
            let token = middleware.peek_token(parser);
            match token {
                None => {
                    assert(views(events@) + Seq::<EventView>::empty() =~= views(events@));
                    return (events, LineEndType::EndOfText);
                },
                Some(t) => {
                    let look = lookahead(parser, middleware);
                    proof {
                        if s.len() > 0 {
                            crate::parser::lemma_token_len_bounds(s);
                        }
                    }
                    let ghost o = *self;
                    let ghost lay = line_layout(
                        handler,
                        s,
                        o.cursor().position() as int,
                        w0 as int,
                        t0,
                        u0,
                        o.spaces().extra(),
                        o.line_is_empty(),
                        a0 == HorizontalAlignment::Left,
                    );
                    let (mut ev, step) = self.plan_token(t, look, handler);
                    let ghost added = ev@;
                    events.append(&mut ev);
                    proof {
                        lemma_views_add(before, added);
                        if exact {
                            lemma_planned_effect(handler, o, t, s, views(added), step, *self);
                        }
                    }
                    match step {
                        LineStep::Next => {
                            middleware.consume_peeked_token(parser);
                        },
                        LineStep::End(end) => {
                            middleware.consume_peeked_token(parser);
                            return (events, end);
                        },
                        LineStep::Stop => {
                            assert(exact ==> lay.2 == 0);
                            return (events, LineEndType::LineBreak);
                        },
                        LineStep::Prefix(k) => {
                            middleware.replace_peeked_token(k, t);
                            middleware.consume_peeked_token(parser);
                            return (events, LineEndType::LineBreak);
                        },
                        LineStep::Rest(rest) => {
                            middleware.consume_peeked_token(parser);
                            middleware.replace_peeked_token(0, rest);
                            return (events, LineEndType::LineBreak);
                        },
                    }
                },
            }
        }
    }

    /// Lays out one line: consumes tokens through `middleware` from `parser` until the
    /// line ends, and hands the events of the line, as `plan_through` gives them, to
    /// `handler` in order. The first error of the handler ends it and is returned. Where
    /// the middleware hands on the tokens of the source unchanged and nothing was read
    /// ahead, the handler receives the events of `line_layout`, the line ends as it says,
    /// and the parser advances by the characters that it consumes.
    pub fn process<'a, M: Middleware<'a>, E: ElementHandler>(
        &mut self,
        parser: &mut Parser<'a>,
        middleware: &mut MiddlewareWrapper<'a, M>,
        handler: &mut E,
    ) -> (r: Result<LineEndType, E::Error>)
        ensures
            final(self).cursor().width() == old(self).cursor().width(),
            final(self).cursor().tab_width() == old(self).cursor().tab_width(),
            final(self).alignment() == old(self).alignment(),
            final(parser)@.len() <= old(parser)@.len(),
            final(parser)@ == old(parser)@.skip(old(parser)@.len() - final(parser)@.len()),
            r matches Ok(LineEndType::EndOfText) ==> final(parser)@.len() == 0
                && final(middleware).peeked() is None,
            r is Ok && old(self).line_is_empty() && old(middleware).peeked() is None && old(
                parser,
            )@.len() > 0 ==> final(parser)@.len() < old(parser)@.len(),
            old(middleware).peeked() matches Some((n, Token::NewLine)) ==> r matches Ok(
                LineEndType::NewLine,
            ) && final(middleware).peeked() is None && final(parser)@ == old(parser)@.skip(
                consumed_len(n, old(parser)@.len()) as int,
            ),
            old(middleware).peeked() matches Some((n, Token::CarriageReturn)) ==> r matches Ok(
                LineEndType::CarriageReturn,
            ) && final(middleware).peeked() is None && final(parser)@ == old(parser)@.skip(
                consumed_len(n, old(parser)@.len()) as int,
            ),
            M::passes_through() && old(middleware).peeked() is None ==> ({
                let l = line_layout(
                    old(handler),
                    old(parser)@,
                    old(self).cursor().position() as int,
                    old(self).cursor().width() as int,
                    old(self).cursor().tab_width(),
                    old(self).spaces().unit(),
                    old(self).spaces().extra(),
                    old(self).line_is_empty(),
                    old(self).alignment() == HorizontalAlignment::Left,
                );
                &&& final(parser)@ == old(parser)@.skip(l.2 as int)
                &&& r matches Ok(end) ==> end == l.1 && final(handler).received() == old(
                    handler,
                ).received() + l.0
            }),
    {
        let (events, end) = self.plan_through(parser, middleware, &*handler);
        emit(handler, &events)?;
        Ok(end)
    }

    /// Whitespace at the end of a line is not drawn as a visible block.
    fn render_trailing_spaces(&self) -> (r: bool)
        ensures
            !r,
    {
        false
    }

    /// Whitespace at the start of a line is drawn only for left-aligned text.
    fn render_leading_spaces(&self) -> (r: bool)
        ensures
            r == (self.alignment() == HorizontalAlignment::Left),
    {
        match self.alignment {
            HorizontalAlignment::Left => true,
            HorizontalAlignment::Center => false,
            HorizontalAlignment::Right => false,
            HorizontalAlignment::Justified => false,
        }
    }
}

} // verus!
