//! Width measurement for fonts whose glyph widths are known per character.
use vstd::prelude::*;

verus! {

/// Result of a `measure_line` function call.
#[derive(Copy, Clone, Debug, PartialEq, Eq, Structural)]
pub struct LineMeasurement {
    /// The maximum width that still fits into the given width limit.
    pub width: u32,
    /// Whether or not the whole sequence fits into the given width limit.
    pub fits_line: bool,
}

impl LineMeasurement {
    /// Creates a new measurement result object.
    pub fn new(width: u32, fits_line: bool) -> (r: Self)
        ensures
            r.width == width,
            r.fits_line == fits_line,
    {
        LineMeasurement { width, fits_line }
    }

    /// Creates a new measurement result object for an empty line.
    pub fn empty() -> (r: Self)
        ensures
            r.width == 0,
            r.fits_line,
    {
        Self::new(0, true)
    }
}

/// The total width of the first `i` characters of `s`, where `width` gives the width
/// of each character.
pub open spec fn chars_total(width: spec_fn(char) -> u32, s: Seq<char>, i: nat) -> nat
    decreases i,
{
    if i == 0 || i > s.len() {
        0
    } else {
        (chars_total(width, s, (i - 1) as nat) + width(s[i - 1])) as nat
    }
}

/// The number of leading characters of `s`, counted on from `i`, whose widths add up to
/// at most `max_width`.
pub open spec fn fitting_chars(
    width: spec_fn(char) -> u32,
    s: Seq<char>,
    max_width: nat,
    i: nat,
) -> nat
    decreases s.len() - i,
{
    if i < s.len() && chars_total(width, s, i + 1) <= max_width {
        fitting_chars(width, s, max_width, i + 1)
    } else {
        i
    }
}

/// Measurement of text in a font whose glyph widths are fixed per character.
pub trait FontExt {
    /// The width of a character plus the character spacing, as `total_char_width`
    /// gives it.
    spec fn char_width(c: char) -> u32;

    /// Returns the total width of the character plus the character spacing.
    fn total_char_width(c: char) -> (r: u32)
        ensures
            r == Self::char_width(c),
    ;

    /// Measures a sequence of characters in a line with a determinate maximum width.
    ///
    /// Returns the width of the characters that fit into the given space and whether or
    /// not all of the input fits into the given space.
    fn measure_line(line: &str, max_width: u32) -> (r: LineMeasurement)
        ensures
            ({
                let k = fitting_chars(|c: char| Self::char_width(c), line@, max_width as nat, 0);
                &&& r.width == chars_total(|c: char| Self::char_width(c), line@, k)
                &&& r.fits_line == (k == line@.len())
            }),
    {
        let len = line.unicode_len();
        let mut total: u32 = 0;
        let mut i: usize = 0;
        while i < len
            invariant
                i <= len,
                len == line@.len(),
                total == chars_total(|c: char| Self::char_width(c), line@, i as nat),
                total <= max_width,
                fitting_chars(|c: char| Self::char_width(c), line@, max_width as nat, 0) == fitting_chars(|c: char| Self::char_width(c), 
                    line@,
                    max_width as nat,
                    i as nat,
                ),
            decreases len - i,
        {
            let w = Self::total_char_width(line.get_char(i));
            let new_width = total as u64 + w as u64;
            if new_width > max_width as u64 {
                return LineMeasurement::new(total, false);
            }
            total = new_width as u32;
            i = i + 1;
        }
        LineMeasurement::new(total, true)
    }

    /// Measures text width: the sum of the character widths, capped at `u32::MAX`.
    fn str_width(s: &str) -> (r: u32)
        ensures
            r == if chars_total(|c: char| Self::char_width(c), s@, s@.len()) > u32::MAX {
                u32::MAX as nat
            } else {
                chars_total(|c: char| Self::char_width(c), s@, s@.len())
            },
    {
        let len = s.unicode_len();
        let mut total: u64 = 0;
        let mut i: usize = 0;
        while i < len
            invariant
                i <= len,
                len == s@.len(),
                total == if chars_total(|c: char| Self::char_width(c), s@, i as nat) > u32::MAX {
                    u32::MAX as nat
                } else {
                    chars_total(|c: char| Self::char_width(c), s@, i as nat)
                },
            decreases len - i,
        {
            let w = Self::total_char_width(s.get_char(i));
            total = total + w as u64;
            if total > u32::MAX as u64 {
                total = u32::MAX as u64;
            }
            i = i + 1;
        }
        total as u32
    }
}

} // verus!
