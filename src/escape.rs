//! Inline escape sequences, as recognised by `ansi_parser`.
use ansi_parser::AnsiSequence;
use as_slice::AsSlice;
use vstd::prelude::*;

verus! {

/// The part of a parsed escape sequence that the layout acts on.
#[derive(Debug, Clone, Copy, PartialEq, Eq)]
pub enum EscapeCode {
    /// Select Graphic Rendition: the number of parameters and their values.
    SetGraphicsMode(usize, [u8; 5]),
    /// Move the cursor forward by a number of characters.
    CursorForward(u32),
    /// Move the cursor backward by a number of characters.
    CursorBackward(u32),
    /// Any other sequence; it has no effect on the layout.
    Other,
}

/// What `ansi_parser::parse_escape` recognises at the start of a text: the number of
/// characters that the sequence spans, and its code.
pub uninterp spec fn escape_prefix(s: Seq<char>) -> Option<(nat, EscapeCode)>;

/// Relies on `ansi_parser::parse_escape`: on success it has consumed a leading ESC
/// character and what follows it, and hands back the rest of the input.
#[verifier::external_body]
pub(crate) fn parse_escape<'a>(s: &'a str) -> (r: Option<(&'a str, EscapeCode)>)
    ensures
        r is None <==> escape_prefix(s@) is None,
        r matches Some((rest, code)) ==> {
            &&& escape_prefix(s@) == Some(((s@.len() - rest@.len()) as nat, code))
            &&& rest@.len() < s@.len()
            &&& rest@ == s@.skip(s@.len() - rest@.len())
            &&& s@[0] == '\u{1b}'
        },
{
    match ansi_parser::parse_escape(s) {
        Ok((rest, AnsiSequence::SetGraphicsMode(v))) => {
            let values = AsSlice::as_slice(&*v);
            let mut params = [0u8; 5];
            params[..values.len()].copy_from_slice(values);
            Some((rest, EscapeCode::SetGraphicsMode(values.len(), params)))
        },
        Ok((rest, AnsiSequence::CursorForward(n))) => Some((rest, EscapeCode::CursorForward(n))),
        Ok((rest, AnsiSequence::CursorBackward(n))) => Some((rest, EscapeCode::CursorBackward(n))),
        Ok((rest, _)) => Some((rest, EscapeCode::Other)),
        Err(_) => None,
    }
}

} // verus!
