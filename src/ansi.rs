//! Select Graphic Rendition parameters, turned into text style changes.
use crate::color::Rgb;
use vstd::prelude::*;

verus! {

/// A text style change.
#[derive(Debug, Clone, Copy, PartialEq, Eq)]
pub enum Sgr {
    /// Back to the default style.
    Reset,
    /// Start underlining.
    Underline,
    /// Start striking through.
    CrossedOut,
    /// Stop underlining.
    UnderlineOff,
    /// Stop striking through.
    NotCrossedOut,
    /// Change the text color.
    ChangeTextColor(Rgb),
    /// Back to the default text color.
    DefaultTextColor,
    /// Change the background color.
    ChangeBackgroundColor(Rgb),
    /// Back to the default background color.
    DefaultBackgroundColor,
}

/// The red, green and blue channels of the sixteen standard terminal colors (the palette
/// of the Windows 10 console), normal ones first, then the bright ones.
pub open spec fn standard_color(idx: u8) -> (u8, u8, u8) {
    if idx == 0 {
        (12, 12, 12)
    } else if idx == 1 {
        (197, 15, 31)
    } else if idx == 2 {
        (19, 161, 14)
    } else if idx == 3 {
        (193, 156, 0)
    } else if idx == 4 {
        (0, 55, 218)
    } else if idx == 5 {
        (136, 23, 152)
    } else if idx == 6 {
        (58, 150, 221)
    } else if idx == 7 {
        (204, 204, 204)
    } else if idx == 8 {
        (118, 118, 118)
    } else if idx == 9 {
        (231, 72, 86)
    } else if idx == 10 {
        (22, 198, 12)
    } else if idx == 11 {
        (249, 241, 165)
    } else if idx == 12 {
        (59, 120, 255)
    } else if idx == 13 {
        (180, 0, 158)
    } else if idx == 14 {
        (97, 214, 214)
    } else {
        (242, 242, 242)
    }
}

/// Whether `c` holds the given channels.
pub open spec fn is_rgb(c: Rgb, rgb: (u8, u8, u8)) -> bool {
    c.red() == rgb.0 && c.green() == rgb.1 && c.blue() == rgb.2
}

/// The channels of a color of the 256-color palette: the standard colors, a 6x6x6 cube,
/// and 24 shades of grey.
pub open spec fn palette_color(idx: u8) -> (u8, u8, u8) {
    if idx < 16 {
        standard_color(idx)
    } else if idx < 232 {
        let i = (idx - 16) as int;
        (((i / 36) * 51) as u8, (((i / 6) % 6) * 51) as u8, ((i % 6) * 51) as u8)
    } else {
        let g = ((idx - 232) * 10 + 8) as u8;
        (g, g, g)
    }
}

/// The color that the parameters after 38 or 48 select: `5;n` for a palette color,
/// `2;r;g;b` for a true color.
pub open spec fn color_of(v: Seq<u8>) -> Option<(u8, u8, u8)> {
    if v.len() >= 2 && v[0] == 5 {
        Some(palette_color(v[1]))
    } else if v.len() >= 4 && v[0] == 2 {
        Some((v[1], v[2], v[3]))
    } else {
        None
    }
}

/// What a sequence of SGR parameters means, where it means something the layout knows.
pub open spec fn sgr_matches(v: Seq<u8>, r: Option<Sgr>) -> bool {
    if v.len() == 0 {
        r is None
    } else {
        let code = v[0];
        if code == 0 {
            r == Some(Sgr::Reset)
        } else if code == 4 {
            r == Some(Sgr::Underline)
        } else if code == 9 {
            r == Some(Sgr::CrossedOut)
        } else if code == 24 {
            r == Some(Sgr::UnderlineOff)
        } else if code == 29 {
            r == Some(Sgr::NotCrossedOut)
        } else if code == 39 {
            r == Some(Sgr::DefaultTextColor)
        } else if code == 49 {
            r == Some(Sgr::DefaultBackgroundColor)
        } else if 30 <= code <= 37 {
            r matches Some(Sgr::ChangeTextColor(c)) && is_rgb(c, standard_color((code - 30) as u8))
        } else if 90 <= code <= 97 {
            r matches Some(Sgr::ChangeTextColor(c)) && is_rgb(c, standard_color((code - 82) as u8))
        } else if 40 <= code <= 47 {
            r matches Some(Sgr::ChangeBackgroundColor(c)) && is_rgb(
                c,
                standard_color((code - 40) as u8),
            )
        } else if 100 <= code <= 107 {
            r matches Some(Sgr::ChangeBackgroundColor(c)) && is_rgb(
                c,
                standard_color((code - 92) as u8),
            )
        } else if code == 38 {
            match color_of(v.skip(1)) {
                Some(rgb) => r matches Some(Sgr::ChangeTextColor(c)) && is_rgb(c, rgb),
                None => r is None,
            }
        } else if code == 48 {
            match color_of(v.skip(1)) {
                Some(rgb) => r matches Some(Sgr::ChangeBackgroundColor(c)) && is_rgb(c, rgb),
                None => r is None,
            }
        } else {
            r is None
        }
    }
}

/// A sequence of SGR parameters means at most one style change.
pub proof fn lemma_sgr_unique(v: Seq<u8>, r1: Option<Sgr>, r2: Option<Sgr>)
    requires
        sgr_matches(v, r1),
        sgr_matches(v, r2),
    ensures
        r1 == r2,
{
    match (r1, r2) {
        (Some(Sgr::ChangeTextColor(a)), Some(Sgr::ChangeTextColor(b))) => {
            Rgb::lemma_same_channels(a, b);
        },
        (Some(Sgr::ChangeBackgroundColor(a)), Some(Sgr::ChangeBackgroundColor(b))) => {
            Rgb::lemma_same_channels(a, b);
        },
        _ => {},
    }
}

/// The style change that a sequence of SGR parameters means, where it means one.
pub open spec fn sgr_of(v: Seq<u8>) -> Option<Sgr> {
    choose|r: Option<Sgr>| sgr_matches(v, r)
}

fn standard_to_rgb(idx: u8) -> (c: Rgb)
    ensures
        is_rgb(c, standard_color(idx)),
{
    let (r, g, b) = if idx == 0 {
        (12, 12, 12)
    } else if idx == 1 {
        (197, 15, 31)
    } else if idx == 2 {
        (19, 161, 14)
    } else if idx == 3 {
        (193, 156, 0)
    } else if idx == 4 {
        (0, 55, 218)
    } else if idx == 5 {
        (136, 23, 152)
    } else if idx == 6 {
        (58, 150, 221)
    } else if idx == 7 {
        (204, 204, 204)
    } else if idx == 8 {
        (118, 118, 118)
    } else if idx == 9 {
        (231, 72, 86)
    } else if idx == 10 {
        (22, 198, 12)
    } else if idx == 11 {
        (249, 241, 165)
    } else if idx == 12 {
        (59, 120, 255)
    } else if idx == 13 {
        (180, 0, 158)
    } else if idx == 14 {
        (97, 214, 214)
    } else {
        (242, 242, 242)
    };
    Rgb::new(r, g, b)
}

fn palette_to_rgb(idx: u8) -> (c: Rgb)
    ensures
        is_rgb(c, palette_color(idx)),
{
    if idx < 16 {
        standard_to_rgb(idx)
    } else if idx < 232 {
        let i = idx - 16;
        Rgb::new((i / 36) * 51, ((i / 6) % 6) * 51, (i % 6) * 51)
    } else {
        let g = (idx - 232) * 10 + 8;
        Rgb::new(g, g, g)
    }
}

fn try_parse_color(v: &[u8]) -> (r: Option<Rgb>)
    ensures
        match color_of(v@) {
            Some(rgb) => r matches Some(c) && is_rgb(c, rgb),
            None => r is None,
        },
{
    if v.len() >= 2 && v[0] == 5 {
        Some(palette_to_rgb(v[1]))
    } else if v.len() >= 4 && v[0] == 2 {
        Some(Rgb::new(v[1], v[2], v[3]))
    } else {
        None
    }
}

/// Parses a sequence of SGR parameters into a style change.
pub fn try_parse_sgr(v: &[u8]) -> (r: Option<Sgr>)
    ensures
        sgr_matches(v@, r),
        r == sgr_of(v@),
{
    let r = parse_sgr(v);
    proof {
        lemma_sgr_unique(v@, r, sgr_of(v@));
    }
    r
}

fn parse_sgr(v: &[u8]) -> (r: Option<Sgr>)
    ensures
        sgr_matches(v@, r),
{
    if v.len() == 0 {
        return None;
    }
    let code = v[0];
    if code == 0 {
        Some(Sgr::Reset)
    } else if code == 4 {
        Some(Sgr::Underline)
    } else if code == 9 {
        Some(Sgr::CrossedOut)
    } else if code == 24 {
        Some(Sgr::UnderlineOff)
    } else if code == 29 {
        Some(Sgr::NotCrossedOut)
    } else if code == 39 {
        Some(Sgr::DefaultTextColor)
    } else if code == 49 {
        Some(Sgr::DefaultBackgroundColor)
    } else if 30 <= code && code <= 37 {
        Some(Sgr::ChangeTextColor(standard_to_rgb(code - 30)))
    } else if 90 <= code && code <= 97 {
        Some(Sgr::ChangeTextColor(standard_to_rgb(code - 82)))
    } else if 40 <= code && code <= 47 {
        Some(Sgr::ChangeBackgroundColor(standard_to_rgb(code - 40)))
    } else if 100 <= code && code <= 107 {
        Some(Sgr::ChangeBackgroundColor(standard_to_rgb(code - 92)))
    } else if code == 38 || code == 48 {
        let rest = slice_skip_first(v);
        match try_parse_color(rest) {
            Some(c) => if code == 38 {
                Some(Sgr::ChangeTextColor(c))
            } else {
                Some(Sgr::ChangeBackgroundColor(c))
            },
            None => None,
        }
    } else {
        None
    }
}

/// The parameters after the first.
fn slice_skip_first(v: &[u8]) -> (r: &[u8])
    requires
        v@.len() >= 1,
    ensures
        r@ == v@.skip(1),
{
    let r = vstd::slice::slice_subrange(v, 1, v.len());
    assert(r@ =~= v@.skip(1));
    r
}

} // verus!
