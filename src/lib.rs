//! Line breaking and text layout for fixed-width pixel regions.
use vstd::prelude::*;

pub mod escape;
pub mod font_ext;
pub mod line_iter;
pub mod middleware;
pub mod ansi;
pub mod color;
pub mod cursor;
pub mod parser;
pub mod plugin;

verus! {

} // verus!
