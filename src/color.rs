//! Colors.
use vstd::prelude::*;

verus! {

/// 24bit RGB color
#[derive(Debug, PartialEq, Eq, Structural, Clone, Copy)]
pub struct Rgb {
    pub(crate) r: u8,
    pub(crate) g: u8,
    pub(crate) b: u8,
}

impl Rgb {
    /// The red channel.
    pub closed spec fn red(&self) -> u8 {
        self.r
    }

    /// The green channel.
    pub closed spec fn green(&self) -> u8 {
        self.g
    }

    /// The blue channel.
    pub closed spec fn blue(&self) -> u8 {
        self.b
    }

    /// Two colors with the same channels are the same color.
    pub proof fn lemma_same_channels(a: Rgb, b: Rgb)
        ensures
            (a.red() == b.red() && a.green() == b.green() && a.blue() == b.blue()) ==> a == b,
    {
    }

    /// Creates a new color value.
    pub fn new(r: u8, g: u8, b: u8) -> (c: Self)
        ensures
            c.red() == r,
            c.green() == g,
            c.blue() == b,
    {
        Self { r, g, b }
    }

    /// The red channel.
    pub fn r(&self) -> (v: u8)
        ensures
            v == self.red(),
    {
        self.r
    }

    /// The green channel.
    pub fn g(&self) -> (v: u8)
        ensures
            v == self.green(),
    {
        self.g
    }

    /// The blue channel.
    pub fn b(&self) -> (v: u8)
        ensures
            v == self.blue(),
    {
        self.b
    }
}

} // verus!
