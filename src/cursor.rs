//! Horizontal position within a line, tab stops, and the width of whitespace.
use vstd::prelude::*;

verus! {

/// Where a tab that starts at `position` ends: the distance to the next multiple of the
/// tab pitch (a full pitch when `position` is already on one). A pitch of zero makes
/// tabs empty.
pub open spec fn tab_advance(position: nat, pitch: nat) -> nat {
    if pitch == 0 {
        0
    } else {
        (pitch - position % pitch) as nat
    }
}

/// A tab moves the cursor to the nearest tab stop that lies strictly to its right: the
/// distance is positive, the cursor lands on a multiple of the pitch, and no multiple of
/// the pitch lies strictly between the start and the end of the tab.
pub proof fn lemma_tab_reaches_next_stop(position: nat, pitch: nat)
    requires
        pitch > 0,
    ensures
        0 < tab_advance(position, pitch) <= pitch,
        ((position + tab_advance(position, pitch)) as int) % (pitch as int) == 0,
        forall|d: nat|
            0 < d < tab_advance(position, pitch) ==> #[trigger] (((position + d) as int) % (pitch
                as int)) != 0,
{
    let r = position % pitch;
    let q = position / pitch;
    assert(position == q * pitch + r) by (nonlinear_arith)
        requires
            r == position % pitch,
            q == position / pitch,
            pitch > 0,
    ;
    assert(0 <= r < pitch);
    assert(((position + (pitch - r)) as int) % (pitch as int) == 0) by (nonlinear_arith)
        requires
            position == q * pitch + r,
            pitch > 0,
            0 <= r < pitch,
    {
        assert(position + (pitch - r) == (q + 1) * pitch);
        vstd::arithmetic::div_mod::lemma_mod_multiples_basic((q + 1) as int, pitch as int);
    }
    assert forall|d: nat| 0 < d < tab_advance(position, pitch) implies #[trigger] (((position
        + d) as int) % (pitch as int)) != 0 by {
        assert(position + d == q * pitch + (r + d));
        assert(0 < r + d < pitch);
        vstd::arithmetic::div_mod::lemma_fundamental_div_mod_converse(
            (position + d) as int,
            pitch as int,
            q as int,
            (r + d) as int,
        );
    }
}

/// Whether a move by `by` from `position` keeps the cursor within a line of `width`.
pub open spec fn move_fits(position: int, by: int, width: int) -> bool {
    0 <= position + by <= width
}

/// Position information within a single line.
#[derive(Clone, Copy, Debug)]
pub struct LineCursor {
    position: u32,
    width: u32,
    tab_width: u32,
}

impl LineCursor {
    #[verifier::type_invariant]
    spec fn inv(&self) -> bool {
        self.position <= self.width
    }

    /// Pixels from the start of the line to the cursor.
    pub closed spec fn position(&self) -> nat {
        self.position as nat
    }

    /// The width of the line in pixels.
    pub closed spec fn width(&self) -> nat {
        self.width as nat
    }

    /// The tab pitch in pixels.
    pub closed spec fn tab_width(&self) -> nat {
        self.tab_width as nat
    }

    /// Creates a cursor at the start of a line of the given width.
    pub fn new(width: u32, tab_width: u32) -> (r: Self)
        ensures
            r.position() == 0,
            r.width() == width,
            r.tab_width() == tab_width,
    {
        LineCursor { position: 0, width, tab_width }
    }

    /// Pixels from the start of the line to the cursor.
    pub fn position_px(&self) -> (r: u32)
        ensures
            r == self.position(),
    {
        self.position
    }

    /// The width of the line in pixels.
    pub fn line_width(&self) -> (r: u32)
        ensures
            r == self.width(),
    {
        self.width
    }

    /// The space left from the cursor to the end of the line.
    pub fn space(&self) -> (r: u32)
        ensures
            r == self.width() - self.position(),
            self.position() <= self.width(),
    {
        proof {
            use_type_invariant(self);
        }
        self.width - self.position
    }

    /// Whether a piece of the given width fits between the cursor and the end of the line.
    pub fn fits_in_line(&self, width: u32) -> (r: bool)
        ensures
            r == (self.position() + width <= self.width()),
    {
        width <= self.space()
    }

    /// Moves the cursor by `by` pixels where the move keeps it within the line, and returns
    /// `Ok(by)`. Where it does not, the cursor stays and `Err` holds the longest move in the
    /// same direction that would have fit.
    pub fn move_cursor(&mut self, by: i32) -> (r: Result<i32, i32>)
        ensures
            final(self).width() == old(self).width(),
            final(self).tab_width() == old(self).tab_width(),
            final(self).position() <= final(self).width(),
            move_fits(old(self).position() as int, by as int, old(self).width() as int) ==> r == Ok::<i32, i32>(
                by,
            ) && final(self).position() == old(self).position() + by,
            !move_fits(old(self).position() as int, by as int, old(self).width() as int) ==> *final(self)
                == *old(self),
            old(self).position() + by > old(self).width() ==> r == Err::<i32, i32>(
                (old(self).width() - old(self).position()) as i32,
            ),
            old(self).position() + by < 0 ==> r == Err::<i32, i32>(
                (-old(self).position()) as i32,
            ),
    {
        proof {
            use_type_invariant(&*self);
        }
        if by < 0 {
            let back = (0i64 - by as i64) as u32;
            if back <= self.position {
                self.position = self.position - back;
                Ok(by)
            } else {
                Err(-(self.position as i32))
            }
        } else {
            let space = self.width - self.position;
            if by as u32 <= space {
                self.position = self.position + by as u32;
                Ok(by)
            } else {
                Err(space as i32)
            }
        }
    }

    /// The distance from the cursor to the next tab stop.
    pub fn next_tab_width(&self) -> (r: u32)
        ensures
            r == tab_advance(self.position(), self.tab_width()),
    {
        if self.tab_width == 0 {
            0
        } else {
            self.tab_width - self.position % self.tab_width
        }
    }
}

/// The width of `n` space units where the first `extra` of them are one pixel wider,
/// capped at `u32::MAX`.
pub open spec fn spaces_width(n: nat, space_width: nat, extra: nat) -> nat {
    let w = n * space_width + if n < extra {
        n
    } else {
        extra
    };
    if w > u32::MAX {
        u32::MAX as nat
    } else {
        w
    }
}

/// The width of whitespace: one space unit, and for justified text a number of units
/// that are one pixel wider.
#[derive(Clone, Copy, Debug)]
pub struct SpaceConfig {
    space_width: u32,
    space_count: Option<u32>,
}

impl SpaceConfig {
    /// The width of one space unit.
    pub closed spec fn unit(&self) -> nat {
        self.space_width as nat
    }

    /// How many of the coming space units are one pixel wider.
    pub closed spec fn extra(&self) -> nat {
        match self.space_count {
            Some(c) => c as nat,
            None => 0,
        }
    }

    /// Creates a configuration with the given unit width; `space_count` is the number of
    /// coming units that are one pixel wider, if any.
    pub fn new(space_width: u32, space_count: Option<u32>) -> (r: Self)
        ensures
            r.unit() == space_width,
            r.extra() == match space_count {
                Some(c) => c as nat,
                None => 0,
            },
    {
        SpaceConfig { space_width, space_count }
    }

    /// The width of one space unit.
    pub fn space_width(&self) -> (r: u32)
        ensures
            r == self.unit(),
    {
        self.space_width
    }

    /// Takes `n` space units from the budget and returns their total width.
    pub fn consume(&mut self, n: u32) -> (r: u32)
        ensures
            r == spaces_width(n as nat, old(self).unit(), old(self).extra()),
            final(self).unit() == old(self).unit(),
            final(self).extra() == if n < old(self).extra() {
                old(self).extra() - n
            } else {
                0
            },
    {
        let a = n as u64;
        let b = self.space_width as u64;
        assert(a * b <= 0xffff_ffffu64 * 0xffff_ffffu64) by (nonlinear_arith)
            requires
                a <= 0xffff_ffffu64,
                b <= 0xffff_ffffu64,
        ;
        let base = a * b;
        let extra: u32 = match self.space_count {
            Some(c) => {
                let e = if n < c {
                    n
                } else {
                    c
                };
                self.space_count = Some(c - e);
                e
            },
            None => 0,
        };
        let w = base + extra as u64;
        if w > 0xffff_ffffu64 {
            0xffff_ffffu32
        } else {
            w as u32
        }
    }
}

} // verus!
