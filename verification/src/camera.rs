//! The camera: a position in the noise field that moves in fixed steps.
//!
//! Positions are whole numbers of world units. A screen pixel is
//! `UNITS_PER_PIXEL` world units wide, so one unit is a tenth of a pixel.

use vstd::prelude::*;

verus! {

/// World units per screen pixel.
pub const UNITS_PER_PIXEL: i64 = 10;

/// The length of one move of the camera, in world units.
pub const SPEED: i64 = 1;

/// Where a camera starts on both axes, in world units: just off the
/// lattice of whole pixels.
pub const ORIGIN: i64 = 1;

/// The position `p` moved one step to the left.
pub open spec fn left_of(p: (int, int)) -> (int, int) {
    (p.0 - SPEED, p.1)
}

/// The position `p` moved one step up.
pub open spec fn up_of(p: (int, int)) -> (int, int) {
    (p.0, p.1 - SPEED)
}

/// The position `p` moved one step to the right.
pub open spec fn right_of(p: (int, int)) -> (int, int) {
    (p.0 + SPEED, p.1)
}

/// The position `p` moved one step down.
pub open spec fn down_of(p: (int, int)) -> (int, int) {
    (p.0, p.1 + SPEED)
}

/// Something with a position in the noise field, in world units.
#[derive(Clone, Copy, Debug, PartialEq, Eq, Structural)]
pub struct GameObject {
    pub x: i64,
    pub y: i64,
}

impl GameObject {
    /// The position, as a pair of integers.
    pub open spec fn position(&self) -> (int, int) {
        (self.x as int, self.y as int)
    }

    /// An object at `ORIGIN` on both axes.
    pub fn new() -> (cam: GameObject)
        ensures
            cam.position() == (ORIGIN as int, ORIGIN as int),
    {
        GameObject { x: ORIGIN, y: ORIGIN }
    }

    /// Moves one step to the left.
    pub fn move_left(&mut self)
        requires
            old(self).x - SPEED >= i64::MIN,
        ensures
            final(self).position() == left_of(old(self).position()),
    {
        self.x = self.x - SPEED;
    }

    /// Moves one step up.
    pub fn move_up(&mut self)
        requires
            old(self).y - SPEED >= i64::MIN,
        ensures
            final(self).position() == up_of(old(self).position()),
    {
        self.y = self.y - SPEED;
    }

    /// Moves one step to the right.
    pub fn move_right(&mut self)
        requires
            old(self).x + SPEED <= i64::MAX,
        ensures
            final(self).position() == right_of(old(self).position()),
    {
        self.x = self.x + SPEED;
    }

    /// Moves one step down.
    pub fn move_down(&mut self)
        requires
            old(self).y + SPEED <= i64::MAX,
        ensures
            final(self).position() == down_of(old(self).position()),
    {
        self.y = self.y + SPEED;
    }
}

/// A step to one side and a step back lead to where one started, on both
/// axes and in both orders.
pub proof fn lemma_moves_cancel(p: (int, int))
    ensures
        left_of(right_of(p)) == p,
        right_of(left_of(p)) == p,
        up_of(down_of(p)) == p,
        down_of(up_of(p)) == p,
{
}

/// Four steps down add four times `SPEED` to `y` and leave `x` alone.
pub proof fn lemma_four_steps_down(p: (int, int))
    ensures
        down_of(down_of(down_of(down_of(p)))) == (p.0, p.1 + 4 * SPEED),
{
}

} // verus!
