//! [`Side`] — the shared edge/placement vocabulary used by sheets, tooltips and
//! popovers.
use vstd::prelude::*;

verus! {

/// An edge or placement direction.
#[derive(Clone, Copy, Debug, PartialEq, Eq, Structural)]
pub enum Side {
    Left,
    Right,
    Top,
    Bottom,
}

/// The side opposite to `s`.
pub open spec fn opposite(s: Side) -> Side {
    match s {
        Side::Left => Side::Right,
        Side::Right => Side::Left,
        Side::Top => Side::Bottom,
        Side::Bottom => Side::Top,
    }
}

impl Side {
    /// The opposite side (used when flipping a tooltip/popover that would exit the
    /// window on this side).
    pub fn flip(self) -> (r: Side)
        ensures
            r == opposite(self),
    {
        match self {
            Side::Left => Side::Right,
            Side::Right => Side::Left,
            Side::Top => Side::Bottom,
            Side::Bottom => Side::Top,
        }
    }
}

/// Flipping twice gives back the side you started from, and a flip never lands on
/// the same side.
pub proof fn flip_is_an_involution(s: Side)
    ensures
        opposite(opposite(s)) == s,
        opposite(s) != s,
{
}

} // verus!
