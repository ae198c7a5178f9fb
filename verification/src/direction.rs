//! The four tilt directions and the four reflector orientations.

use vstd::prelude::*;
use crate::offset::Offset;

verus! {

/// A direction in which the platform can be tilted and a rock can roll.
#[derive(Debug, Clone, Copy, PartialEq, Eq, Structural, Hash, PartialOrd, Ord)]
pub enum Horizontal {
    Top,
    Left,
    Right,
    Bottom,
}

impl Horizontal {
    /// The unit step of this direction: `y` grows downwards, `x` to the right.
    pub open spec fn offset(self) -> Offset {
        match self {
            Horizontal::Top => Offset { x: 0, y: -1i32 },
            Horizontal::Left => Offset { x: -1i32, y: 0 },
            Horizontal::Right => Offset { x: 1, y: 0 },
            Horizontal::Bottom => Offset { x: 0, y: 1 },
        }
    }

    /// The direction that points the other way.
    pub open spec fn opposite(self) -> Horizontal {
        match self {
            Horizontal::Top => Horizontal::Bottom,
            Horizontal::Left => Horizontal::Right,
            Horizontal::Right => Horizontal::Left,
            Horizontal::Bottom => Horizontal::Top,
        }
    }

    /// The unit step of this direction.
    #[must_use]
    pub fn to_offset(self) -> (r: Offset)
        ensures
            r == self.offset(),
    {
        match self {
            Horizontal::Top => Offset { x: 0, y: -1i32 },
            Horizontal::Left => Offset { x: -1i32, y: 0 },
            Horizontal::Right => Offset { x: 1, y: 0 },
            Horizontal::Bottom => Offset { x: 0, y: 1 },
        }
    }

    /// The direction that points the other way.
    #[must_use]
    pub fn reverse(self) -> (r: Horizontal)
        ensures
            r == self.opposite(),
            r.offset() == self.offset().reversed(),
    {
        match self {
            Horizontal::Top => Horizontal::Bottom,
            Horizontal::Left => Horizontal::Right,
            Horizontal::Right => Horizontal::Left,
            Horizontal::Bottom => Horizontal::Top,
        }
    }
}

/// The orientation of a reflector, named after the two directions that its
/// slanted face looks towards.
#[derive(Debug, Clone, Copy, PartialEq, Eq, Structural, Hash, PartialOrd, Ord)]
pub enum Diagonal {
    TopLeft,
    TopRight,
    BottomLeft,
    BottomRight,
}

impl Diagonal {
    /// The vertical component of the orientation.
    pub open spec fn vertical(self) -> Horizontal {
        match self {
            Diagonal::TopLeft | Diagonal::TopRight => Horizontal::Top,
            Diagonal::BottomLeft | Diagonal::BottomRight => Horizontal::Bottom,
        }
    }

    /// The sideways component of the orientation.
    pub open spec fn sideways(self) -> Horizontal {
        match self {
            Diagonal::TopLeft | Diagonal::BottomLeft => Horizontal::Left,
            Diagonal::TopRight | Diagonal::BottomRight => Horizontal::Right,
        }
    }

    /// The diagonal step of this orientation.
    pub open spec fn offset(self) -> Offset {
        match self {
            Diagonal::TopLeft => Offset { x: 1, y: -1i32 },
            Diagonal::TopRight => Offset { x: 1, y: 1 },
            Diagonal::BottomLeft => Offset { x: -1i32, y: 1 },
            Diagonal::BottomRight => Offset { x: -1i32, y: -1i32 },
        }
    }

    /// The diagonal step of this orientation.
    #[must_use]
    pub fn to_offset(self) -> (r: Offset)
        ensures
            r == self.offset(),
    {
        match self {
            Diagonal::TopLeft => Offset { x: 1, y: -1i32 },
            Diagonal::TopRight => Offset { x: 1, y: 1 },
            Diagonal::BottomLeft => Offset { x: -1i32, y: 1 },
            Diagonal::BottomRight => Offset { x: -1i32, y: -1i32 },
        }
    }

    /// The two components of the orientation: the vertical one first, the
    /// sideways one second.
    #[must_use]
    pub fn horizontals(self) -> (r: [Horizontal; 2])
        ensures
            r@ == seq![self.vertical(), self.sideways()],
    {
        match self {
            Diagonal::TopLeft => [Horizontal::Top, Horizontal::Left],
            Diagonal::TopRight => [Horizontal::Top, Horizontal::Right],
            Diagonal::BottomLeft => [Horizontal::Bottom, Horizontal::Left],
            Diagonal::BottomRight => [Horizontal::Bottom, Horizontal::Right],
        }
    }
}

} // verus!
