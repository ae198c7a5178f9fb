//! Signed two-dimensional deltas.

use vstd::prelude::*;

verus! {

/// A signed displacement on the grid.
#[derive(Debug, Clone, Copy, PartialEq, Eq, Structural, Hash, Default)]
pub struct Offset {
    pub x: i32,
    pub y: i32,
}

impl Offset {
    /// The displacement `(x, y)`.
    pub fn new(x: i32, y: i32) -> (r: Self)
        ensures
            r == (Offset { x, y }),
    {
        Offset { x, y }
    }

    /// A purely horizontal displacement.
    pub fn x(x: i32) -> (r: Self)
        ensures
            r == (Offset { x, y: 0 }),
    {
        Offset { x, y: 0 }
    }

    /// A purely vertical displacement.
    pub fn y(y: i32) -> (r: Self)
        ensures
            r == (Offset { x: 0, y }),
    {
        Offset { x: 0, y }
    }

    /// The displacement that undoes `self`, where both components can be
    /// negated within `i32`.
    pub open spec fn reversed(self) -> Offset {
        Offset { x: (-self.x) as i32, y: (-self.y) as i32 }
    }

    /// Whether both components can be negated within `i32`.
    pub open spec fn negatable(self) -> bool {
        self.x != i32::MIN && self.y != i32::MIN
    }

    /// The componentwise sum of two displacements, where it fits `i32`.
    pub open spec fn plus(self, rhs: Offset) -> Offset {
        Offset { x: (self.x + rhs.x) as i32, y: (self.y + rhs.y) as i32 }
    }

    /// Whether the componentwise sum fits `i32`.
    pub open spec fn summable(self, rhs: Offset) -> bool {
        &&& i32::MIN <= self.x + rhs.x <= i32::MAX
        &&& i32::MIN <= self.y + rhs.y <= i32::MAX
    }
}

impl core::ops::Neg for Offset {
    type Output = Offset;

    fn neg(self) -> (r: Offset) {
        Offset { x: -self.x, y: -self.y }
    }
}

impl vstd::std_specs::ops::NegSpecImpl for Offset {
    open spec fn obeys_neg_spec() -> bool {
        true
    }

    open spec fn neg_req(self) -> bool {
        self.negatable()
    }

    open spec fn neg_spec(self) -> Offset {
        self.reversed()
    }
}

impl core::ops::Add for Offset {
    type Output = Offset;

    fn add(self, rhs: Offset) -> (r: Offset) {
        Offset { x: self.x + rhs.x, y: self.y + rhs.y }
    }
}

impl vstd::std_specs::ops::AddSpecImpl for Offset {
    open spec fn obeys_add_spec() -> bool {
        true
    }

    open spec fn add_req(self, rhs: Offset) -> bool {
        self.summable(rhs)
    }

    open spec fn add_spec(self, rhs: Offset) -> Offset {
        self.plus(rhs)
    }
}

} // verus!
