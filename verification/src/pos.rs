//! Unsigned grid coordinates and checked movement.

use vstd::prelude::*;
use crate::grid::Grid;
use crate::offset::Offset;

verus! {

/// A cell coordinate: `x` counts columns from the left, `y` rows from the top.
#[derive(Debug, Clone, Copy, PartialEq, Eq, Structural, Hash, PartialOrd, Ord, Default)]
pub struct Pos {
    pub x: u32,
    pub y: u32,
}

/// Where `pos` lands when displaced by `offset`, if both coordinates stay
/// within `u32`.
pub open spec fn displaced(pos: Pos, offset: Offset) -> Option<Pos> {
    if 0 <= pos.x + offset.x <= u32::MAX && 0 <= pos.y + offset.y <= u32::MAX {
        Some(Pos { x: (pos.x + offset.x) as u32, y: (pos.y + offset.y) as u32 })
    } else {
        None
    }
}

impl Pos {
    /// The coordinate `(x, y)`.
    pub fn new(x: u32, y: u32) -> (r: Self)
        ensures
            r == (Pos { x, y }),
    {
        Pos { x, y }
    }

    /// The componentwise sum of two coordinates, where it fits `u32`.
    pub open spec fn plus(self, rhs: Pos) -> Pos {
        Pos { x: (self.x + rhs.x) as u32, y: (self.y + rhs.y) as u32 }
    }

    /// Whether the componentwise sum fits `u32`.
    pub open spec fn summable(self, rhs: Pos) -> bool {
        self.x + rhs.x <= u32::MAX && self.y + rhs.y <= u32::MAX
    }
}

impl core::ops::Add for Pos {
    type Output = Pos;

    fn add(self, rhs: Pos) -> (r: Pos) {
        Pos { x: self.x + rhs.x, y: self.y + rhs.y }
    }
}

impl vstd::std_specs::ops::AddSpecImpl for Pos {
    open spec fn obeys_add_spec() -> bool {
        true
    }

    open spec fn add_req(self, rhs: Pos) -> bool {
        self.summable(rhs)
    }

    open spec fn add_spec(self, rhs: Pos) -> Pos {
        self.plus(rhs)
    }
}

impl core::ops::AddAssign for Pos {
    fn add_assign(&mut self, rhs: Pos)
        requires
            old(self).summable(rhs),
        ensures
            *final(self) == old(self).plus(rhs),
    {
        self.x = self.x + rhs.x;
        self.y = self.y + rhs.y;
    }
}

/// A borrowed value with the movement operations attached to it.
pub struct W<T>(pub T);

impl<'a> W<&'a Pos> {
    /// Displaces the coordinate by `rhs`; `None` when a component would
    /// leave `u32`.
    #[must_use]
    pub fn try_add(&self, rhs: &Offset) -> (r: Option<Pos>)
        ensures
            r == displaced(*self.0, *rhs),
    {
        let x: u32 = match self.0.x.checked_add_signed(rhs.x) {
            Some(x) => x,
            None => return None,
        };
        let y: u32 = match self.0.y.checked_add_signed(rhs.y) {
            Some(y) => y,
            None => return None,
        };
        Some(Pos { x, y })
    }

    /// Displaces the coordinate by `rhs` and keeps the result only if it
    /// lies on the board `map`.
    #[must_use]
    pub fn try_add_in_map<T>(&self, map: &Grid<T>, rhs: &Offset) -> (r: Option<Pos>)
        requires
            map.wf(),
        ensures
            r == (match displaced(*self.0, *rhs) {
                Some(pos) => if map.covers(pos) {
                    Some(pos)
                } else {
                    None
                },
                None => None,
            }),
    {
        match self.try_add(rhs) {
            Some(pos) => if pos.x < map.width() && pos.y < map.height() {
                Some(pos)
            } else {
                None
            },
            None => None,
        }
    }
}

impl<'a> W<&'a mut Pos> {
    /// Overwrites the borrowed coordinate with `rhs`.
    pub fn apply(&mut self, rhs: &Pos)
        ensures
            *final(self).0 == *rhs,
            *final(final(self).0) == *final(old(self).0),
    {
        self.0.x = rhs.x;
        self.0.y = rhs.y;
    }
}

} // verus!
