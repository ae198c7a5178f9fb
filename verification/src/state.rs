//! The loose rocks of a round: a set of occupied cells.

use vstd::prelude::*;
use crate::grid::Grid;
use crate::pos::Pos;
use crate::tile::{RockKind, Tile};

verus! {

/// The cells that hold a loose rock. No cell is listed twice.
#[derive(Debug, Clone)]
pub struct MapState {
    rock_positions: Vec<Pos>,
}

impl View for MapState {
    type V = Set<Pos>;

    closed spec fn view(&self) -> Set<Pos> {
        self.rock_positions@.to_set()
    }
}

impl MapState {
    /// Whether a rock of `other` lies on every cell that holds a rock of
    /// `self`.
    fn within(&self, other: &MapState) -> (r: bool)
        ensures
            r == self@.subset_of(other@),
    {
        let mut i: usize = 0;
        while i < self.rock_positions.len()
            invariant
                i <= self.rock_positions@.len(),
                forall|j: int| 0 <= j < i ==> other@.contains(self.rock_positions@[j]),
            decreases self.rock_positions@.len() - i,
        {
            if !other.contains(&self.rock_positions[i]) {
                assert(self@.contains(self.rock_positions@[i as int]));
                return false;
            }
            i = i + 1;
        }
        proof {
            assert forall|p: Pos| self@.contains(p) implies other@.contains(p) by {
                let k = choose|k: int|
                    0 <= k < self.rock_positions@.len() && self.rock_positions@[k] == p;
                assert(other@.contains(self.rock_positions@[k]));
            }
        }
        true
    }
}

impl PartialEq for MapState {
    fn eq(&self, other: &MapState) -> (r: bool) {
        let r = self.within(other) && other.within(self);
        proof {
            if self@.subset_of(other@) && other@.subset_of(self@) {
                assert(self@ =~= other@);
            }
        }
        r
    }
}

impl Eq for MapState {

}

impl vstd::std_specs::cmp::PartialEqSpecImpl for MapState {
    open spec fn obeys_eq_spec() -> bool {
        true
    }

    open spec fn eq_spec(&self, other: &MapState) -> bool {
        self@ == other@
    }
}

/// Whether every cell of `rocks` lies on `grid` and none of them is a wall.
pub open spec fn rocks_fit(grid: Grid<Tile>, rocks: Set<Pos>) -> bool {
    forall|p: Pos| #[trigger]
        rocks.contains(p) ==> grid.covers(p) && grid.at(p).rock != RockKind::SquareRock
}

impl MapState {
    /// No cell is listed twice.
    pub closed spec fn wf(&self) -> bool {
        self.rock_positions@.no_duplicates()
    }

    /// The rocks lie on `grid`, none of them inside a wall.
    pub open spec fn wf_on(&self, grid: Grid<Tile>) -> bool {
        self.wf() && rocks_fit(grid, self@)
    }

    /// The cells in the order in which they were added.
    pub closed spec fn listing(&self) -> Seq<Pos> {
        self.rock_positions@
    }

    /// The listing names each rock once, and nothing else.
    pub proof fn lemma_listing(&self)
        requires
            self.wf(),
        ensures
            self.listing().no_duplicates(),
            self.listing().to_set() == self@,
            self@.finite(),
            self@.len() == self.listing().len(),
    {
        self.rock_positions@.unique_seq_to_set();
        vstd::seq_lib::seq_to_set_is_finite(self.rock_positions@);
    }

    /// A board without rocks.
    pub fn new() -> (r: Self)
        ensures
            r.wf(),
            r@ == Set::<Pos>::empty(),
    {
        let r = MapState { rock_positions: Vec::new() };
        assert(r.rock_positions@.to_set() =~= Set::<Pos>::empty());
        r
    }

    /// The number of rocks.
    pub fn len(&self) -> (r: usize)
        requires
            self.wf(),
        ensures
            r == self@.len(),
    {
        proof {
            self.lemma_listing();
        }
        self.rock_positions.len()
    }

    /// Whether there is no rock at all.
    pub fn is_empty(&self) -> (r: bool)
        requires
            self.wf(),
        ensures
            r == (self@ == Set::<Pos>::empty()),
    {
        proof {
            self.lemma_listing();
            if self.rock_positions@.len() == 0 {
                assert(self@ =~= Set::<Pos>::empty());
            } else {
                assert(self@.contains(self.rock_positions@[0]));
            }
        }
        self.rock_positions.len() == 0
    }

    /// Whether a rock lies at `pos`.
    pub fn contains(&self, pos: &Pos) -> (r: bool)
        ensures
            r == self@.contains(*pos),
    {
        let mut i: usize = 0;
        while i < self.rock_positions.len()
            invariant
                i <= self.rock_positions@.len(),
                forall|j: int| 0 <= j < i ==> self.rock_positions@[j] != *pos,
            decreases self.rock_positions@.len() - i,
        {
            if self.rock_positions[i].x == pos.x && self.rock_positions[i].y == pos.y {
                assert(self.rock_positions@[i as int] == *pos);
                return true;
            }
            i = i + 1;
        }
        false
    }

    /// Puts a rock at `pos`. Returns whether the cell was free before.
    pub fn insert(&mut self, pos: Pos) -> (r: bool)
        requires
            old(self).wf(),
        ensures
            final(self).wf(),
            final(self)@ == old(self)@.insert(pos),
            r == !old(self)@.contains(pos),
    {
        if self.contains(&pos) {
            assert(self@.insert(pos) =~= self@);
            false
        } else {
            proof {
                self.rock_positions@.lemma_push_to_set_commute(pos);
            }
            self.rock_positions.push(pos);
            true
        }
    }

    /// Takes the rock at `pos` away. Returns whether there was one.
    pub fn remove(&mut self, pos: &Pos) -> (r: bool)
        requires
            old(self).wf(),
        ensures
            final(self).wf(),
            final(self)@ == old(self)@.remove(*pos),
            r == old(self)@.contains(*pos),
    {
        let mut i: usize = 0;
        while i < self.rock_positions.len()
            invariant
                *self == *old(self),
                self.wf(),
                i <= self.rock_positions@.len(),
                forall|j: int| 0 <= j < i ==> self.rock_positions@[j] != *pos,
            decreases self.rock_positions@.len() - i,
        {
            if self.rock_positions[i].x == pos.x && self.rock_positions[i].y == pos.y {
                let ghost before = self.rock_positions@;
                self.rock_positions.remove(i);
                proof {
                    let after = self.rock_positions@;
                    assert(before[i as int] == *pos);
                    assert(after =~= before.remove(i as int));
                    assert forall|p: Pos| after.to_set().contains(p) <==> before.to_set().remove(
                        *pos,
                    ).contains(p) by {
                        if after.contains(p) {
                            let k = choose|k: int| 0 <= k < after.len() && after[k] == p;
                            if k < i {
                                assert(before[k] == p);
                            } else {
                                assert(before[k + 1] == p);
                            }
                        }
                        if before.contains(p) && p != *pos {
                            let k = choose|k: int| 0 <= k < before.len() && before[k] == p;
                            if k < i {
                                assert(after[k] == p);
                            } else {
                                assert(after[k - 1] == p);
                            }
                        }
                    }
                    assert(after.to_set() =~= before.to_set().remove(*pos));
                }
                return true;
            }
            i = i + 1;
        }
        assert(self@.remove(*pos) =~= self@);
        false
    }

    /// The cells that hold a rock, each once, in the order in which they
    /// were added.
    pub fn positions(&self) -> (r: Vec<Pos>)
        ensures
            r@ == self.listing(),
    {
        let mut out: Vec<Pos> = Vec::new();
        let mut i: usize = 0;
        while i < self.rock_positions.len()
            invariant
                i <= self.rock_positions@.len(),
                out@ == self.rock_positions@.take(i as int),
            decreases self.rock_positions@.len() - i,
        {
            out.push(self.rock_positions[i]);
            assert(out@ =~= self.rock_positions@.take(i + 1));
            i = i + 1;
        }
        assert(out@ =~= self.rock_positions@);
        out
    }

    /// The rock set that holds exactly the cells of `cells`.
    pub fn from_positions(cells: &Vec<Pos>) -> (r: Self)
        ensures
            r.wf(),
            r@ == cells@.to_set(),
    {
        let mut r = MapState::new();
        let mut i: usize = 0;
        while i < cells.len()
            invariant
                i <= cells@.len(),
                r.wf(),
                r@ == cells@.take(i as int).to_set(),
            decreases cells@.len() - i,
        {
            proof {
                cells@.take(i as int).lemma_push_to_set_commute(cells@[i as int]);
                assert(cells@.take(i + 1) =~= cells@.take(i as int).push(cells@[i as int]));
            }
            r.insert(cells[i]);
            i = i + 1;
        }
        assert(cells@.take(cells@.len() as int) =~= cells@);
        r
    }
}

} // verus!
