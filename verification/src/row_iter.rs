//! Walking a board along its rows.

use vstd::prelude::*;
use crate::grid::Grid;
use crate::offset::Offset;
use crate::pos::{Pos, W};

verus! {

/// A walk along one row, from left to right.
pub struct RowIter<'a, T> {
    map: &'a Grid<T>,
    at: Pos,
}

/// A walk over the rows, from top to bottom.
pub struct RowsIter<'a, T> {
    map: &'a Grid<T>,
    row: u32,
}

impl<'a, T> RowIter<'a, T> {
    /// The board that is walked.
    pub closed spec fn board(&self) -> Grid<T> {
        *self.map
    }

    /// The cell that comes next.
    pub closed spec fn upcoming(&self) -> Pos {
        self.at
    }

    /// A walk along the row `row` of `map`.
    pub fn new(map: &'a Grid<T>, row: u32) -> (r: Self)
        ensures
            r.board() == *map,
            r.upcoming() == (Pos { x: 0, y: row }),
    {
        RowIter { map, at: Pos { x: 0, y: row } }
    }

    /// The element of the next cell, or `None` once the walk has left the
    /// board.
    pub fn next(&mut self) -> (r: Option<&'a T>)
        requires
            old(self).board().wf(),
        ensures
            final(self).board() == old(self).board(),
            r == (match old(self).board().cell(old(self).upcoming()) {
                Some(t) => Some(&t),
                None => None::<&T>,
            }),
            final(self).upcoming() == (if old(self).board().covers(old(self).upcoming()) {
                Pos { x: (old(self).upcoming().x + 1) as u32, y: old(self).upcoming().y }
            } else {
                old(self).upcoming()
            }),
    {
        let map: &'a Grid<T> = self.map;
        let current = match map.get(&self.at) {
            Some(t) => t,
            None => return None,
        };
        proof {
            map.lemma_sides_fit();
        }
        self.at = match W(&self.at).try_add(&Offset::x(1)) {
            Some(p) => p,
            None => return None,
        };
        Some(current)
    }
}

impl<'a, T> RowsIter<'a, T> {
    /// The board that is walked.
    pub closed spec fn board(&self) -> Grid<T> {
        *self.map
    }

    /// The number of the row that comes next.
    pub closed spec fn upcoming(&self) -> u32 {
        self.row
    }

    /// A walk over the rows of `map`.
    pub fn new(map: &'a Grid<T>) -> (r: Self)
        ensures
            r.board() == *map,
            r.upcoming() == 0,
    {
        RowsIter { map, row: 0 }
    }

    /// A walk along the next row, or `None` once every row was handed out.
    pub fn next(&mut self) -> (r: Option<RowIter<'a, T>>)
        requires
            old(self).board().wf(),
        ensures
            final(self).board() == old(self).board(),
            r is Some <==> old(self).upcoming() < old(self).board().rows_count(),
            r is Some ==> {
                &&& r->Some_0.board() == old(self).board()
                &&& r->Some_0.upcoming() == (Pos { x: 0, y: old(self).upcoming() })
                &&& final(self).upcoming() == old(self).upcoming() + 1
            },
            r is None ==> final(self).upcoming() == old(self).upcoming(),
    {
        let map: &'a Grid<T> = self.map;
        if self.row >= map.height() {
            return None;
        }
        self.row = self.row + 1;
        Some(RowIter::new(map, self.row - 1))
    }
}

} // verus!
