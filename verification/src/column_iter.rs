//! Walking a board along its columns.

use vstd::prelude::*;
use crate::grid::Grid;
use crate::offset::Offset;
use crate::pos::{Pos, W};

verus! {

/// A walk along one column, from top to bottom.
pub struct ColumnIter<'a, T> {
    map: &'a Grid<T>,
    at: Pos,
}

/// A walk over the columns, from left to right.
pub struct ColumnsIter<'a, T> {
    map: &'a Grid<T>,
    column: u32,
}

impl<'a, T> ColumnIter<'a, T> {
    /// The board that is walked.
    pub closed spec fn board(&self) -> Grid<T> {
        *self.map
    }

    /// The cell that comes next.
    pub closed spec fn upcoming(&self) -> Pos {
        self.at
    }

    /// A walk down the column `column` of `map`.
    pub fn new(map: &'a Grid<T>, column: u32) -> (r: Self)
        ensures
            r.board() == *map,
            r.upcoming() == (Pos { x: column, y: 0 }),
    {
        ColumnIter { map, at: Pos { x: column, y: 0 } }
    }

    /// The element of the next cell, or `None` once the walk has left the
    /// board.
    pub fn next(&mut self) -> (r: Option<&'a T>)
        requires
            old(self).board().wf(),
        ensures
            final(self).board() == old(self).board(),
            r == (match old(self).board().cell(old(self).upcoming()) {
                Some(t) => Some(&t),
                None => None::<&T>,
            }),
            final(self).upcoming() == (if old(self).board().covers(old(self).upcoming()) {
                Pos { x: old(self).upcoming().x, y: (old(self).upcoming().y + 1) as u32 }
            } else {
                old(self).upcoming()
            }),
    {
        let map: &'a Grid<T> = self.map;
        let current = match map.get(&self.at) {
            Some(t) => t,
            None => return None,
        };
        proof {
            map.lemma_sides_fit();
        }
        self.at = match W(&self.at).try_add(&Offset::y(1)) {
            Some(p) => p,
            None => return None,
        };
        Some(current)
    }
}

impl<'a, T> ColumnsIter<'a, T> {
    /// The board that is walked.
    pub closed spec fn board(&self) -> Grid<T> {
        *self.map
    }

    /// The number of the column that comes next.
    pub closed spec fn upcoming(&self) -> u32 {
        self.column
    }

    /// A walk over the columns of `map`.
    pub fn new(map: &'a Grid<T>) -> (r: Self)
        ensures
            r.board() == *map,
            r.upcoming() == 0,
    {
        ColumnsIter { map, column: 0 }
    }

    /// A walk down the next column, or `None` once every column was handed out.
    pub fn next(&mut self) -> (r: Option<ColumnIter<'a, T>>)
        requires
            old(self).board().wf(),
        ensures
            final(self).board() == old(self).board(),
            r is Some <==> old(self).upcoming() < old(self).board().cols(),
            r is Some ==> {
                &&& r->Some_0.board() == old(self).board()
                &&& r->Some_0.upcoming() == (Pos { x: old(self).upcoming(), y: 0 })
                &&& final(self).upcoming() == old(self).upcoming() + 1
            },
            r is None ==> final(self).upcoming() == old(self).upcoming(),
    {
        let map: &'a Grid<T> = self.map;
        if self.column >= map.width() {
            return None;
        }
        self.column = self.column + 1;
        Some(ColumnIter::new(map, self.column - 1))
    }
}

} // verus!
