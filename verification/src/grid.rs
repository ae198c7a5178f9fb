//! The board: a full rectangle of cells that never changes shape.

use vstd::prelude::*;
use crate::column_iter::{ColumnIter, ColumnsIter};
use crate::flat_map::FlatMap;
use crate::pos::Pos;
use crate::row_iter::{RowIter, RowsIter};
use crate::tile::{RockKind, Tile};

verus! {

/// A rectangular board with one element in every cell.
#[derive(Debug, Clone, PartialEq, Eq)]
pub struct Grid<T = Tile> {
    cells: FlatMap<T>,
}

/// Whether `rows` form a rectangle: every row is as long as the first.
pub open spec fn rectangular<T>(rows: Seq<Vec<T>>) -> bool {
    forall|i: int| 0 <= i < rows.len() ==> (#[trigger] rows[i])@.len() == rows[0]@.len()
}

/// The common length of the rows of a rectangle, 0 when there is no row.
pub open spec fn row_length<T>(rows: Seq<Vec<T>>) -> nat {
    if rows.len() == 0 {
        0
    } else {
        rows[0]@.len()
    }
}

/// The first cell of a board of `width` columns and `height` rows, if the
/// board has any cell.
pub open spec fn first_cell(width: nat, height: nat) -> Option<Pos> {
    if width > 0 && height > 0 {
        Some(Pos { x: 0, y: 0 })
    } else {
        None
    }
}

/// The cell after `pos` when the board is read row after row, if there is
/// one.
pub open spec fn cell_after(width: nat, height: nat, pos: Pos) -> Option<Pos> {
    if pos.x + 1 < width {
        Some(Pos { x: (pos.x + 1) as u32, y: pos.y })
    } else if pos.y + 1 < height {
        Some(Pos { x: 0, y: (pos.y + 1) as u32 })
    } else {
        None
    }
}

/// A walk over all the cells of a board, row after row.
pub struct AllPosIter {
    width: u32,
    height: u32,
    at: Pos,
}

impl AllPosIter {
    /// The walk is on the board or has just left it.
    pub closed spec fn wf(&self) -> bool {
        self.at.x < self.width || (self.at.x == 0 && self.width == 0)
    }

    /// The columns and rows of the board that is walked.
    pub closed spec fn sides(&self) -> (nat, nat) {
        (self.width as nat, self.height as nat)
    }

    /// The cell that comes next, or `None` once every cell was handed out.
    pub closed spec fn upcoming(&self) -> Option<Pos> {
        if self.at.x < self.width && self.at.y < self.height {
            Some(self.at)
        } else {
            None
        }
    }

    /// The next cell, or `None` once every cell was handed out.
    pub fn next(&mut self) -> (r: Option<Pos>)
        requires
            old(self).wf(),
        ensures
            final(self).wf(),
            final(self).sides() == old(self).sides(),
            r == old(self).upcoming(),
            final(self).upcoming() == (match old(self).upcoming() {
                Some(pos) => cell_after(old(self).sides().0, old(self).sides().1, pos),
                None => None::<Pos>,
            }),
    {
        if self.at.x >= self.width || self.at.y >= self.height {
            return None;
        }
        let current = self.at;
        if self.at.x + 1 < self.width {
            self.at.x = self.at.x + 1;
        } else {
            self.at.x = 0;
            self.at.y = self.at.y + 1;
        }
        Some(current)
    }
}

impl<T> Grid<T> {
    /// The board is a full rectangle whose sides fit `u32`.
    pub closed spec fn wf(&self) -> bool {
        &&& self.cells.wf()
        &&& self.cells.width <= u32::MAX
        &&& self.cells.height <= u32::MAX
    }

    /// The number of columns.
    pub closed spec fn cols(&self) -> nat {
        self.cells.width as nat
    }

    /// The number of rows.
    pub closed spec fn rows_count(&self) -> nat {
        self.cells.height as nat
    }

    /// Whether `pos` names a cell of the board.
    pub open spec fn covers(&self, pos: Pos) -> bool {
        pos.x < self.cols() && pos.y < self.rows_count()
    }

    /// The element in the cell `pos`, for a cell of the board.
    pub closed spec fn at(&self, pos: Pos) -> T {
        self.cells.at(pos)
    }

    /// The element in the cell `pos`, or `None` off the board.
    pub open spec fn cell(&self, pos: Pos) -> Option<T> {
        if self.covers(pos) {
            Some(self.at(pos))
        } else {
            None
        }
    }

    /// Every cell of the board has its own place among the cells read row
    /// after row.
    pub proof fn lemma_cell_listed(&self, p: Pos)
        requires
            self.wf(),
            self.covers(p),
        ensures
            0 <= p.y * self.cols() + p.x < self.cols() * self.rows_count(),
    {
        self.cells.lemma_index_in_range(p);
    }

    /// The sides of a board fit `u32`.
    pub proof fn lemma_sides_fit(&self)
        requires
            self.wf(),
        ensures
            self.cols() <= u32::MAX,
            self.rows_count() <= u32::MAX,
    {
    }

    /// The number of columns.
    #[must_use]
    pub fn width(&self) -> (r: u32)
        requires
            self.wf(),
        ensures
            r == self.cols(),
    {
        self.cells.width as u32
    }

    /// The number of rows.
    #[must_use]
    pub fn height(&self) -> (r: u32)
        requires
            self.wf(),
        ensures
            r == self.rows_count(),
    {
        self.cells.height as u32
    }

    /// The element in the cell `pos`, or `None` off the board.
    #[must_use]
    pub fn get(&self, pos: &Pos) -> (r: Option<&T>)
        requires
            self.wf(),
        ensures
            r == (match self.cell(*pos) {
                Some(t) => Some(&t),
                None => None::<&T>,
            }),
    {
        self.cells.try_index(pos)
    }

    /// The element in the cell `pos`, open to change, or `None` off the
    /// board.
    pub fn get_mut(&mut self, pos: &Pos) -> (r: Option<&mut T>)
        requires
            old(self).wf(),
        ensures
            final(self).wf(),
            final(self).cols() == old(self).cols(),
            final(self).rows_count() == old(self).rows_count(),
            r.is_some() == old(self).covers(*pos),
            match r {
                Some(cell) => {
                    &&& *cell == old(self).at(*pos)
                    &&& final(self).at(*pos) == *final(cell)
                    &&& forall|p: Pos|
                        old(self).covers(p) && p != *pos ==> #[trigger] final(self).at(p) == old(
                            self,
                        ).at(p)
                },
                None => *final(self) == *old(self),
            },
    {
        if (pos.y as usize) < self.cells.height && (pos.x as usize) < self.cells.width {
            proof {
                self.cells.lemma_index_in_range(*pos);
            }
            let i: usize = self.cells.get_index(pos);
            proof {
                assert forall|p: Pos| old(self).covers(p) && p != *pos implies old(
                    self,
                ).cells.index_of(p) != i && 0 <= old(self).cells.index_of(p) < old(
                    self,
                ).cells.elements@.len() by {
                    old(self).cells.lemma_index_in_range(p);
                    if old(self).cells.index_of(p) == i {
                        old(self).cells.lemma_index_injective(p, *pos);
                    }
                }
            }
            Some(&mut self.cells.elements[i])
        } else {
            None
        }
    }

    /// The board as one vector, row after row.
    pub closed spec fn flat(&self) -> FlatMap<T> {
        self.cells
    }

    /// What the flat form of a board holds.
    pub proof fn lemma_flat(&self)
        requires
            self.wf(),
        ensures
            self.flat().wf(),
            self.flat().width == self.cols(),
            self.flat().height == self.rows_count(),
            forall|p: Pos| self.covers(p) ==> #[trigger] self.flat().at(p) == self.at(p),
    {
    }

    /// Turns the board into one vector, row after row.
    pub fn into_flat(self) -> (r: FlatMap<T>)
        ensures
            r == self.flat(),
    {
        self.cells
    }

    /// Takes a board that lies in one vector. Gives `None` unless the vector
    /// holds one element per cell and the sides fit `u32`.
    pub fn from_flat(flat: FlatMap<T>) -> (r: Option<Self>)
        ensures
            r is Some <==> flat.wf() && flat.width <= u32::MAX && flat.height <= u32::MAX,
            r is Some ==> r->Some_0.wf() && r->Some_0.flat() == flat,
    {
        if flat.width > u32::MAX as usize || flat.height > u32::MAX as usize {
            return None;
        }
        // the product of two numbers that fit `u32` fits `u64`
        assert(flat.width * flat.height <= 0xffff_fffe_0000_0001) by (nonlinear_arith)
            requires
                0 <= flat.width <= 0xffff_ffff,
                0 <= flat.height <= 0xffff_ffff,
        ;
        let cells: u64 = (flat.width as u64) * (flat.height as u64);
        if flat.elements.len() as u64 != cells {
            return None;
        }
        Some(Grid { cells: flat })
    }

    /// Exchanges the elements of two cells. Does nothing unless both cells
    /// lie on the board.
    pub fn swap(&mut self, pos1: &Pos, pos2: &Pos)
        requires
            old(self).wf(),
        ensures
            final(self).wf(),
            final(self).cols() == old(self).cols(),
            final(self).rows_count() == old(self).rows_count(),
            old(self).covers(*pos1) && old(self).covers(*pos2) ==> {
                &&& final(self).at(*pos1) == old(self).at(*pos2)
                &&& final(self).at(*pos2) == old(self).at(*pos1)
                &&& forall|p: Pos|
                    old(self).covers(p) && p != *pos1 && p != *pos2 ==> #[trigger] final(self).at(
                        p,
                    ) == old(self).at(p)
            },
            !(old(self).covers(*pos1) && old(self).covers(*pos2)) ==> *final(self) == *old(self),
    {
        let on_board = (pos1.x as usize) < self.cells.width && (pos1.y as usize)
            < self.cells.height && (pos2.x as usize) < self.cells.width && (pos2.y as usize)
            < self.cells.height;
        if on_board {
            self.cells.swap(pos1, pos2);
        }
    }

    /// All the cells of the board, row after row.
    pub fn all_pos_ordered(&self) -> (r: Vec<Pos>)
        requires
            self.wf(),
        ensures
            r@.len() == self.cols() * self.rows_count(),
            forall|p: Pos| self.covers(p) ==> #[trigger] r@[p.y * self.cols() + p.x] == p,
            forall|i: int| 0 <= i < r@.len() ==> self.covers(#[trigger] r@[i]),
    {
        let width: u32 = self.width();
        let height: u32 = self.height();
        let mut r: Vec<Pos> = Vec::new();
        let mut y: u32 = 0;
        while y < height
            invariant
                y <= height,
                width == self.cols(),
                height == self.rows_count(),
                r@.len() == y * width,
                forall|p: Pos| self.covers(p) && p.y < y ==> #[trigger] r@[p.y * width + p.x] == p,
                forall|i: int| 0 <= i < r@.len() ==> self.covers(#[trigger] r@[i]),
            decreases height - y,
        {
            let mut x: u32 = 0;
            while x < width
                invariant
                    y < height,
                    x <= width,
                    width == self.cols(),
                    height == self.rows_count(),
                    r@.len() == y * width + x,
                    forall|p: Pos|
                        self.covers(p) && (p.y < y || (p.y == y && p.x < x)) ==> #[trigger] r@[p.y
                            * width + p.x] == p,
                    forall|i: int| 0 <= i < r@.len() ==> self.covers(#[trigger] r@[i]),
                decreases width - x,
            {
                let ghost before = r@;
                r.push(Pos { x, y });
                proof {
                    assert forall|p: Pos|
                        self.covers(p) && (p.y < y || (p.y == y && p.x < x + 1)) implies #[trigger] r@[p.y
                        * width + p.x] == p by {
                        if p.y < y {
                            assert(p.y * width + width <= y * width) by (nonlinear_arith)
                                requires
                                    p.y + 1 <= y,
                                    0 <= width,
                            ;
                            assert(0 <= p.y * width) by (nonlinear_arith)
                                requires
                                    0 <= p.y,
                                    0 <= width,
                            ;
                            assert(r@[p.y * width + p.x] == before[p.y * width + p.x]);
                        } else if p.x < x {
                            assert(r@[p.y * width + p.x] == before[p.y * width + p.x]);
                        }
                    }
                }
                x = x + 1;
            }
            proof {
                assert((y + 1) * width == y * width + width) by (nonlinear_arith);
            }
            y = y + 1;
        }
        proof {
            assert(height * width == width * height) by (nonlinear_arith);
        }
        r
    }

    /// All the cells of the board.
    pub fn all_pos(&self) -> (r: Vec<Pos>)
        requires
            self.wf(),
        ensures
            r@.len() == self.cols() * self.rows_count(),
            forall|p: Pos| self.covers(p) ==> r@.contains(p),
            forall|i: int| 0 <= i < r@.len() ==> self.covers(#[trigger] r@[i]),
    {
        let r = self.all_pos_ordered();
        proof {
            assert forall|p: Pos| self.covers(p) implies r@.contains(p) by {
                self.cells.lemma_index_in_range(p);
                assert(r@[p.y * self.cols() + p.x] == p);
            }
        }
        r
    }

    /// A walk over the rows, from top to bottom.
    #[must_use]
    pub fn rows(&self) -> (r: RowsIter<'_, T>)
        ensures
            r.board() == *self,
            r.upcoming() == 0,
    {
        RowsIter::new(self)
    }

    /// A walk along the row `row`, from left to right.
    #[must_use]
    pub fn row_iter(&self, row: u32) -> (r: RowIter<'_, T>)
        ensures
            r.board() == *self,
            r.upcoming() == (Pos { x: 0, y: row }),
    {
        RowIter::new(self, row)
    }

    /// A walk over the columns, from left to right.
    #[must_use]
    pub fn columns(&self) -> (r: ColumnsIter<'_, T>)
        ensures
            r.board() == *self,
            r.upcoming() == 0,
    {
        ColumnsIter::new(self)
    }

    /// A walk down the column `col`, from top to bottom.
    #[must_use]
    pub fn column_iter(&self, col: u32) -> (r: ColumnIter<'_, T>)
        ensures
            r.board() == *self,
            r.upcoming() == (Pos { x: col, y: 0 }),
    {
        ColumnIter::new(self, col)
    }

    /// A walk over all the cells, row after row.
    #[must_use]
    pub fn all_pos_iter(&self) -> (r: AllPosIter)
        requires
            self.wf(),
        ensures
            r.wf(),
            r.upcoming() == first_cell(self.cols(), self.rows_count()),
            r.sides() == (self.cols(), self.rows_count()),
    {
        AllPosIter { width: self.width(), height: self.height(), at: Pos { x: 0, y: 0 } }
    }

    /// Builds the board whose row `y` is `rows[y]`.
    ///
    /// Gives `None` unless the rows form a rectangle whose sides fit `u32`.
    pub fn new(rows: Vec<Vec<T>>) -> (r: Option<Self>)
        ensures
            r.is_some() <==> rectangular(rows@) && rows@.len() <= u32::MAX && row_length(rows@)
                <= u32::MAX,
            r.is_some() ==> {
                let m = r.unwrap();
                &&& m.wf()
                &&& m.rows_count() == rows@.len()
                &&& m.cols() == row_length(rows@)
                &&& forall|p: Pos| #[trigger]
                    m.covers(p) ==> m.at(p) == rows@[p.y as int]@[p.x as int]
            },
    {
        let ghost given = rows@;
        let mut rest = rows;
        let height: usize = rest.len();
        let width: usize = if height == 0 {
            0
        } else {
            rest[0].len()
        };
        if height > u32::MAX as usize || width > u32::MAX as usize {
            return None;
        }
        let mut elements: Vec<T> = Vec::new();
        let mut y: usize = 0;
        while y < height
            invariant
                given == rows@,
                height == given.len(),
                width == row_length(given),
                y <= height,
                rest@.len() == height - y,
                forall|i: int| 0 <= i < height - y ==> rest@[i] == given[y + i],
                forall|i: int| 0 <= i < y ==> (#[trigger] given[i])@.len() == width,
                elements@.len() == y * width,
                forall|i: int, j: int|
                    0 <= i < y && 0 <= j < width ==> elements@[i * width + j]
                        == #[trigger] given[i]@[j],
            decreases height - y,
        {
            let mut row: Vec<T> = rest.remove(0);
            assert(row == given[y as int]);
            if row.len() != width {
                assert(!rectangular(given));
                return None;
            }
            let ghost before = elements@;
            elements.append(&mut row);
            proof {
                let w = width as int;
                let yy = y as int;
                assert((yy + 1) * w == yy * w + w) by (nonlinear_arith);
                assert forall|i: int, j: int| 0 <= i < yy + 1 && 0 <= j < w implies elements@[i
                    * w + j] == #[trigger] given[i]@[j] by {
                    if i < yy {
                        assert(i * w + w <= yy * w) by (nonlinear_arith)
                            requires
                                i + 1 <= yy,
                                0 <= w,
                        ;
                        assert(0 <= i * w) by (nonlinear_arith)
                            requires
                                0 <= i,
                                0 <= w,
                        ;
                        assert(elements@[i * w + j] == before[i * w + j]);
                    } else {
                        assert(elements@[yy * w + j] == given[yy]@[j]);
                    }
                }
            }
            y = y + 1;
        }
        let cells = FlatMap { width, height, elements };
        let m = Grid { cells };
        proof {
            assert(height * width == width * height) by (nonlinear_arith);
            assert(rectangular(given));
            assert forall|p: Pos| #[trigger] m.covers(p) implies m.at(p) == given[p.y as int]@[p.x as int] by {
                m.cells.lemma_index_in_range(p);
                assert(m.cells.elements@[(p.y as int) * (width as int) + (p.x as int)]
                    == given[p.y as int]@[p.x as int]);
            }
        }
        Some(m)
    }
}

impl Grid<Tile> {
    /// A board of `x` columns and `y` rows of free floor.
    #[must_use]
    pub fn with_size(x: u32, y: u32) -> (r: Self)
        requires
            x * y <= usize::MAX,
        ensures
            r.wf(),
            r.cols() == x,
            r.rows_count() == y,
            forall|p: Pos| r.covers(p) ==> #[trigger] r.at(p) == (Tile { rock: RockKind::Empty }),
    {
        let mut elements: Vec<Tile> = Vec::new();
        let mut row: u32 = 0;
        while row < y
            invariant
                row <= y,
                x * y <= usize::MAX,
                elements@.len() == row * x,
                forall|i: int|
                    0 <= i < elements@.len() ==> elements@[i] == (Tile { rock: RockKind::Empty }),
            decreases y - row,
        {
            let mut col: u32 = 0;
            while col < x
                invariant
                    row < y,
                    col <= x,
                    elements@.len() == row * x + col,
                    forall|i: int|
                        0 <= i < elements@.len() ==> elements@[i] == (Tile {
                            rock: RockKind::Empty,
                        }),
                decreases x - col,
            {
                elements.push(Tile { rock: RockKind::Empty });
                col = col + 1;
            }
            proof {
                assert((row + 1) * x == row * x + x) by (nonlinear_arith);
            }
            row = row + 1;
        }
        proof {
            assert(y * x == x * y) by (nonlinear_arith);
        }
        let cells = FlatMap { width: x as usize, height: y as usize, elements };
        let r = Grid { cells };
        proof {
            assert forall|p: Pos| r.covers(p) implies #[trigger] r.at(p) == (Tile {
                rock: RockKind::Empty,
            }) by {
                r.cells.lemma_index_in_range(p);
            }
        }
        r
    }
}

impl<T> From<Grid<T>> for FlatMap<T> {
    fn from(value: Grid<T>) -> (r: FlatMap<T>) {
        value.into_flat()
    }
}

impl<T> vstd::std_specs::convert::FromSpecImpl<Grid<T>> for FlatMap<T> {
    open spec fn obeys_from_spec() -> bool {
        true
    }

    open spec fn from_spec(value: Grid<T>) -> FlatMap<T> {
        value.flat()
    }
}

} // verus!
