//! The text form of a board.
//!
//! A board is written row by row, one row per line. The cells of a row are
//! single glyphs, set apart by blanks. Lines without a glyph are skipped.

use vstd::prelude::*;
use vstd::string::*;
use crate::grid::{rectangular, row_length, Grid};
use crate::pos::Pos;
use crate::tile::{RockKind, Tile};

verus! {

/// Whether `c` sets two glyphs of a row apart.
pub open spec fn is_blank(c: char) -> bool {
    c == ' ' || c == '\t' || c == '\r'
}

/// How far a text has been read.
pub struct Scan {
    /// The rows that are complete.
    pub rows: Seq<Seq<Tile>>,
    /// The cells of the row that is being read.
    pub row: Seq<Tile>,
    /// Whether the character just read was a glyph.
    pub joined: bool,
}

/// The state before anything is read.
pub open spec fn scan_start() -> Scan {
    Scan { rows: Seq::empty(), row: Seq::empty(), joined: false }
}

/// The rows read so far, the one being read included if it holds a cell.
pub open spec fn scan_rows(scan: Scan) -> Seq<Seq<Tile>> {
    if scan.row.len() > 0 {
        scan.rows.push(scan.row)
    } else {
        scan.rows
    }
}

/// Reads one more character: a line break ends the row, a blank ends the
/// glyph, and a glyph adds a cell unless it follows a glyph directly.
/// Anything else spoils the text.
pub open spec fn scan_step(scan: Scan, c: char) -> Option<Scan> {
    if c == '\n' {
        Some(Scan { rows: scan_rows(scan), row: Seq::empty(), joined: false })
    } else if is_blank(c) {
        Some(Scan { rows: scan.rows, row: scan.row, joined: false })
    } else {
        match RockKind::of_glyph(c) {
            Some(rock) => if scan.joined {
                None
            } else {
                Some(Scan { rows: scan.rows, row: scan.row.push(Tile { rock }), joined: true })
            },
            None => None,
        }
    }
}

/// The state after the whole of `text` is read, or `None` for a spoilt
/// text.
pub open spec fn scanned(text: Seq<char>) -> Option<Scan>
    decreases text.len(),
{
    if text.len() == 0 {
        Some(scan_start())
    } else {
        match scanned(text.drop_last()) {
            Some(scan) => scan_step(scan, text.last()),
            None => None,
        }
    }
}

/// The rows that `text` describes, or `None` for a spoilt text.
pub open spec fn rows_of_text(text: Seq<char>) -> Option<Seq<Seq<Tile>>> {
    match scanned(text) {
        Some(scan) => Some(scan_rows(scan)),
        None => None,
    }
}

/// The rows of `rows` as sequences.
pub open spec fn rows_view(rows: Seq<Vec<Tile>>) -> Seq<Seq<Tile>> {
    Seq::new(rows.len(), |i: int| rows[i]@)
}

/// Reads the rows of a board from its text form.
pub fn read_rows(text: &str) -> (r: Option<Vec<Vec<Tile>>>)
    ensures
        r is Some <==> rows_of_text(text@) is Some,
        r is Some ==> rows_view(r->Some_0@) == rows_of_text(text@)->Some_0,
{
    let mut rows: Vec<Vec<Tile>> = Vec::new();
    let mut row: Vec<Tile> = Vec::new();
    let mut joined = false;
    let count: usize = text.unicode_len();
    let mut i: usize = 0;
    proof {
        assert(rows_view(rows@) =~= Seq::<Seq<Tile>>::empty());
        assert(row@ =~= Seq::<Tile>::empty());
        assert(text@.take(0).len() == 0);
    }
    while i < count
        invariant
            i <= count,
            count == text@.len(),
            scanned(text@.take(i as int)) == Some(
                Scan { rows: rows_view(rows@), row: row@, joined },
            ),
        decreases count - i,
    {
        let c: char = text.get_char(i);
        let ghost before = Scan { rows: rows_view(rows@), row: row@, joined };
        proof {
            assert(text@.take(i + 1).drop_last() =~= text@.take(i as int));
            assert(text@.take(i + 1).last() == c);
        }
        if c == '\n' {
            if row.len() > 0 {
                let ghost old_rows = rows@;
                rows.push(row);
                row = Vec::new();
                assert(rows_view(rows@) =~= rows_view(old_rows).push(before.row));
            }
            assert(row@ =~= Seq::<Tile>::empty());
            joined = false;
        } else if c == ' ' || c == '\t' || c == '\r' {
            joined = false;
        } else {
            match RockKind::from_char(c) {
                Some(rock) => {
                    if joined {
                        proof {
                            lemma_spoilt_stays(text@, i + 1);
                        }
                        return None;
                    }
                    row.push(Tile { rock });
                    joined = true;
                },
                None => {
                    proof {
                        lemma_spoilt_stays(text@, i + 1);
                    }
                    return None;
                },
            }
        }
        i = i + 1;
    }
    assert(text@.take(count as int) =~= text@);
    if row.len() > 0 {
        let ghost old_rows = rows@;
        let ghost last = row@;
        rows.push(row);
        assert(rows_view(rows@) =~= rows_view(old_rows).push(last));
    }
    Some(rows)
}

/// A text with a spoilt beginning is spoilt.
pub proof fn lemma_spoilt_stays(text: Seq<char>, n: int)
    requires
        0 <= n <= text.len(),
        scanned(text.take(n)) is None,
    ensures
        scanned(text) is None,
    decreases text.len() - n,
{
    if n < text.len() {
        assert(text.take(n + 1).drop_last() =~= text.take(n));
        lemma_spoilt_stays(text, n + 1);
    } else {
        assert(text.take(n) =~= text);
    }
}

/// Whether `rows` form a rectangle whose sides fit `u32`.
pub open spec fn fits_board(rows: Seq<Seq<Tile>>) -> bool {
    &&& rows.len() <= u32::MAX
    &&& forall|i: int| 0 <= i < rows.len() ==> (#[trigger] rows[i]).len() == rows[0].len()
    &&& rows.len() > 0 ==> rows[0].len() <= u32::MAX
}

/// Reads a board from its text form.
///
/// Gives `None` for a spoilt text and for rows of different lengths.
pub fn read_grid(text: &str) -> (r: Option<Grid<Tile>>)
    ensures
        r is Some <==> rows_of_text(text@) is Some && fits_board(rows_of_text(text@)->Some_0),
        r is Some ==> {
            let grid = r->Some_0;
            let rows = rows_of_text(text@)->Some_0;
            &&& grid.wf()
            &&& grid.rows_count() == rows.len()
            &&& rows.len() > 0 ==> grid.cols() == rows[0].len()
            &&& rows.len() == 0 ==> grid.cols() == 0
            &&& forall|p: Pos| #[trigger] grid.covers(p) ==> grid.at(p) == rows[p.y as int][p.x as int]
        },
{
    match read_rows(text) {
        Some(rows) => {
            proof {
                let seen = rows_view(rows@);
                assert(seen.len() == rows@.len());
                assert forall|i: int| 0 <= i < rows@.len() implies #[trigger] seen[i] == rows@[i]@ by {}
                if rectangular(rows@) && rows@.len() <= u32::MAX && row_length(rows@) <= u32::MAX {
                    assert forall|i: int| 0 <= i < seen.len() implies (#[trigger] seen[i]).len()
                        == seen[0].len() by {
                        assert(rows@[i]@.len() == rows@[0]@.len());
                    }
                }
                if fits_board(seen) {
                    assert forall|i: int| 0 <= i < rows@.len() implies (#[trigger] rows@[i])@.len()
                        == rows@[0]@.len() by {
                        assert(seen[i].len() == seen[0].len());
                    }
                }
            }
            Grid::new(rows)
        },
        None => None,
    }
}

} // verus!
