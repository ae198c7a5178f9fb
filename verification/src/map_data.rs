//! A level as it is loaded: the board and what it takes to win.

use vstd::prelude::*;
use crate::grid::Grid;
use crate::pos::Pos;
use crate::state::MapState;
use crate::tile::{RockKind, Tile};
use crate::win_condition::{RockWinConditions, WinCondition};
use crate::winning::WinError;

verus! {

/// The board of a level and its conditions.
#[derive(Debug, Clone)]
pub struct MapData {
    pub map: Grid<Tile>,
    pub win: WinCondition,
}

/// Whether the cell `p` comes before the cell `(x, y)` when the board is
/// read row by row.
pub open spec fn read_before(p: Pos, x: int, y: int) -> bool {
    p.y < y || (p.y == y && p.x < x)
}

/// The terrain that is left of `tile` when a loose rock on it is taken up.
pub open spec fn cleared(tile: Tile) -> Tile {
    if tile.rock == RockKind::RoundRock {
        Tile { rock: RockKind::Empty }
    } else {
        tile
    }
}

/// Takes the loose rocks off the board: every cell marked as a loose rock
/// becomes free floor, and the cells that were so marked are returned as the
/// rocks of the round.
pub fn prepare_map(map_data: &mut MapData) -> (initial_state: MapState)
    requires
        old(map_data).map.wf(),
    ensures
        final(map_data).map.wf(),
        final(map_data).win == old(map_data).win,
        final(map_data).map.cols() == old(map_data).map.cols(),
        final(map_data).map.rows_count() == old(map_data).map.rows_count(),
        forall|p: Pos|
            old(map_data).map.covers(p) ==> #[trigger] final(map_data).map.at(p) == cleared(
                old(map_data).map.at(p),
            ),
        initial_state.wf_on(final(map_data).map),
        forall|p: Pos|
            initial_state@.contains(p) <==> old(map_data).map.covers(p) && old(map_data).map.at(
                p,
            ).rock == RockKind::RoundRock,
{
    let mut initial_state = MapState::new();
    let width: u32 = map_data.map.width();
    let height: u32 = map_data.map.height();
    let mut y: u32 = 0;
    while y < height
        invariant
            y <= height,
            map_data.map.wf(),
            map_data.win == old(map_data).win,
            width == old(map_data).map.cols(),
            height == old(map_data).map.rows_count(),
            map_data.map.cols() == width,
            map_data.map.rows_count() == height,
            initial_state.wf(),
            forall|p: Pos|
                old(map_data).map.covers(p) ==> #[trigger] map_data.map.at(p) == (if read_before(
                    p,
                    0,
                    y as int,
                ) {
                    cleared(old(map_data).map.at(p))
                } else {
                    old(map_data).map.at(p)
                }),
            forall|p: Pos|
                initial_state@.contains(p) <==> old(map_data).map.covers(p) && read_before(
                    p,
                    0,
                    y as int,
                ) && old(map_data).map.at(p).rock == RockKind::RoundRock,
        decreases height - y,
    {
        let mut x: u32 = 0;
        while x < width
            invariant
                y < height,
                x <= width,
                map_data.map.wf(),
                map_data.win == old(map_data).win,
                width == old(map_data).map.cols(),
                height == old(map_data).map.rows_count(),
                map_data.map.cols() == width,
                map_data.map.rows_count() == height,
                initial_state.wf(),
                forall|p: Pos|
                    old(map_data).map.covers(p) ==> #[trigger] map_data.map.at(p)
                        == (if read_before(p, x as int, y as int) {
                        cleared(old(map_data).map.at(p))
                    } else {
                        old(map_data).map.at(p)
                    }),
                forall|p: Pos|
                    initial_state@.contains(p) <==> old(map_data).map.covers(p) && read_before(
                        p,
                        x as int,
                        y as int,
                    ) && old(map_data).map.at(p).rock == RockKind::RoundRock,
            decreases width - x,
        {
            let pos = Pos { x, y };
            assert(map_data.map.covers(pos));
            let ghost before = map_data.map;
            let mut found = false;
            match map_data.map.get_mut(&pos) {
                Some(tile) => {
                    if tile.rock == RockKind::RoundRock {
                        tile.rock = RockKind::Empty;
                        found = true;
                    }
                },
                None => {},
            }
            if found {
                initial_state.insert(pos);
            }
            proof {
                assert forall|p: Pos| old(map_data).map.covers(p) implies #[trigger] map_data.map.at(
                    p,
                ) == (if read_before(p, x + 1, y as int) {
                    cleared(old(map_data).map.at(p))
                } else {
                    old(map_data).map.at(p)
                }) by {
                    if p != pos {
                        assert(map_data.map.at(p) == before.at(p));
                    }
                }
            }
            x = x + 1;
        }
        y = y + 1;
    }
    proof {
        assert forall|p: Pos| #[trigger] initial_state@.contains(p) implies map_data.map.covers(p)
            && map_data.map.at(p).rock != RockKind::SquareRock by {
            assert(old(map_data).map.covers(p));
        }
    }
    initial_state
}

/// How one cell is shown.
#[derive(Debug, Clone, Copy, PartialEq, Eq, Structural, Hash)]
pub struct ShownCell {
    /// The glyph of the cell: that of a loose rock where one lies, else that
    /// of the terrain.
    pub glyph: char,
    /// Whether a rock has to reach this cell.
    pub target: bool,
}

/// How the cell of terrain `tile` is shown when `rock` tells whether a
/// loose rock lies on it and `target` whether a rock has to get there.
pub open spec fn shown(tile: Tile, rock: bool, target: bool) -> ShownCell {
    ShownCell {
        glyph: if rock {
            RockKind::RoundRock.glyph()
        } else {
            tile.rock.glyph()
        },
        target,
    }
}

/// Whether `pos` is one of `cells`.
pub fn is_listed(cells: &Vec<Pos>, pos: &Pos) -> (r: bool)
    ensures
        r == cells@.contains(*pos),
{
    let mut i: usize = 0;
    while i < cells.len()
        invariant
            i <= cells@.len(),
            forall|k: int| 0 <= k < i ==> cells@[k] != *pos,
        decreases cells@.len() - i,
    {
        if cells[i].x == pos.x && cells[i].y == pos.y {
            assert(cells@[i as int] == *pos);
            return true;
        }
        i = i + 1;
    }
    false
}

/// How the board is shown, row by row: a loose rock hides the terrain under
/// it, and the cells that rocks have to reach are marked.
///
/// Refuses a level whose rocks have to leave through exits.
pub fn shown_rows(map_data: &MapData, state: &MapState) -> (r: Result<Vec<Vec<ShownCell>>, WinError>)
    requires
        map_data.map.wf(),
    ensures
        map_data.win.rocks is Exit <==> r is Err,
        r is Err ==> r->Err_0 == WinError::ExitUnsupported,
        r is Ok ==> {
            let rows = r->Ok_0;
            let targets = map_data.win.rocks->Pos_0@;
            &&& rows@.len() == map_data.map.rows_count()
            &&& forall|y: int|
                0 <= y < rows@.len() ==> (#[trigger] rows@[y])@.len() == map_data.map.cols()
            &&& forall|p: Pos| #[trigger]
                map_data.map.covers(p) ==> rows@[p.y as int]@[p.x as int] == shown(
                    map_data.map.at(p),
                    state@.contains(p),
                    targets.contains(p),
                )
        },
{
    let targets = match &map_data.win.rocks {
        RockWinConditions::Pos(targets) => targets,
        RockWinConditions::Exit(_) => return Err(WinError::ExitUnsupported),
    };
    let width: u32 = map_data.map.width();
    let height: u32 = map_data.map.height();
    let mut rows: Vec<Vec<ShownCell>> = Vec::new();
    let mut y: u32 = 0;
    while y < height
        invariant
            y <= height,
            map_data.map.wf(),
            width == map_data.map.cols(),
            height == map_data.map.rows_count(),
            map_data.win.rocks is Pos,
            targets@ == map_data.win.rocks->Pos_0@,
            rows@.len() == y,
            forall|j: int| 0 <= j < y ==> (#[trigger] rows@[j])@.len() == width,
            forall|p: Pos| #[trigger]
                map_data.map.covers(p) && p.y < y ==> rows@[p.y as int]@[p.x as int] == shown(
                    map_data.map.at(p),
                    state@.contains(p),
                    targets@.contains(p),
                ),
        decreases height - y,
    {
        let mut row: Vec<ShownCell> = Vec::new();
        let mut x: u32 = 0;
        while x < width
            invariant
                y < height,
                x <= width,
                map_data.map.wf(),
                width == map_data.map.cols(),
                height == map_data.map.rows_count(),
                row@.len() == x,
                forall|i: int|
                    0 <= i < x ==> #[trigger] row@[i] == shown(
                        map_data.map.at(Pos { x: i as u32, y }),
                        state@.contains(Pos { x: i as u32, y }),
                        targets@.contains(Pos { x: i as u32, y }),
                    ),
            decreases width - x,
        {
            let pos = Pos { x, y };
            assert(map_data.map.covers(pos));
            let glyph = if state.contains(&pos) {
                RockKind::RoundRock.to_char()
            } else {
                match map_data.map.get(&pos) {
                    Some(tile) => tile.to_char(),
                    None => RockKind::Empty.to_char(),
                }
            };
            row.push(ShownCell { glyph, target: is_listed(targets, &pos) });
            x = x + 1;
        }
        let ghost before = rows@;
        rows.push(row);
        proof {
            assert forall|p: Pos| #[trigger]
                map_data.map.covers(p) && p.y < y + 1 implies rows@[p.y as int]@[p.x as int]
                == shown(map_data.map.at(p), state@.contains(p), targets@.contains(p)) by {
                if p.y < y {
                    assert(rows@[p.y as int] == before[p.y as int]);
                } else {
                    assert(p == Pos { x: p.x as int as u32, y });
                    assert(rows@[p.y as int]@[p.x as int] == row@[p.x as int]);
                }
            }
        }
        y = y + 1;
    }
    Ok(rows)
}

} // verus!
