//! The tilt resolver: every loose rock rolls, one cell per pass, until a
//! whole pass moves nothing.
//!
//! A pass looks at the board as it stood when the pass began. Whether a rock
//! advances depends on that snapshot and on the rock alone, so the outcome of
//! a pass does not depend on the order in which the rocks are visited. The
//! model below therefore speaks of sets of rocks.

use vstd::prelude::*;
use vstd::relations::injective;
use crate::direction::Horizontal;
use crate::grid::Grid;
use crate::pos::{displaced, Pos, W};
use crate::state::{rocks_fit, MapState};
use crate::tile::{RockKind, Tile};

verus! {

/// A rock under way: where it is and where it is heading.
#[derive(Debug, Clone, Copy, PartialEq, Eq, Structural, Hash)]
pub struct MovingRock {
    pub pos: Pos,
    pub direction: Horizontal,
}

/// The heading with which a rock that travels towards `heading` enters a
/// cell of terrain `tile`, or `None` when the terrain keeps it out.
///
/// Free floor lets the rock pass unchanged. A wall stops it, and so does a
/// cell marked as a loose rock. A reflector can be entered only against one
/// of its two components, and sends the rock along the other one.
pub open spec fn deflected(tile: Tile, heading: Horizontal) -> Option<Horizontal> {
    match tile.rock {
        RockKind::Empty => Some(heading),
        RockKind::RoundRock | RockKind::SquareRock => None,
        RockKind::SingleReflect(diagonal) => {
            if heading.opposite() == diagonal.vertical() {
                Some(diagonal.sideways())
            } else if heading.opposite() == diagonal.sideways() {
                Some(diagonal.vertical())
            } else {
                None
            }
        },
    }
}

/// One rock's share of a pass, on a board where the cells of `occupied` held
/// a rock when the pass began.
///
/// The rock stays as it is when the next cell in its heading is off the
/// board or closed to it. Otherwise it takes the heading with which it would
/// enter that cell, and it moves there unless the cell was occupied.
pub open spec fn stepped(grid: Grid<Tile>, occupied: Set<Pos>, rock: MovingRock) -> MovingRock {
    match displaced(rock.pos, rock.direction.offset()) {
        None => rock,
        Some(next) => match grid.cell(next) {
            None => rock,
            Some(tile) => match deflected(tile, rock.direction) {
                None => rock,
                Some(heading) => if occupied.contains(next) {
                    MovingRock { pos: rock.pos, direction: heading }
                } else {
                    MovingRock { pos: next, direction: heading }
                },
            },
        },
    }
}

/// The cells that the rocks of `rocks` occupy.
pub open spec fn places(rocks: Set<MovingRock>) -> Set<Pos> {
    rocks.map(|r: MovingRock| r.pos)
}

/// The rocks after one pass.
pub open spec fn pass_of(grid: Grid<Tile>, rocks: Set<MovingRock>) -> Set<MovingRock> {
    rocks.map(|r: MovingRock| stepped(grid, places(rocks), r))
}

/// Whether a pass would leave every rock where it is.
pub open spec fn is_still(grid: Grid<Tile>, rocks: Set<MovingRock>) -> bool {
    forall|r: MovingRock| #[trigger]
        rocks.contains(r) ==> stepped(grid, places(rocks), r).pos == r.pos
}

/// The rocks after `n` passes.
pub open spec fn after_passes(grid: Grid<Tile>, rocks: Set<MovingRock>, n: nat) -> Set<
    MovingRock,
>
    decreases n,
{
    if n == 0 {
        rocks
    } else {
        pass_of(grid, after_passes(grid, rocks, (n - 1) as nat))
    }
}

/// The rocks of `rocks`, all heading towards `direction`.
pub open spec fn launched(rocks: Set<Pos>, direction: Horizontal) -> Set<MovingRock> {
    rocks.map(|p: Pos| MovingRock { pos: p, direction })
}

/// Whether the rocks come to rest after `n` passes and not before.
pub open spec fn rests_after(grid: Grid<Tile>, rocks: Set<MovingRock>, n: nat) -> bool {
    &&& is_still(grid, after_passes(grid, rocks, n))
    &&& forall|m: nat| m < n ==> !#[trigger] is_still(grid, after_passes(grid, rocks, m))
}

/// Whether the rocks ever come to rest.
pub open spec fn settles(grid: Grid<Tile>, rocks: Set<MovingRock>) -> bool {
    exists|n: nat| #[trigger] is_still(grid, after_passes(grid, rocks, n))
}

/// The number of passes that move a rock before the first pass that moves
/// none.
pub open spec fn passes_needed(grid: Grid<Tile>, rocks: Set<MovingRock>) -> nat {
    choose|n: nat| rests_after(grid, rocks, n)
}

/// Where the rocks of `rocks` lie once a tilt towards `direction` has come
/// to rest.
pub open spec fn settled(grid: Grid<Tile>, rocks: Set<Pos>, direction: Horizontal) -> Set<Pos> {
    let start = launched(rocks, direction);
    places(after_passes(grid, start, passes_needed(grid, start)))
}

/// The board holds no reflector.
pub open spec fn reflector_free(grid: Grid<Tile>) -> bool {
    forall|p: Pos| #[trigger] grid.covers(p) ==> !(grid.at(p).rock is SingleReflect)
}

impl MovingRock {
    /// The next cell in the rock's heading, if its coordinates fit `u32`.
    pub fn try_get_next_pos(&self) -> (r: Option<Pos>)
        ensures
            r == displaced(self.pos, self.direction.offset()),
    {
        W(&self.pos).try_add(&self.direction.to_offset())
    }
}

/// Lets the terrain of the next cell act on the rock: gives the rock the
/// heading with which it enters, or reports that it is kept out.
pub fn try_adjust_rock_movement_from_new_tile(
    tile_at_next_position: &Tile,
    moving_rock: &mut MovingRock,
) -> (passable: bool)
    ensures
        passable == deflected(*tile_at_next_position, old(moving_rock).direction).is_some(),
        final(moving_rock).pos == old(moving_rock).pos,
        final(moving_rock).direction == (match deflected(
            *tile_at_next_position,
            old(moving_rock).direction,
        ) {
            Some(heading) => heading,
            None => old(moving_rock).direction,
        }),
{
    match tile_at_next_position.rock {
        RockKind::Empty => true,
        RockKind::RoundRock | RockKind::SquareRock => false,
        RockKind::SingleReflect(diagonal) => {
            let components = diagonal.horizontals();
            let back = moving_rock.direction.reverse();
            let keep_first = components[0] != back;
            let keep_second = components[1] != back;
            if keep_first && !keep_second {
                moving_rock.direction = components[0];
                true
            } else if keep_second && !keep_first {
                moving_rock.direction = components[1];
                true
            } else {
                false
            }
        },
    }
}

/// One rock's share of a pass. Returns whether the rock moved.
pub fn try_move_and_update_rock(
    moving_rock: &mut MovingRock,
    grid: &Grid<Tile>,
    state: &MapState,
) -> (moved: bool)
    requires
        grid.wf(),
    ensures
        *final(moving_rock) == stepped(*grid, state@, *old(moving_rock)),
        moved == (final(moving_rock).pos != old(moving_rock).pos),
{
    let next_pos = match moving_rock.try_get_next_pos() {
        Some(p) => p,
        None => return false,
    };
    let tile_at_next_position = match grid.get(&next_pos) {
        Some(t) => t,
        None => return false,
    };
    if !try_adjust_rock_movement_from_new_tile(tile_at_next_position, moving_rock) {
        return false;
    }
    // A rock that is still in the way makes this one wait a pass: the rock
    // trails behind the one ahead of it.
    if state.contains(&next_pos) {
        return false;
    }
    W(&mut moving_rock.pos).apply(&next_pos);
    true
}

/// The place of a rock in the order of a pass towards `direction` on a
/// board of `width` columns and `height` rows: the nearer a rock is to the
/// edge that the rocks roll towards, the smaller its rank.
pub open spec fn rank(direction: Horizontal, width: nat, height: nat, pos: Pos) -> int {
    match direction {
        Horizontal::Top => pos.y * width + pos.x,
        Horizontal::Left => pos.x * height + pos.y,
        Horizontal::Right => (width - pos.x) * height + pos.y,
        Horizontal::Bottom => (height - pos.y) * width + pos.x,
    }
}

/// Whether `rocks` stand in the order of a pass towards `direction`.
pub open spec fn in_pass_order(
    rocks: Seq<MovingRock>,
    direction: Horizontal,
    width: nat,
    height: nat,
) -> bool {
    forall|i: int, j: int|
        0 <= i <= j < rocks.len() ==> rank(direction, width, height, #[trigger] rocks[i].pos)
            <= rank(direction, width, height, #[trigger] rocks[j].pos)
}

/// The rank of the cell `pos` of the board in a pass towards
/// `rotate_towards`.
pub fn sort_rock_for_rotation(rotate_towards: Horizontal, grid: &Grid<Tile>, pos: &Pos) -> (r:
    u64)
    requires
        grid.wf(),
        grid.covers(*pos),
    ensures
        r == rank(rotate_towards, grid.cols(), grid.rows_count(), *pos),
{
    let width: u64 = grid.width() as u64;
    let height: u64 = grid.height() as u64;
    let x: u64 = pos.x as u64;
    let y: u64 = pos.y as u64;
    proof {
        assert(forall|a: int, b: int|
            0 <= a <= 0xffff_ffff && 0 <= b <= 0xffff_ffff ==> 0 <= #[trigger] (a * b)
                <= 0xffff_fffe_0000_0001) by (nonlinear_arith);
        assert(0 <= y * width <= 0xffff_fffe_0000_0001);
        assert(0 <= x * height <= 0xffff_fffe_0000_0001);
        assert(0 <= (width - x) * height <= 0xffff_fffe_0000_0001);
        assert(0 <= (height - y) * width <= 0xffff_fffe_0000_0001);
    }
    match rotate_towards {
        Horizontal::Top => y * width + x,
        Horizontal::Left => x * height + y,
        Horizontal::Right => (width - x) * height + y,
        Horizontal::Bottom => (height - y) * width + x,
    }
}

/// Two listings with the same elements, each as often, name the same set and
/// are both free of repetitions or both not.
pub proof fn lemma_same_elements(a: Seq<MovingRock>, b: Seq<MovingRock>)
    requires
        a.to_multiset() == b.to_multiset(),
    ensures
        a.to_set() == b.to_set(),
        a.len() == b.len(),
        a.no_duplicates() ==> b.no_duplicates(),
{
    a.to_multiset_ensures();
    b.to_multiset_ensures();
    assert(a.to_set() =~= b.to_set()) by {
        assert forall|r: MovingRock| a.to_set().contains(r) <==> b.to_set().contains(r) by {
            assert(a.contains(r) <==> a.to_multiset().count(r) > 0);
            assert(b.contains(r) <==> b.to_multiset().count(r) > 0);
        }
    }
    if a.no_duplicates() {
        a.lemma_multiset_has_no_duplicates();
        b.lemma_multiset_has_no_duplicates_conv();
    }
}

/// Puts the rocks into the order of a pass towards `rotate_towards`: the
/// rock nearest to the edge that they roll towards comes first.
pub fn sort_for_pass(
    moving_rocks: &mut Vec<MovingRock>,
    rotate_towards: Horizontal,
    grid: &Grid<Tile>,
)
    requires
        grid.wf(),
        forall|k: int| 0 <= k < old(moving_rocks)@.len() ==> grid.covers(old(moving_rocks)@[k].pos),
    ensures
        final(moving_rocks)@.to_multiset() == old(moving_rocks)@.to_multiset(),
        in_pass_order(final(moving_rocks)@, rotate_towards, grid.cols(), grid.rows_count()),
{
    let ghost width = grid.cols();
    let ghost height = grid.rows_count();
    let count: usize = moving_rocks.len();
    let mut i: usize = 0;
    while i < count
        invariant
            grid.wf(),
            width == grid.cols(),
            height == grid.rows_count(),
            i <= count,
            moving_rocks@.len() == count,
            moving_rocks@.to_multiset() == old(moving_rocks)@.to_multiset(),
            forall|k: int| 0 <= k < moving_rocks@.len() ==> grid.covers(moving_rocks@[k].pos),
            in_pass_order(moving_rocks@.take(i as int), rotate_towards, width, height),
        decreases count - i,
    {
        let ghost before = moving_rocks@;
        let rock = moving_rocks.remove(i);
        let ghost without = moving_rocks@;
        let key: u64 = sort_rock_for_rotation(rotate_towards, grid, &rock.pos);
        proof {
            vstd::seq_lib::to_multiset_remove(before, i as int);
            assert forall|k: int| 0 <= k < without.len() implies grid.covers(without[k].pos) by {
                if k < i {
                    assert(without[k] == before[k]);
                } else {
                    assert(without[k] == before[k + 1]);
                }
            }
            assert forall|a: int, b: int| 0 <= a <= b < i implies rank(
                rotate_towards,
                width,
                height,
                #[trigger] without[a].pos,
            ) <= rank(rotate_towards, width, height, #[trigger] without[b].pos) by {
                assert(without[a] == before.take(i as int)[a]);
                assert(without[b] == before.take(i as int)[b]);
            }
        }
        let mut j: usize = 0;
        while j < i && sort_rock_for_rotation(rotate_towards, grid, &moving_rocks[j].pos) <= key
            invariant
                grid.wf(),
                width == grid.cols(),
                height == grid.rows_count(),
                j <= i,
                i <= moving_rocks@.len(),
                moving_rocks@ == without,
                key == rank(rotate_towards, width, height, rock.pos),
                forall|k: int| 0 <= k < moving_rocks@.len() ==> grid.covers(moving_rocks@[k].pos),
                forall|k: int|
                    0 <= k < j ==> rank(rotate_towards, width, height, #[trigger] without[k].pos)
                        <= key,
            decreases i - j,
        {
            j = j + 1;
        }
        moving_rocks.insert(j, rock);
        proof {
            let after = moving_rocks@;
            broadcast use vstd::multiset::group_multiset_axioms;

            vstd::seq_lib::to_multiset_insert(without, j as int, rock);
            vstd::seq_lib::to_multiset_contains(before, rock);
            assert(before.contains(rock)) by {
                assert(before[i as int] == rock);
            }
            assert(after.to_multiset() =~= before.to_multiset());
            assert forall|k: int| 0 <= k < after.len() implies grid.covers(after[k].pos) by {
                if k < j {
                    assert(after[k] == without[k]);
                } else if k == j {
                    assert(after[k] == rock);
                    assert(rock == before[i as int]);
                } else {
                    assert(after[k] == without[k - 1]);
                }
            }
            assert forall|a: int, b: int| 0 <= a <= b < i + 1 implies rank(
                rotate_towards,
                width,
                height,
                #[trigger] after.take(i + 1)[a].pos,
            ) <= rank(rotate_towards, width, height, #[trigger] after.take(i + 1)[b].pos) by {
                let ra = after[a];
                let rb = after[b];
                if a < j {
                    assert(ra == without[a]);
                } else if a > j {
                    assert(ra == without[a - 1]);
                }
                if b < j {
                    assert(rb == without[b]);
                } else if b > j {
                    assert(rb == without[b - 1]);
                }
                if a == j && b > j {
                    // the rock went in before the first one of a greater rank
                    assert(j < i);
                    assert(rank(rotate_towards, width, height, without[j as int].pos) > key);
                    assert(rank(rotate_towards, width, height, without[j as int].pos) <= rank(
                        rotate_towards,
                        width,
                        height,
                        without[b - 1].pos,
                    ));
                }
            }
        }
        i = i + 1;
    }
    assert(moving_rocks@.take(count as int) =~= moving_rocks@);
}

/// Sets every rock of `state` rolling towards `rotate_towards`, in the order
/// of a pass.
pub fn start_tilt(rotate_towards: Horizontal, grid: &Grid<Tile>, state: &MapState) -> (moving_rocks:
    Vec<MovingRock>)
    requires
        grid.wf(),
        state.wf_on(*grid),
    ensures
        moving_rocks@.to_set() == launched(state@, rotate_towards),
        moving_rocks@.len() == state@.len(),
        moving_rocks@.no_duplicates(),
        in_pass_order(moving_rocks@, rotate_towards, grid.cols(), grid.rows_count()),
{
    let positions = state.positions();
    let ghost launch = |p: Pos| MovingRock { pos: p, direction: rotate_towards };
    let mut moving_rocks: Vec<MovingRock> = Vec::new();
    let mut i: usize = 0;
    while i < positions.len()
        invariant
            i <= positions@.len(),
            launch == (|p: Pos| MovingRock { pos: p, direction: rotate_towards }),
            moving_rocks@ == positions@.take(i as int).map_values(launch),
        decreases positions@.len() - i,
    {
        moving_rocks.push(MovingRock { pos: positions[i], direction: rotate_towards });
        assert(moving_rocks@ =~= positions@.take(i + 1).map_values(launch));
        i = i + 1;
    }
    proof {
        state.lemma_listing();
        assert(positions@.take(positions@.len() as int) =~= positions@);
        assert(injective(launch));
        positions@.lemma_no_duplicates_injective(launch);
        positions@.lemma_to_set_map_commutes(launch);
        assert forall|k: int| 0 <= k < moving_rocks@.len() implies grid.covers(
            moving_rocks@[k].pos,
        ) by {
            assert(state@.contains(positions@[k]));
        }
    }
    let ghost unsorted = moving_rocks@;
    sort_for_pass(&mut moving_rocks, rotate_towards, grid);
    proof {
        lemma_same_elements(unsorted, moving_rocks@);
    }
    moving_rocks
}

/// A pass that moves no rock leaves the same cells occupied.
pub proof fn lemma_still_keeps_places(grid: Grid<Tile>, rocks: Set<MovingRock>)
    requires
        is_still(grid, rocks),
    ensures
        places(pass_of(grid, rocks)) == places(rocks),
{
    let occupied = places(rocks);
    let step = |r: MovingRock| stepped(grid, occupied, r);
    let place = |r: MovingRock| r.pos;
    assert forall|p: Pos| places(pass_of(grid, rocks)).contains(p) <==> occupied.contains(p) by {
        if places(pass_of(grid, rocks)).contains(p) {
            let after = choose|r: MovingRock| pass_of(grid, rocks).contains(r) && place(r) == p;
            let before = choose|r: MovingRock| rocks.contains(r) && step(r) == after;
            assert(rocks.contains(before) && place(before) == p);
        }
        if occupied.contains(p) {
            let before = choose|r: MovingRock| rocks.contains(r) && place(r) == p;
            assert(rocks.contains(before) && step(before) == step(before));
            assert(pass_of(grid, rocks).contains(step(before)));
            assert(place(step(before)) == p);
        }
    }
    assert(places(pass_of(grid, rocks)) =~= places(rocks));
}

/// A pass never puts a rock off the board or into a wall.
pub proof fn lemma_pass_keeps_fit(grid: Grid<Tile>, rocks: Set<MovingRock>)
    requires
        rocks_fit(grid, places(rocks)),
    ensures
        rocks_fit(grid, places(pass_of(grid, rocks))),
{
    let occupied = places(rocks);
    let step = |r: MovingRock| stepped(grid, occupied, r);
    let place = |r: MovingRock| r.pos;
    assert forall|p: Pos| #[trigger] places(pass_of(grid, rocks)).contains(p) implies grid.covers(
        p,
    ) && grid.at(p).rock != RockKind::SquareRock by {
        let after = choose|r: MovingRock| pass_of(grid, rocks).contains(r) && place(r) == p;
        let before = choose|r: MovingRock| rocks.contains(r) && step(r) == after;
        assert(rocks.contains(before) && place(before) == before.pos);
        assert(occupied.contains(before.pos));
    }
}

/// Runs one pass over `moving_rocks` and brings `state` up to date.
/// Returns whether any rock moved.
pub fn tilt_pass(grid: &Grid<Tile>, moving_rocks: &mut Vec<MovingRock>, state: &mut MapState) -> (any_rock_moved:
    bool)
    requires
        grid.wf(),
        old(state).wf(),
        old(state)@ == places(old(moving_rocks)@.to_set()),
    ensures
        final(moving_rocks)@ == old(moving_rocks)@.map_values(
            |r: MovingRock| stepped(*grid, old(state)@, r),
        ),
        final(moving_rocks)@.to_set() == pass_of(*grid, old(moving_rocks)@.to_set()),
        any_rock_moved == !is_still(*grid, old(moving_rocks)@.to_set()),
        final(state).wf(),
        final(state)@ == places(final(moving_rocks)@.to_set()),
        rocks_fit(*grid, old(state)@) ==> rocks_fit(*grid, final(state)@),
{
    let ghost given = moving_rocks@;
    let ghost occupied = state@;
    let ghost step = |r: MovingRock| stepped(*grid, occupied, r);
    let ghost place = |r: MovingRock| r.pos;
    let mut any_rock_moved = false;
    let mut landed: Vec<Pos> = Vec::new();
    let count: usize = moving_rocks.len();
    let mut i: usize = 0;
    while i < count
        invariant
            grid.wf(),
            i <= count,
            count == given.len(),
            moving_rocks@.len() == count,
            occupied == state@,
            step == (|r: MovingRock| stepped(*grid, occupied, r)),
            place == (|r: MovingRock| r.pos),
            forall|k: int| 0 <= k < i ==> moving_rocks@[k] == step(given[k]),
            forall|k: int| i <= k < count ==> moving_rocks@[k] == given[k],
            landed@ == moving_rocks@.take(i as int).map_values(place),
            any_rock_moved == exists|k: int| 0 <= k < i && step(given[k]).pos != given[k].pos,
        decreases count - i,
    {
        let mut current_rock = moving_rocks[i];
        let moved = try_move_and_update_rock(&mut current_rock, grid, state);
        let ghost rocks_before = moving_rocks@;
        moving_rocks.set(i, current_rock);
        landed.push(current_rock.pos);
        proof {
            assert(current_rock == step(given[i as int]));
            assert(landed@ =~= moving_rocks@.take(i + 1).map_values(place)) by {
                assert(moving_rocks@.take(i as int) =~= rocks_before.take(i as int));
            }
            if moved {
                assert(step(given[i as int]).pos != given[i as int].pos);
            }
        }
        any_rock_moved = any_rock_moved || moved;
        i = i + 1;
    }
    proof {
        let rocks = given.to_set();
        assert(moving_rocks@.take(count as int) =~= moving_rocks@);
        assert(moving_rocks@ =~= given.map_values(step));
        given.lemma_to_set_map_commutes(step);
        moving_rocks@.lemma_to_set_map_commutes(place);
        assert(moving_rocks@.to_set() == pass_of(*grid, rocks));
        assert(landed@.to_set() == places(moving_rocks@.to_set()));
        if any_rock_moved {
            let k = choose|k: int| 0 <= k < count && step(given[k]).pos != given[k].pos;
            assert(rocks.contains(given[k]));
        } else {
            assert forall|r: MovingRock| #[trigger] rocks.contains(r) implies stepped(
                *grid,
                places(rocks),
                r,
            ).pos == r.pos by {
                let k = choose|k: int| 0 <= k < given.len() && given[k] == r;
                assert(step(given[k]).pos == given[k].pos);
            }
            lemma_still_keeps_places(*grid, rocks);
        }
        if rocks_fit(*grid, occupied) {
            lemma_pass_keeps_fit(*grid, rocks);
        }
    }
    if any_rock_moved {
        *state = MapState::from_positions(&landed);
    }
    any_rock_moved
}

/// If the rocks are at rest after `n` passes, they first come to rest after
/// some number of passes up to `n`.
pub proof fn lemma_first_rest(grid: Grid<Tile>, rocks: Set<MovingRock>, n: nat) -> (first: nat)
    requires
        is_still(grid, after_passes(grid, rocks, n)),
    ensures
        first <= n,
        rests_after(grid, rocks, first),
    decreases n,
{
    if forall|m: nat| m < n ==> !#[trigger] is_still(grid, after_passes(grid, rocks, m)) {
        n
    } else {
        let m = choose|m: nat| m < n && #[trigger] is_still(grid, after_passes(grid, rocks, m));
        lemma_first_rest(grid, rocks, m)
    }
}

/// The rocks first come to rest after one number of passes only, and
/// `passes_needed` is that number.
pub proof fn lemma_passes_needed(grid: Grid<Tile>, rocks: Set<MovingRock>, n: nat)
    requires
        rests_after(grid, rocks, n),
    ensures
        passes_needed(grid, rocks) == n,
        settles(grid, rocks),
{
    let chosen = passes_needed(grid, rocks);
    assert(rests_after(grid, rocks, chosen));
    if chosen < n {
        assert(!is_still(grid, after_passes(grid, rocks, chosen)));
    } else if n < chosen {
        assert(!is_still(grid, after_passes(grid, rocks, n)));
    }
}

/// Rocks that settle first come to rest after `passes_needed` passes.
pub proof fn lemma_settles(grid: Grid<Tile>, rocks: Set<MovingRock>)
    requires
        settles(grid, rocks),
    ensures
        rests_after(grid, rocks, passes_needed(grid, rocks)),
{
    let n = choose|n: nat| #[trigger] is_still(grid, after_passes(grid, rocks, n));
    let first = lemma_first_rest(grid, rocks, n);
    lemma_passes_needed(grid, rocks, first);
}

/// Whether the board holds no reflector. On such a board every tilt comes
/// to rest.
pub fn has_no_reflector(grid: &Grid<Tile>) -> (r: bool)
    requires
        grid.wf(),
    ensures
        r == reflector_free(*grid),
{
    let cells = grid.all_pos_ordered();
    let mut i: usize = 0;
    while i < cells.len()
        invariant
            grid.wf(),
            i <= cells@.len(),
            cells@.len() == grid.cols() * grid.rows_count(),
            forall|p: Pos| grid.covers(p) ==> #[trigger] cells@[p.y * grid.cols() + p.x] == p,
            forall|k: int| 0 <= k < cells@.len() ==> grid.covers(#[trigger] cells@[k]),
            forall|k: int| 0 <= k < i ==> !(grid.at(#[trigger] cells@[k]).rock is SingleReflect),
        decreases cells@.len() - i,
    {
        match grid.get(&cells[i]) {
            Some(tile) => {
                if let RockKind::SingleReflect(_) = tile.rock {
                    assert(grid.covers(cells@[i as int]));
                    return false;
                }
            },
            None => {},
        }
        i = i + 1;
    }
    proof {
        assert forall|p: Pos| #[trigger] grid.covers(p) implies !(grid.at(p).rock
            is SingleReflect) by {
            grid.lemma_cell_listed(p);
            assert(cells@[p.y * grid.cols() + p.x] == p);
        }
    }
    true
}

/// Whether a pass over `moving_rocks` would leave every rock where it is.
pub fn is_at_rest(grid: &Grid<Tile>, moving_rocks: &Vec<MovingRock>, state: &MapState) -> (r:
    bool)
    requires
        grid.wf(),
        state@ == places(moving_rocks@.to_set()),
    ensures
        r == is_still(*grid, moving_rocks@.to_set()),
{
    let ghost rocks = moving_rocks@.to_set();
    let mut i: usize = 0;
    while i < moving_rocks.len()
        invariant
            grid.wf(),
            i <= moving_rocks@.len(),
            state@ == places(moving_rocks@.to_set()),
            forall|k: int|
                0 <= k < i ==> stepped(*grid, state@, #[trigger] moving_rocks@[k]).pos
                    == moving_rocks@[k].pos,
        decreases moving_rocks@.len() - i,
    {
        let mut probe = moving_rocks[i];
        if try_move_and_update_rock(&mut probe, grid, state) {
            assert(moving_rocks@.to_set().contains(moving_rocks@[i as int]));
            return false;
        }
        i = i + 1;
    }
    proof {
        assert forall|r: MovingRock| #[trigger]
            moving_rocks@.to_set().contains(r) implies stepped(
            *grid,
            places(moving_rocks@.to_set()),
            r,
        ).pos == r.pos by {
            let k = choose|k: int| 0 <= k < moving_rocks@.len() && moving_rocks@[k] == r;
            assert(stepped(*grid, state@, moving_rocks@[k]).pos == moving_rocks@[k].pos);
        }
    }
    true
}

/// Tilts the board towards `rotate_towards`: the rocks roll, pass after
/// pass, until a pass moves none of them. Returns whether any rock moved.
///
/// The caller has to know that the rocks come to rest. They always do on a
/// board without reflectors; a ring of reflectors can keep a rock circling
/// for ever. `tilt_within` asks for no such knowledge.
pub fn tilt(rotate_towards: Horizontal, grid: &Grid<Tile>, state: &mut MapState) -> (moved: bool)
    requires
        grid.wf(),
        old(state).wf_on(*grid),
        settles(*grid, launched(old(state)@, rotate_towards)),
    ensures
        final(state).wf_on(*grid),
        final(state)@ == settled(*grid, old(state)@, rotate_towards),
        moved == (passes_needed(*grid, launched(old(state)@, rotate_towards)) > 0),
        reflector_free(*grid) ==> final(state)@.len() == old(state)@.len(),
{
    let mut moving_rocks = start_tilt(rotate_towards, grid, state);
    let ghost start = launched(old(state)@, rotate_towards);
    let ghost need = passes_needed(*grid, start);
    let ghost mut done: nat = 0;
    proof {
        old(state).lemma_listing();
        if reflector_free(*grid) {
            crate::laws::lemma_plain_tilt_conserves(*grid, old(state)@, rotate_towards);
        }
        lemma_settles(*grid, start);
        assert(state@ =~= places(start)) by {
            assert forall|p: Pos| state@.contains(p) <==> places(start).contains(p) by {
                if state@.contains(p) {
                    let r = MovingRock { pos: p, direction: rotate_towards };
                    assert(start.contains(r));
                    assert(places(start).contains(r.pos));
                }
            }
        }
    }
    let mut moved = false;
    let mut rolling = true;
    while rolling
        invariant
            grid.wf(),
            state.wf(),
            rocks_fit(*grid, state@),
            start == launched(old(state)@, rotate_towards),
            need == passes_needed(*grid, start),
            rests_after(*grid, start, need),
            done <= need,
            moved == (done > 0),
            rolling ==> moving_rocks@.to_set() == after_passes(*grid, start, done) && state@
                == places(moving_rocks@.to_set()),
            !rolling ==> done == need && state@ == places(after_passes(*grid, start, need)),
        decreases need - done + (if rolling { 1int } else { 0int }),
    {
        let any_rock_moved = tilt_pass(grid, &mut moving_rocks, state);
        if any_rock_moved {
            proof {
                assert(!is_still(*grid, after_passes(*grid, start, done)));
                assert(done < need);
                done = done + 1;
            }
            moved = true;
        } else {
            proof {
                lemma_still_keeps_places(*grid, after_passes(*grid, start, done));
                if done < need {
                    assert(!is_still(*grid, after_passes(*grid, start, done)));
                }
            }
            rolling = false;
        }
    }
    moved
}

/// Tilts the board towards `rotate_towards`, giving up once `max_passes`
/// passes have each moved a rock. Returns whether the rocks came to rest.
///
/// When they did, `state` holds the settled rocks. When they did not,
/// `state` holds the rocks as they lie after `max_passes` passes.
pub fn tilt_within(
    rotate_towards: Horizontal,
    grid: &Grid<Tile>,
    state: &mut MapState,
    max_passes: u64,
) -> (at_rest: bool)
    requires
        grid.wf(),
        old(state).wf_on(*grid),
    ensures
        final(state).wf_on(*grid),
        at_rest == exists|n: nat|
            n <= max_passes && #[trigger] rests_after(
                *grid,
                launched(old(state)@, rotate_towards),
                n,
            ),
        at_rest ==> final(state)@ == settled(*grid, old(state)@, rotate_towards),
        !at_rest ==> final(state)@ == places(
            after_passes(*grid, launched(old(state)@, rotate_towards), max_passes as nat),
        ),
{
    let mut moving_rocks = start_tilt(rotate_towards, grid, state);
    let ghost start = launched(old(state)@, rotate_towards);
    proof {
        assert(state@ =~= places(start)) by {
            assert forall|p: Pos| state@.contains(p) <==> places(start).contains(p) by {
                if state@.contains(p) {
                    let r = MovingRock { pos: p, direction: rotate_towards };
                    assert(start.contains(r));
                    assert(places(start).contains(r.pos));
                }
            }
        }
    }
    let mut done: u64 = 0;
    while done < max_passes
        invariant
            grid.wf(),
            state.wf(),
            rocks_fit(*grid, state@),
            start == launched(old(state)@, rotate_towards),
            done <= max_passes,
            moving_rocks@.to_set() == after_passes(*grid, start, done as nat),
            state@ == places(moving_rocks@.to_set()),
            forall|m: nat| m < done ==> !#[trigger] is_still(*grid, after_passes(*grid, start, m)),
        decreases max_passes - done,
    {
        let any_rock_moved = tilt_pass(grid, &mut moving_rocks, state);
        if !any_rock_moved {
            proof {
                lemma_still_keeps_places(*grid, after_passes(*grid, start, done as nat));
                assert(rests_after(*grid, start, done as nat));
                lemma_passes_needed(*grid, start, done as nat);
            }
            return true;
        }
        done = done + 1;
    }
    let at_rest = is_at_rest(grid, &moving_rocks, state);
    proof {
        if at_rest {
            assert(rests_after(*grid, start, max_passes as nat));
            lemma_passes_needed(*grid, start, max_passes as nat);
        } else {
            assert forall|n: nat| n <= max_passes implies !#[trigger] rests_after(
                *grid,
                start,
                n,
            ) by {
                if n < max_passes {
                    assert(!is_still(*grid, after_passes(*grid, start, n)));
                }
            }
        }
    }
    at_rest
}

} // verus!
