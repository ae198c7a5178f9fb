//! Edge packing: on a line of free floor the rocks end up side by side
//! against the edge that the board was tilted towards.

use vstd::prelude::*;
use vstd::relations::injective_on;
use vstd::set_lib::{lemma_int_range, lemma_len_subset, lemma_map_size, set_int_range};
use crate::direction::Horizontal;
use crate::grid::Grid;
use crate::laws::{
    aligned, collision_free, distance_to_edge, lemma_aligned_is_launched, lemma_launched,
    lemma_passes_keep_fit, lemma_plain_passes, lemma_plain_settles, lemma_plain_step,
    lemma_separate_count, separate,
};
use crate::pos::{displaced, Pos};
use crate::state::rocks_fit;
use crate::tile::{RockKind, Tile};
use crate::tilt::{
    after_passes, launched, lemma_settles, pass_of, passes_needed, places, reflector_free,
    settled, stepped, MovingRock,
};

verus! {

/// The number of the line along which a rock at `pos` rolls when it is
/// heading towards `direction`: its column for a vertical heading, its row
/// for a sideways one.
pub open spec fn line_of(direction: Horizontal, pos: Pos) -> int {
    match direction {
        Horizontal::Top | Horizontal::Bottom => pos.x as int,
        Horizontal::Left | Horizontal::Right => pos.y as int,
    }
}

/// The cells of `rocks` on the line `line`.
pub open spec fn on_line(rocks: Set<Pos>, direction: Horizontal, line: int) -> Set<Pos> {
    rocks.filter(|p: Pos| line_of(direction, p) == line)
}

/// Every cell of the line `line` of the board is free floor.
pub open spec fn line_free(grid: Grid<Tile>, direction: Horizontal, line: int) -> bool {
    forall|p: Pos|
        #[trigger] grid.covers(p) && line_of(direction, p) == line ==> grid.at(p).rock
            == RockKind::Empty
}

/// A cell of the board is known by its line and its distance to the edge.
pub proof fn lemma_cell_by_line_and_distance(
    grid: Grid<Tile>,
    direction: Horizontal,
    p: Pos,
    q: Pos,
)
    requires
        line_of(direction, p) == line_of(direction, q),
        distance_to_edge(grid, direction, p) == distance_to_edge(grid, direction, q),
    ensures
        p == q,
{
}

/// A cell of the board that is not at the edge has a cell of the board
/// ahead of it, on the same line and one nearer to the edge.
pub proof fn lemma_cell_ahead(grid: Grid<Tile>, direction: Horizontal, p: Pos) -> (q: Pos)
    requires
        grid.wf(),
        grid.covers(p),
        distance_to_edge(grid, direction, p) > 0,
    ensures
        displaced(p, direction.offset()) == Some(q),
        grid.covers(q),
        line_of(direction, q) == line_of(direction, p),
        distance_to_edge(grid, direction, q) == distance_to_edge(grid, direction, p) - 1,
{
    grid.lemma_sides_fit();
    displaced(p, direction.offset()).unwrap()
}

/// On a board without reflectors a rock stays on its line.
pub proof fn lemma_plain_step_line(grid: Grid<Tile>, occupied: Set<Pos>, rock: MovingRock)
    requires
        reflector_free(grid),
    ensures
        line_of(rock.direction, stepped(grid, occupied, rock).pos) == line_of(
            rock.direction,
            rock.pos,
        ),
{
    lemma_plain_step(grid, occupied, rock);
}

/// On a board without reflectors a pass leaves as many rocks on each line as
/// it found there.
pub proof fn lemma_plain_pass_line(
    grid: Grid<Tile>,
    rocks: Set<MovingRock>,
    direction: Horizontal,
    line: int,
)
    requires
        rocks.finite(),
        reflector_free(grid),
        aligned(rocks, direction),
        separate(rocks),
        collision_free(grid, rocks),
    ensures
        on_line(places(rocks), direction, line).finite(),
        on_line(places(pass_of(grid, rocks)), direction, line).finite(),
        on_line(places(pass_of(grid, rocks)), direction, line).len() == on_line(
            places(rocks),
            direction,
            line,
        ).len(),
{
    let occupied = places(rocks);
    let before = on_line(occupied, direction, line);
    let after = on_line(places(pass_of(grid, rocks)), direction, line);
    let land = |p: Pos| stepped(grid, occupied, MovingRock { pos: p, direction }).pos;
    lemma_separate_count(rocks);
    occupied.lemma_len_filter(|p: Pos| line_of(direction, p) == line);
    assert(injective_on(land, before)) by {
        assert forall|p: Pos, q: Pos|
            before.contains(p) && before.contains(q) && #[trigger] land(p) == #[trigger] land(
                q,
            ) implies p == q by {
            let a = choose|r: MovingRock| rocks.contains(r) && r.pos == p;
            let b = choose|r: MovingRock| rocks.contains(r) && r.pos == q;
            assert(rocks.contains(a) && rocks.contains(b));
            assert(a == MovingRock { pos: p, direction });
            assert(b == MovingRock { pos: q, direction });
            if a != b {
                assert(stepped(grid, occupied, a).pos != stepped(grid, occupied, b).pos);
            }
        }
    }
    assert forall|p: Pos| before.map(land).contains(p) <==> after.contains(p) by {
        if before.map(land).contains(p) {
            let from = choose|q: Pos| before.contains(q) && land(q) == p;
            let r = choose|r: MovingRock| rocks.contains(r) && r.pos == from;
            assert(rocks.contains(r));
            assert(r == MovingRock { pos: from, direction });
            lemma_plain_step_line(grid, occupied, r);
            assert(pass_of(grid, rocks).contains(stepped(grid, occupied, r)));
            assert(places(pass_of(grid, rocks)).contains(stepped(grid, occupied, r).pos));
        }
        if after.contains(p) {
            let landed = choose|r: MovingRock| pass_of(grid, rocks).contains(r) && r.pos == p;
            let r = choose|r: MovingRock|
                rocks.contains(r) && stepped(grid, occupied, r) == landed;
            assert(rocks.contains(r));
            assert(r == MovingRock { pos: r.pos, direction });
            lemma_plain_step_line(grid, occupied, r);
            assert(occupied.contains(r.pos));
            assert(before.contains(r.pos));
            assert(land(r.pos) == p);
        }
    }
    assert(before.map(land) =~= after);
    lemma_map_size(before, after, land);
}

/// On a board without reflectors every line holds as many rocks after any
/// number of passes as it held before the tilt: no rock changes its line.
pub proof fn lemma_plain_passes_line(
    grid: Grid<Tile>,
    rocks: Set<Pos>,
    direction: Horizontal,
    line: int,
    n: nat,
)
    requires
        rocks.finite(),
        reflector_free(grid),
    ensures
        on_line(rocks, direction, line).finite(),
        on_line(places(after_passes(grid, launched(rocks, direction), n)), direction, line).finite(),
        on_line(places(after_passes(grid, launched(rocks, direction), n)), direction, line).len()
            == on_line(rocks, direction, line).len(),
    decreases n,
{
    let start = launched(rocks, direction);
    rocks.lemma_len_filter(|p: Pos| line_of(direction, p) == line);
    if n == 0 {
        lemma_launched(rocks, direction);
    } else {
        let m = (n - 1) as nat;
        lemma_plain_passes_line(grid, rocks, direction, line, m);
        lemma_plain_passes(grid, rocks, direction, m);
        lemma_plain_pass_line(grid, after_passes(grid, start, m), direction, line);
    }
}

/// A finite set of naturals that holds, with every number above 0, the
/// number below it, is the set of the naturals below its size.
pub proof fn lemma_initial_segment(numbers: Set<int>)
    requires
        numbers.finite(),
        forall|d: int| #[trigger] numbers.contains(d) ==> 0 <= d,
        forall|d: int| #[trigger] numbers.contains(d) && d > 0 ==> numbers.contains(d - 1),
    ensures
        forall|j: int| numbers.contains(j) <==> 0 <= j < numbers.len(),
{
    assert forall|j: int| numbers.contains(j) <==> 0 <= j < numbers.len() by {
        if numbers.contains(j) {
            // everything up to j is in the set, so the set has more than j members
            assert forall|i: int| #[trigger] set_int_range(0, j + 1).contains(i) implies numbers.contains(
                i,
            ) by {
                lemma_below_member(numbers, j, i);
            }
            lemma_int_range(0, j + 1);
            lemma_len_subset(set_int_range(0, j + 1), numbers);
        }
        if 0 <= j < numbers.len() && !numbers.contains(j) {
            // nothing from j on is in the set, so the set has at most j members
            assert forall|i: int| #[trigger] numbers.contains(i) implies set_int_range(0, j).contains(
                i,
            ) by {
                if i >= j {
                    lemma_below_member(numbers, i, j);
                }
            }
            lemma_int_range(0, j);
            lemma_len_subset(numbers, set_int_range(0, j));
        }
    }
}

/// In such a set every natural below a member is a member.
pub proof fn lemma_below_member(numbers: Set<int>, member: int, below: int)
    requires
        forall|d: int| #[trigger] numbers.contains(d) && d > 0 ==> numbers.contains(d - 1),
        numbers.contains(member),
        0 <= below <= member,
    ensures
        numbers.contains(below),
    decreases member - below,
{
    if below < member {
        assert(numbers.contains(member - 1));
        lemma_below_member(numbers, member - 1, below);
    }
}

/// Edge packing: on a board without reflectors, a line of free floor that
/// held `k` rocks before the tilt holds, once the rocks are at rest, a rock
/// on each of the `k` cells nearest to the edge and on no other.
pub proof fn lemma_edge_packing(
    grid: Grid<Tile>,
    rocks: Set<Pos>,
    direction: Horizontal,
    line: int,
)
    requires
        grid.wf(),
        rocks.finite(),
        rocks_fit(grid, rocks),
        reflector_free(grid),
        line_free(grid, direction, line),
    ensures
        on_line(rocks, direction, line).finite(),
        forall|p: Pos|
            #[trigger] grid.covers(p) && line_of(direction, p) == line ==> (settled(
                grid,
                rocks,
                direction,
            ).contains(p) <==> distance_to_edge(grid, direction, p) < on_line(
                rocks,
                direction,
                line,
            ).len()),
{
    let start = launched(rocks, direction);
    let n = passes_needed(grid, start);
    let rest = after_passes(grid, start, n);
    let cells = settled(grid, rocks, direction);
    let packed = on_line(cells, direction, line);
    let distance = |p: Pos| distance_to_edge(grid, direction, p);
    let numbers = packed.map(distance);

    lemma_plain_settles(grid, rocks, direction);
    lemma_settles(grid, start);
    lemma_launched(rocks, direction);
    lemma_plain_passes(grid, rocks, direction, n);
    lemma_plain_passes_line(grid, rocks, direction, line, n);
    lemma_passes_keep_fit(grid, start, n);
    lemma_aligned_is_launched(rest, direction);

    assert(injective_on(distance, packed)) by {
        assert forall|p: Pos, q: Pos|
            packed.contains(p) && packed.contains(q) && #[trigger] distance(p)
                == #[trigger] distance(q) implies p == q by {
            lemma_cell_by_line_and_distance(grid, direction, p, q);
        }
    }
    lemma_map_size(packed, numbers, distance);

    assert forall|d: int| #[trigger] numbers.contains(d) implies 0 <= d && (d > 0
        ==> numbers.contains(d - 1)) by {
        let p = choose|p: Pos| packed.contains(p) && distance(p) == d;
        assert(cells.contains(p));
        assert(grid.covers(p));
        if d > 0 {
            let q = lemma_cell_ahead(grid, direction, p);
            let r = MovingRock { pos: p, direction };
            assert(rest.contains(r));
            assert(stepped(grid, cells, r).pos == r.pos);
            assert(grid.at(q).rock == RockKind::Empty);
            assert(cells.contains(q));
            assert(packed.contains(q));
            assert(distance(q) == d - 1);
        }
    }
    lemma_initial_segment(numbers);

    assert forall|p: Pos|
        #[trigger] grid.covers(p) && line_of(direction, p) == line implies (cells.contains(p)
        <==> distance_to_edge(grid, direction, p) < on_line(rocks, direction, line).len()) by {
        if cells.contains(p) {
            assert(packed.contains(p));
            assert(numbers.contains(distance(p)));
        }
        if distance_to_edge(grid, direction, p) < on_line(rocks, direction, line).len() {
            assert(numbers.contains(distance(p)));
            let q = choose|q: Pos| packed.contains(q) && distance(q) == distance(p);
            lemma_cell_by_line_and_distance(grid, direction, p, q);
        }
    }
}

} // verus!
