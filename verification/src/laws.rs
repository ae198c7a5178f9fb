//! What holds of the resolver on every board: rocks are neither lost nor
//! made, a settled board stays settled, and free lines end up packed.

use vstd::prelude::*;
use vstd::relations::injective_on;
use crate::direction::{Diagonal, Horizontal};
use crate::grid::Grid;
use crate::pos::{displaced, Pos};
use crate::state::rocks_fit;
use crate::tile::{RockKind, Tile};
use crate::tilt::{
    after_passes, deflected, is_still, launched, lemma_pass_keeps_fit, lemma_passes_needed,
    lemma_settles, pass_of, passes_needed, places, reflector_free, rests_after, settled, settles,
    stepped,
    MovingRock,
};

verus! {

/// No two rocks share a cell.
pub open spec fn separate(rocks: Set<MovingRock>) -> bool {
    forall|a: MovingRock, b: MovingRock|
        #![trigger rocks.contains(a), rocks.contains(b)]
        rocks.contains(a) && rocks.contains(b) && a.pos == b.pos ==> a == b
}

/// No two rocks end the next pass on one cell.
pub open spec fn collision_free(grid: Grid<Tile>, rocks: Set<MovingRock>) -> bool {
    forall|a: MovingRock, b: MovingRock|
        #![trigger rocks.contains(a), rocks.contains(b)]
        rocks.contains(a) && rocks.contains(b) && a != b ==> stepped(grid, places(rocks), a).pos
            != stepped(grid, places(rocks), b).pos
}

/// Every rock is heading towards `direction`.
pub open spec fn aligned(rocks: Set<MovingRock>, direction: Horizontal) -> bool {
    forall|r: MovingRock| #[trigger] rocks.contains(r) ==> r.direction == direction
}

/// Rocks that share no cell are as many as the cells they occupy.
pub proof fn lemma_separate_count(rocks: Set<MovingRock>)
    requires
        rocks.finite(),
        separate(rocks),
    ensures
        places(rocks).finite(),
        places(rocks).len() == rocks.len(),
{
    let place = |r: MovingRock| r.pos;
    assert(injective_on(place, rocks));
    vstd::set_lib::lemma_map_size(rocks, places(rocks), place);
}

/// Rocks set rolling from a finite set of cells share no cell and are as
/// many as the cells.
pub proof fn lemma_launched(rocks: Set<Pos>, direction: Horizontal)
    requires
        rocks.finite(),
    ensures
        launched(rocks, direction).finite(),
        launched(rocks, direction).len() == rocks.len(),
        separate(launched(rocks, direction)),
        aligned(launched(rocks, direction), direction),
        places(launched(rocks, direction)) == rocks,
{
    let launch = |p: Pos| MovingRock { pos: p, direction };
    let start = launched(rocks, direction);
    assert(injective_on(launch, rocks));
    vstd::set_lib::lemma_map_size(rocks, start, launch);
    assert forall|p: Pos| rocks.contains(p) <==> places(start).contains(p) by {
        if rocks.contains(p) {
            assert(start.contains(launch(p)));
            assert(places(start).contains(launch(p).pos));
        }
    }
    assert(places(start) =~= rocks);
}

/// A pass in which no two rocks collide keeps the rocks apart and keeps
/// their number.
pub proof fn lemma_pass_conserves(grid: Grid<Tile>, rocks: Set<MovingRock>)
    requires
        rocks.finite(),
        separate(rocks),
        collision_free(grid, rocks),
    ensures
        pass_of(grid, rocks).finite(),
        pass_of(grid, rocks).len() == rocks.len(),
        separate(pass_of(grid, rocks)),
{
    let step = |r: MovingRock| stepped(grid, places(rocks), r);
    assert(injective_on(step, rocks)) by {
        assert forall|a: MovingRock, b: MovingRock|
            rocks.contains(a) && rocks.contains(b) && #[trigger] step(a) == #[trigger] step(
                b,
            ) implies a == b by {
            if a != b {
                assert(stepped(grid, places(rocks), a).pos != stepped(grid, places(rocks), b).pos);
            }
        }
    }
    vstd::set_lib::lemma_map_size(rocks, pass_of(grid, rocks), step);
    assert forall|a: MovingRock, b: MovingRock|
        #![trigger pass_of(grid, rocks).contains(a), pass_of(grid, rocks).contains(b)]
        pass_of(grid, rocks).contains(a) && pass_of(grid, rocks).contains(b) && a.pos
            == b.pos implies a == b by {
        let from_a = choose|r: MovingRock| rocks.contains(r) && step(r) == a;
        let from_b = choose|r: MovingRock| rocks.contains(r) && step(r) == b;
        assert(rocks.contains(from_a) && rocks.contains(from_b));
        if from_a != from_b {
            assert(stepped(grid, places(rocks), from_a).pos != stepped(
                grid,
                places(rocks),
                from_b,
            ).pos);
        }
    }
}

/// Conservation: as long as no two rocks collide, the number of occupied
/// cells after any number of passes is the number of rocks that were set
/// rolling.
///
/// Rocks can collide only where reflectors have given them different
/// headings: see `lemma_aligned_pass`.
pub proof fn lemma_conservation(
    grid: Grid<Tile>,
    rocks: Set<Pos>,
    direction: Horizontal,
    n: nat,
)
    requires
        rocks.finite(),
        forall|m: nat|
            m < n ==> collision_free(
                grid,
                #[trigger] after_passes(grid, launched(rocks, direction), m),
            ),
    ensures
        after_passes(grid, launched(rocks, direction), n).finite(),
        after_passes(grid, launched(rocks, direction), n).len() == rocks.len(),
        separate(after_passes(grid, launched(rocks, direction), n)),
        places(after_passes(grid, launched(rocks, direction), n)).finite(),
        places(after_passes(grid, launched(rocks, direction), n)).len() == rocks.len(),
    decreases n,
{
    let start = launched(rocks, direction);
    if n == 0 {
        lemma_launched(rocks, direction);
    } else {
        let m = (n - 1) as nat;
        lemma_conservation(grid, rocks, direction, m);
        assert(collision_free(grid, after_passes(grid, start, m)));
        lemma_pass_conserves(grid, after_passes(grid, start, m));
    }
    lemma_separate_count(after_passes(grid, start, n));
}

/// No overlap with the terrain: after any number of passes every rock lies
/// on the board and none lies in a wall.
pub proof fn lemma_passes_keep_fit(grid: Grid<Tile>, rocks: Set<MovingRock>, n: nat)
    requires
        rocks_fit(grid, places(rocks)),
    ensures
        rocks_fit(grid, places(after_passes(grid, rocks, n))),
    decreases n,
{
    if n > 0 {
        lemma_passes_keep_fit(grid, rocks, (n - 1) as nat);
        lemma_pass_keeps_fit(grid, after_passes(grid, rocks, (n - 1) as nat));
    }
}

/// Rocks that share a heading and no cell do not collide in the next pass,
/// whatever the board holds: only rocks with different headings can meet.
pub proof fn lemma_aligned_pass(grid: Grid<Tile>, rocks: Set<MovingRock>, direction: Horizontal)
    requires
        aligned(rocks, direction),
        separate(rocks),
    ensures
        collision_free(grid, rocks),
{
    let occupied = places(rocks);
    assert forall|a: MovingRock, b: MovingRock|
        #![trigger rocks.contains(a), rocks.contains(b)]
        rocks.contains(a) && rocks.contains(b) && a != b implies stepped(grid, occupied, a).pos
            != stepped(grid, occupied, b).pos by {
        assert(a.pos != b.pos);
        assert(occupied.contains(a.pos));
        assert(occupied.contains(b.pos));
    }
}

/// On a board without reflectors, rocks that share a heading keep it
/// through a pass.
pub proof fn lemma_plain_pass(grid: Grid<Tile>, rocks: Set<MovingRock>, direction: Horizontal)
    requires
        reflector_free(grid),
        aligned(rocks, direction),
    ensures
        aligned(pass_of(grid, rocks), direction),
{
    let occupied = places(rocks);
    let step = |r: MovingRock| stepped(grid, occupied, r);
    assert forall|r: MovingRock| #[trigger] pass_of(grid, rocks).contains(r) implies r.direction
        == direction by {
        let from = choose|q: MovingRock| rocks.contains(q) && step(q) == r;
        assert(rocks.contains(from));
        lemma_plain_step(grid, occupied, from);
    }
}

/// On a board without reflectors a rock keeps its heading, and it either
/// stays or moves one cell ahead onto a cell that was not occupied.
pub proof fn lemma_plain_step(grid: Grid<Tile>, occupied: Set<Pos>, rock: MovingRock)
    requires
        reflector_free(grid),
    ensures
        stepped(grid, occupied, rock).direction == rock.direction,
        stepped(grid, occupied, rock).pos != rock.pos ==> {
            &&& displaced(rock.pos, rock.direction.offset()) == Some(
                stepped(grid, occupied, rock).pos,
            )
            &&& grid.covers(stepped(grid, occupied, rock).pos)
            &&& !occupied.contains(stepped(grid, occupied, rock).pos)
        },
{
    match displaced(rock.pos, rock.direction.offset()) {
        None => {},
        Some(next) => {
            if grid.covers(next) {
                assert(!(grid.at(next).rock is SingleReflect));
            }
        },
    }
}

/// How a reflector acts: it lets a rock in against either of its two
/// components and sends it along the other one, and it keeps out a rock that
/// is heading along one of its components.
pub proof fn lemma_reflector(diagonal: Diagonal, heading: Horizontal)
    ensures
        deflected(Tile { rock: RockKind::SingleReflect(diagonal) }, heading) == (if heading
            == diagonal.vertical().opposite() {
            Some(diagonal.sideways())
        } else if heading == diagonal.sideways().opposite() {
            Some(diagonal.vertical())
        } else {
            None
        }),
        deflected(Tile { rock: RockKind::SingleReflect(diagonal) }, heading) is None <==> heading
            == diagonal.vertical() || heading == diagonal.sideways(),
{
}

/// Rocks that share a heading are the rocks set rolling from their cells.
pub proof fn lemma_aligned_is_launched(rocks: Set<MovingRock>, direction: Horizontal)
    requires
        aligned(rocks, direction),
    ensures
        rocks == launched(places(rocks), direction),
{
    let launch = |p: Pos| MovingRock { pos: p, direction };
    let back = launched(places(rocks), direction);
    assert forall|r: MovingRock| rocks.contains(r) <==> back.contains(r) by {
        if rocks.contains(r) {
            assert(places(rocks).contains(r.pos));
            assert(launch(r.pos) == r);
        }
        if back.contains(r) {
            let p = choose|p: Pos| places(rocks).contains(p) && launch(p) == r;
            let q = choose|q: MovingRock| rocks.contains(q) && q.pos == p;
            assert(q == r);
        }
    }
    assert(rocks =~= back);
}

/// On a board without reflectors the rocks keep the heading of the tilt,
/// never share a cell and never collide, however many passes are run.
pub proof fn lemma_plain_passes(
    grid: Grid<Tile>,
    rocks: Set<Pos>,
    direction: Horizontal,
    n: nat,
)
    requires
        rocks.finite(),
        reflector_free(grid),
    ensures
        aligned(after_passes(grid, launched(rocks, direction), n), direction),
        separate(after_passes(grid, launched(rocks, direction), n)),
        collision_free(grid, after_passes(grid, launched(rocks, direction), n)),
        after_passes(grid, launched(rocks, direction), n).finite(),
        after_passes(grid, launched(rocks, direction), n).len() == rocks.len(),
    decreases n,
{
    let start = launched(rocks, direction);
    if n == 0 {
        lemma_launched(rocks, direction);
    } else {
        let before = after_passes(grid, start, (n - 1) as nat);
        lemma_plain_passes(grid, rocks, direction, (n - 1) as nat);
        lemma_plain_pass(grid, before, direction);
        lemma_pass_conserves(grid, before);
    }
    lemma_aligned_pass(grid, after_passes(grid, start, n), direction);
}

/// Conservation on a board without reflectors: after any number of passes
/// there are as many occupied cells as there were rocks.
pub proof fn lemma_plain_conservation(
    grid: Grid<Tile>,
    rocks: Set<Pos>,
    direction: Horizontal,
    n: nat,
)
    requires
        rocks.finite(),
        reflector_free(grid),
    ensures
        places(after_passes(grid, launched(rocks, direction), n)).finite(),
        places(after_passes(grid, launched(rocks, direction), n)).len() == rocks.len(),
{
    assert forall|m: nat| m < n implies collision_free(
        grid,
        #[trigger] after_passes(grid, launched(rocks, direction), m),
    ) by {
        lemma_plain_passes(grid, rocks, direction, m);
    }
    lemma_conservation(grid, rocks, direction, n);
}

/// Running one pass first and `n` passes then is running `n + 1` passes.
pub proof fn lemma_passes_shift(grid: Grid<Tile>, rocks: Set<MovingRock>, n: nat)
    ensures
        after_passes(grid, pass_of(grid, rocks), n) == after_passes(grid, rocks, n + 1),
    decreases n,
{
    if n == 0 {
        assert(after_passes(grid, rocks, 1) == pass_of(grid, after_passes(grid, rocks, 0)));
    } else {
        lemma_passes_shift(grid, rocks, (n - 1) as nat);
        assert(after_passes(grid, rocks, n + 1) == pass_of(grid, after_passes(grid, rocks, n)));
    }
}

/// The number of cells between `pos` and the edge of the board that rocks
/// heading towards `direction` roll to.
pub open spec fn distance_to_edge(grid: Grid<Tile>, direction: Horizontal, pos: Pos) -> int {
    match direction {
        Horizontal::Top => pos.y as int,
        Horizontal::Left => pos.x as int,
        Horizontal::Right => grid.cols() - 1 - pos.x,
        Horizontal::Bottom => grid.rows_count() - 1 - pos.y,
    }
}

/// The distances to the edge of all the rocks of a listing, added up.
pub open spec fn total_distance(grid: Grid<Tile>, direction: Horizontal, rocks: Seq<MovingRock>) -> int
    decreases rocks.len(),
{
    if rocks.len() == 0 {
        0
    } else {
        total_distance(grid, direction, rocks.drop_last()) + distance_to_edge(
            grid,
            direction,
            rocks.last().pos,
        )
    }
}

/// On a board without reflectors a rock on the board stays on it, and a
/// move brings it one cell nearer to the edge.
pub proof fn lemma_plain_step_distance(grid: Grid<Tile>, occupied: Set<Pos>, rock: MovingRock)
    requires
        reflector_free(grid),
        grid.covers(rock.pos),
    ensures
        grid.covers(stepped(grid, occupied, rock).pos),
        stepped(grid, occupied, rock).direction == rock.direction,
        0 <= distance_to_edge(grid, rock.direction, rock.pos),
        distance_to_edge(grid, rock.direction, stepped(grid, occupied, rock).pos) == (if stepped(
            grid,
            occupied,
            rock,
        ).pos == rock.pos {
            distance_to_edge(grid, rock.direction, rock.pos)
        } else {
            distance_to_edge(grid, rock.direction, rock.pos) - 1
        }),
{
    lemma_plain_step(grid, occupied, rock);
}

/// On a board without reflectors a pass never raises the total distance,
/// and lowers it if any rock moves.
pub proof fn lemma_plain_pass_distance(
    grid: Grid<Tile>,
    occupied: Set<Pos>,
    direction: Horizontal,
    rocks: Seq<MovingRock>,
)
    requires
        reflector_free(grid),
        forall|i: int|
            0 <= i < rocks.len() ==> grid.covers(#[trigger] rocks[i].pos) && rocks[i].direction
                == direction,
    ensures
        0 <= total_distance(
            grid,
            direction,
            rocks.map_values(|r: MovingRock| stepped(grid, occupied, r)),
        ) <= total_distance(grid, direction, rocks),
        (exists|i: int|
            0 <= i < rocks.len() && stepped(grid, occupied, #[trigger] rocks[i]).pos
                != rocks[i].pos) ==> total_distance(
            grid,
            direction,
            rocks.map_values(|r: MovingRock| stepped(grid, occupied, r)),
        ) < total_distance(grid, direction, rocks),
    decreases rocks.len(),
{
    let step = |r: MovingRock| stepped(grid, occupied, r);
    if rocks.len() > 0 {
        let front = rocks.drop_last();
        lemma_plain_pass_distance(grid, occupied, direction, front);
        lemma_plain_step_distance(grid, occupied, rocks.last());
        assert(rocks.map_values(step).drop_last() =~= front.map_values(step));
        assert(rocks.map_values(step).last() == step(rocks.last()));
        if exists|i: int|
            0 <= i < rocks.len() && stepped(grid, occupied, #[trigger] rocks[i]).pos
                != rocks[i].pos {
            let i = choose|i: int|
                0 <= i < rocks.len() && stepped(grid, occupied, #[trigger] rocks[i]).pos
                    != rocks[i].pos;
            if i < rocks.len() - 1 {
                assert(front[i] == rocks[i]);
            }
        }
    }
}

/// On a board without reflectors, the rocks of a listing come to rest.
pub proof fn lemma_plain_listing_settles(
    grid: Grid<Tile>,
    direction: Horizontal,
    rocks: Seq<MovingRock>,
)
    requires
        reflector_free(grid),
        forall|i: int|
            0 <= i < rocks.len() ==> grid.covers(#[trigger] rocks[i].pos) && rocks[i].direction
                == direction,
    ensures
        settles(grid, rocks.to_set()),
    decreases total_distance(grid, direction, rocks),
{
    let set = rocks.to_set();
    let occupied = places(set);
    let step = |r: MovingRock| stepped(grid, occupied, r);
    if is_still(grid, set) {
        assert(is_still(grid, after_passes(grid, set, 0)));
    } else {
        let moving = choose|r: MovingRock| set.contains(r) && stepped(grid, occupied, r).pos != r.pos;
        let i = choose|i: int| 0 <= i < rocks.len() && rocks[i] == moving;
        assert(stepped(grid, occupied, rocks[i]).pos != rocks[i].pos);
        let next = rocks.map_values(step);
        lemma_plain_pass_distance(grid, occupied, direction, rocks);
        assert forall|k: int| 0 <= k < next.len() implies grid.covers(#[trigger] next[k].pos)
            && next[k].direction == direction by {
            lemma_plain_step_distance(grid, occupied, rocks[k]);
        }
        rocks.lemma_to_set_map_commutes(step);
        assert(next.to_set() == pass_of(grid, set));
        lemma_plain_listing_settles(grid, direction, next);
        let n = choose|n: nat| #[trigger] is_still(grid, after_passes(grid, next.to_set(), n));
        lemma_passes_shift(grid, set, n);
        assert(is_still(grid, after_passes(grid, set, n + 1)));
    }
}

/// Termination: on a board without reflectors every tilt comes to rest.
pub proof fn lemma_plain_settles(grid: Grid<Tile>, rocks: Set<Pos>, direction: Horizontal)
    requires
        rocks.finite(),
        rocks_fit(grid, rocks),
        reflector_free(grid),
    ensures
        settles(grid, launched(rocks, direction)),
{
    let start = launched(rocks, direction);
    lemma_launched(rocks, direction);
    let listing = start.to_seq();
    start.lemma_to_seq_to_set_id();
    assert forall|i: int| 0 <= i < listing.len() implies grid.covers(#[trigger] listing[i].pos)
        && listing[i].direction == direction by {
        assert(listing.to_set().contains(listing[i]));
        assert(start.contains(listing[i]));
        assert(places(start).contains(listing[i].pos));
    }
    lemma_plain_listing_settles(grid, direction, listing);
}

/// Conservation for a whole tilt on a board without reflectors: the
/// settled rocks are as many as the rocks before the tilt.
pub proof fn lemma_plain_tilt_conserves(grid: Grid<Tile>, rocks: Set<Pos>, direction: Horizontal)
    requires
        rocks.finite(),
        reflector_free(grid),
    ensures
        settled(grid, rocks, direction).finite(),
        settled(grid, rocks, direction).len() == rocks.len(),
{
    let start = launched(rocks, direction);
    lemma_plain_conservation(grid, rocks, direction, passes_needed(grid, start));
}

/// Idempotence: if the settled rocks, set rolling again towards the same
/// edge, cannot move, then a second tilt runs no pass and changes nothing.
///
/// A rock that a reflector has turned and that a wall has stopped may be
/// free to roll on in the direction of the tilt: then the second tilt moves
/// it.
pub proof fn lemma_settled_stays(grid: Grid<Tile>, rocks: Set<Pos>, direction: Horizontal)
    requires
        is_still(grid, launched(settled(grid, rocks, direction), direction)),
    ensures
        passes_needed(grid, launched(settled(grid, rocks, direction), direction)) == 0,
        settled(grid, settled(grid, rocks, direction), direction) == settled(
            grid,
            rocks,
            direction,
        ),
{
    let once = settled(grid, rocks, direction);
    let again = launched(once, direction);
    assert(rests_after(grid, again, 0));
    lemma_passes_needed(grid, again, 0);
    assert forall|p: Pos| once.contains(p) <==> places(again).contains(p) by {
        if once.contains(p) {
            let r = MovingRock { pos: p, direction };
            assert(again.contains(r));
            assert(places(again).contains(r.pos));
        }
    }
    assert(places(again) =~= once);
}

/// Idempotence on a board without reflectors: a second tilt towards the
/// same edge runs no pass and changes nothing.
pub proof fn lemma_plain_settled_stays(grid: Grid<Tile>, rocks: Set<Pos>, direction: Horizontal)
    requires
        rocks.finite(),
        rocks_fit(grid, rocks),
        reflector_free(grid),
    ensures
        passes_needed(grid, launched(settled(grid, rocks, direction), direction)) == 0,
        settled(grid, settled(grid, rocks, direction), direction) == settled(
            grid,
            rocks,
            direction,
        ),
{
    let start = launched(rocks, direction);
    let n = passes_needed(grid, start);
    lemma_plain_settles(grid, rocks, direction);
    lemma_settles(grid, start);
    lemma_plain_passes(grid, rocks, direction, n);
    lemma_aligned_is_launched(after_passes(grid, start, n), direction);
    lemma_settled_stays(grid, rocks, direction);
}

} // verus!
