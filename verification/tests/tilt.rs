use tilt_game::direction::{Diagonal, Horizontal};
use tilt_game::grid::Grid;
use tilt_game::map_data::{prepare_map, MapData};
use tilt_game::pos::Pos;
use tilt_game::round::RoundStats;
use tilt_game::state::MapState;
use tilt_game::text::read_grid;
use tilt_game::tile::{RockKind, Tile};
use tilt_game::tilt::{
    is_at_rest, sort_for_pass, sort_rock_for_rotation, start_tilt, tilt, tilt_pass, tilt_within,
    try_adjust_rock_movement_from_new_tile, try_move_and_update_rock, MovingRock,
};
use tilt_game::win_condition::{GeneralWinConditions, RockWinConditions, WinCondition};
use tilt_game::winning::evaluate_win;

fn load(text: &str) -> (Grid<Tile>, MapState) {
    let map = read_grid(text).expect("the board should be well formed");
    let mut map_data = MapData {
        map,
        win: WinCondition {
            general: GeneralWinConditions { max_moves: None },
            rocks: RockWinConditions::Pos(vec![]),
        },
    };
    let state = prepare_map(&mut map_data);
    (map_data.map, state)
}

fn sorted(state: &MapState) -> Vec<Pos> {
    let mut cells = state.positions();
    cells.sort();
    cells
}

fn cells(list: &[(u32, u32)]) -> Vec<Pos> {
    let mut cells: Vec<Pos> = list.iter().map(|&(x, y)| Pos { x, y }).collect();
    cells.sort();
    cells
}

#[test]
fn spin() {
    let (map, mut state) = load(
        r"o . . . . # . . . .
            o . o o # . . . . #
            . . . . . # # . . .
            o o . # o . . . . o
            . o . . . . . o # .
            o . # . . o . # . #
            . . o . . # o . . o
            . . . . . . . o . .
            # . . . . # # # . .
            # o o . . # . . . .",
    );

    for _ in 0..3 {
        for direction in [
            Horizontal::Top,
            Horizontal::Left,
            Horizontal::Bottom,
            Horizontal::Right,
        ] {
            tilt(direction, &map, &mut state);
        }
    }

    let (expected_map, expected_state) = load(
        r". . . . . # . . . . 
            . . . . # . . . o # 
            . . . . . # # . . . 
            . . o # . . . . . . 
            . . . . . o o o # . 
            . o # . . . o # . # 
            . . . . o # . . . o 
            . . . . . . . o o o 
            # . . . o # # # . o 
            # . o o o # . . . o",
    );

    assert_eq!(expected_map, map);
    assert_eq!(expected_state, state);
    assert_eq!(sorted(&expected_state), sorted(&state));
}

#[test]
fn tilt_spin() {
    let (map, mut state) = load(
        r"O . . . . # . . . .
            O . O O # . . . . #
            . . . . . # # . . .
            O O . # O . . . . O
            . O . . . . . O # .
            O . # . . O . # . #
            . . O . . # O . . O
            . . . . . . . O . .
            # . . . . # # # . .
            # O O . . # . . . .",
    );

    for _ in 0..3 {
        for direction in [
            Horizontal::Top,
            Horizontal::Left,
            Horizontal::Bottom,
            Horizontal::Right,
        ] {
            assert!(tilt_within(direction, &map, &mut state, 1000));
        }
    }

    let (expected_map, expected_state) = load(
        r". . . . . # . . . . 
            . . . . # . . . O # 
            . . . . . # # . . . 
            . . O # . . . . . . 
            . . . . . O O O # . 
            . O # . . . O # . # 
            . . . . O # . . . O 
            . . . . . . . O O O 
            # . . . O # # # . O 
            # . O O O # . . . O",
    );

    assert_eq!(expected_map, map);
    assert_eq!(expected_state, state);
}

#[test]
fn rocks_are_conserved_without_reflectors() {
    let (map, mut state) = load(
        "o . o #\n\
         . o . .\n\
         # . o o\n\
         o . . .",
    );
    let before = state.len();
    for direction in [
        Horizontal::Left,
        Horizontal::Bottom,
        Horizontal::Right,
        Horizontal::Top,
    ] {
        tilt(direction, &map, &mut state);
        assert_eq!(state.len(), before);
        for pos in state.positions() {
            assert_ne!(map.get(&pos).map(|tile| tile.rock), Some(RockKind::SquareRock));
            assert!(map.get(&pos).is_some());
        }
    }
}

#[test]
fn second_tilt_the_same_way_runs_no_pass() {
    let (map, mut state) = load(
        "o . o #\n\
         . o . .\n\
         # . o o\n\
         o . . .",
    );
    assert!(tilt(Horizontal::Right, &map, &mut state));
    let once = sorted(&state);
    assert!(!tilt(Horizontal::Right, &map, &mut state));
    assert_eq!(sorted(&state), once);
}

#[test]
fn free_row_is_packed_against_the_edge() {
    let (map, mut state) = load(
        ". o . o . o\n\
         o . . . . .\n\
         . . . . . .",
    );
    tilt(Horizontal::Left, &map, &mut state);
    assert_eq!(sorted(&state), cells(&[(0, 0), (1, 0), (2, 0), (0, 1)]));
    tilt(Horizontal::Right, &map, &mut state);
    assert_eq!(sorted(&state), cells(&[(3, 0), (4, 0), (5, 0), (5, 1)]));
}

#[test]
fn free_column_is_packed_against_the_edge() {
    let (map, mut state) = load(
        "o . .\n\
         . . o\n\
         o . .\n\
         o . .",
    );
    tilt(Horizontal::Bottom, &map, &mut state);
    assert_eq!(sorted(&state), cells(&[(0, 1), (0, 2), (0, 3), (2, 3)]));
    tilt(Horizontal::Top, &map, &mut state);
    assert_eq!(sorted(&state), cells(&[(0, 0), (0, 1), (0, 2), (2, 0)]));
}

#[test]
fn rock_at_the_edge_never_moves() {
    let (map, mut state) = load("o . .\n. . .");
    assert!(!tilt(Horizontal::Left, &map, &mut state));
    assert!(!tilt(Horizontal::Top, &map, &mut state));
    assert_eq!(sorted(&state), cells(&[(0, 0)]));
}

#[test]
fn wall_stops_a_rock() {
    let (map, mut state) = load("o . # .");
    assert!(tilt(Horizontal::Right, &map, &mut state));
    assert_eq!(sorted(&state), cells(&[(1, 0)]));
}

#[test]
fn trailing_rock_waits_a_pass() {
    let (map, mut state) = load("o o . .");
    let mut moving = start_tilt(Horizontal::Right, &map, &state);
    assert_eq!(moving[0].pos, Pos { x: 1, y: 0 });
    assert_eq!(moving[1].pos, Pos { x: 0, y: 0 });
    assert!(tilt_pass(&map, &mut moving, &mut state));
    assert_eq!(sorted(&state), cells(&[(0, 0), (2, 0)]));
    assert!(tilt_pass(&map, &mut moving, &mut state));
    assert_eq!(sorted(&state), cells(&[(1, 0), (3, 0)]));
    assert!(tilt_pass(&map, &mut moving, &mut state));
    assert_eq!(sorted(&state), cells(&[(2, 0), (3, 0)]));
    assert!(is_at_rest(&map, &moving, &state));
    assert!(!tilt_pass(&map, &mut moving, &mut state));
    assert_eq!(sorted(&state), cells(&[(2, 0), (3, 0)]));
}

#[test]
fn reflector_deflects_a_falling_rock_to_the_left() {
    let (map, mut state) = load(
        ". o\n\
         . ◢\n\
         . .",
    );
    let mut moving = start_tilt(Horizontal::Bottom, &map, &state);
    assert!(tilt_pass(&map, &mut moving, &mut state));
    assert_eq!(
        moving,
        vec![MovingRock { pos: Pos { x: 1, y: 1 }, direction: Horizontal::Left }]
    );
    assert_eq!(sorted(&state), cells(&[(1, 1)]));
    assert!(tilt_pass(&map, &mut moving, &mut state));
    assert_eq!(sorted(&state), cells(&[(0, 1)]));
    assert!(!tilt_pass(&map, &mut moving, &mut state));
}

#[test]
fn reflector_turns_a_rock_that_rolls_right_upwards() {
    let (map, mut state) = load(
        ". . .\n\
         o . ◢",
    );
    assert!(tilt(Horizontal::Right, &map, &mut state));
    assert_eq!(sorted(&state), cells(&[(2, 0)]));
}

#[test]
fn reflector_blocks_a_rock_on_its_flat_sides() {
    let mirror = Tile { rock: RockKind::SingleReflect(Diagonal::TopLeft) };
    for heading in [Horizontal::Top, Horizontal::Left] {
        let mut rock = MovingRock { pos: Pos { x: 4, y: 4 }, direction: heading };
        assert!(!try_adjust_rock_movement_from_new_tile(&mirror, &mut rock));
        assert_eq!(rock, MovingRock { pos: Pos { x: 4, y: 4 }, direction: heading });
    }

    let (map, mut state) = load("◢ o");
    assert!(!tilt(Horizontal::Left, &map, &mut state));
    assert_eq!(sorted(&state), cells(&[(1, 0)]));

    let (map, mut state) = load("◢\no");
    assert!(!tilt(Horizontal::Top, &map, &mut state));
    assert_eq!(sorted(&state), cells(&[(0, 1)]));
}

#[test]
fn each_reflector_turns_two_headings_and_blocks_two() {
    let cases = [
        (Diagonal::TopLeft, Horizontal::Bottom, Some(Horizontal::Left)),
        (Diagonal::TopLeft, Horizontal::Right, Some(Horizontal::Top)),
        (Diagonal::TopLeft, Horizontal::Top, None),
        (Diagonal::TopLeft, Horizontal::Left, None),
        (Diagonal::TopRight, Horizontal::Bottom, Some(Horizontal::Right)),
        (Diagonal::TopRight, Horizontal::Left, Some(Horizontal::Top)),
        (Diagonal::TopRight, Horizontal::Top, None),
        (Diagonal::TopRight, Horizontal::Right, None),
        (Diagonal::BottomLeft, Horizontal::Top, Some(Horizontal::Left)),
        (Diagonal::BottomLeft, Horizontal::Right, Some(Horizontal::Bottom)),
        (Diagonal::BottomLeft, Horizontal::Bottom, None),
        (Diagonal::BottomLeft, Horizontal::Left, None),
        (Diagonal::BottomRight, Horizontal::Top, Some(Horizontal::Right)),
        (Diagonal::BottomRight, Horizontal::Left, Some(Horizontal::Bottom)),
        (Diagonal::BottomRight, Horizontal::Bottom, None),
        (Diagonal::BottomRight, Horizontal::Right, None),
    ];
    for (diagonal, heading, expected) in cases {
        let mirror = Tile { rock: RockKind::SingleReflect(diagonal) };
        let mut rock = MovingRock { pos: Pos { x: 0, y: 0 }, direction: heading };
        let passable = try_adjust_rock_movement_from_new_tile(&mirror, &mut rock);
        assert_eq!(passable, expected.is_some());
        assert_eq!(rock.direction, expected.unwrap_or(heading));
    }
}

#[test]
fn rock_waits_in_front_of_an_occupied_reflector_with_its_new_heading() {
    let (map, state) = load(
        ". o\n\
         . ◢",
    );
    let mut blocked = MapState::from_positions(&vec![Pos { x: 1, y: 0 }, Pos { x: 1, y: 1 }]);
    assert_eq!(blocked.len(), 2);
    let mut rock = MovingRock { pos: Pos { x: 1, y: 0 }, direction: Horizontal::Bottom };
    assert!(!try_move_and_update_rock(&mut rock, &map, &blocked));
    assert_eq!(rock, MovingRock { pos: Pos { x: 1, y: 0 }, direction: Horizontal::Left });
    assert!(blocked.remove(&Pos { x: 1, y: 1 }));
    assert_eq!(state, blocked);
}

#[test]
fn rocks_with_different_headings_can_merge() {
    let (map, mut state) = load(
        ". . o .\n\
         . . . o\n\
         . . . ◢\n\
         . . . .",
    );
    assert_eq!(state.len(), 2);
    let mut moving = start_tilt(Horizontal::Bottom, &map, &state);
    assert!(tilt_pass(&map, &mut moving, &mut state));
    assert_eq!(sorted(&state), cells(&[(2, 1), (3, 2)]));
    assert!(tilt_pass(&map, &mut moving, &mut state));
    assert_eq!(sorted(&state), cells(&[(2, 2)]));
    assert_eq!(state.len(), 1);
    assert_eq!(moving.len(), 2);
}

#[test]
fn ring_of_reflectors_never_comes_to_rest() {
    let (map, mut state) = load(
        "◤ . ◥\n\
         . # .\n\
         ◣ o ◢",
    );
    assert!(!tilt_within(Horizontal::Right, &map, &mut state, 8));
    assert_eq!(sorted(&state), cells(&[(1, 2)]));
    assert!(!tilt_within(Horizontal::Right, &map, &mut state, 3));
    assert_eq!(sorted(&state), cells(&[(2, 0)]));
}

#[test]
fn tilt_within_stops_at_its_budget() {
    let (map, mut state) = load("o . . . .");
    assert!(!tilt_within(Horizontal::Right, &map, &mut state, 2));
    assert_eq!(sorted(&state), cells(&[(2, 0)]));
    assert!(tilt_within(Horizontal::Right, &map, &mut state, 2));
    assert_eq!(sorted(&state), cells(&[(4, 0)]));
    assert!(tilt_within(Horizontal::Right, &map, &mut state, 0));
    assert_eq!(sorted(&state), cells(&[(4, 0)]));
}

#[test]
fn pass_order_puts_the_leading_rock_first() {
    let (map, _) = load(
        ". . .\n\
         . . .",
    );
    let at = |x: u32, y: u32| Pos { x, y };
    assert_eq!(sort_rock_for_rotation(Horizontal::Top, &map, &at(2, 1)), 5);
    assert_eq!(sort_rock_for_rotation(Horizontal::Left, &map, &at(2, 1)), 5);
    assert_eq!(sort_rock_for_rotation(Horizontal::Right, &map, &at(2, 1)), 3);
    assert_eq!(sort_rock_for_rotation(Horizontal::Bottom, &map, &at(2, 1)), 5);
    assert_eq!(sort_rock_for_rotation(Horizontal::Bottom, &map, &at(0, 0)), 6);
    assert_eq!(sort_rock_for_rotation(Horizontal::Right, &map, &at(0, 0)), 6);

    let rock = |x: u32, y: u32| MovingRock { pos: at(x, y), direction: Horizontal::Right };
    let mut rocks = vec![rock(0, 0), rock(2, 1), rock(1, 0), rock(2, 0), rock(0, 1)];
    sort_for_pass(&mut rocks, Horizontal::Right, &map);
    assert_eq!(rocks, vec![rock(2, 0), rock(2, 1), rock(1, 0), rock(0, 0), rock(0, 1)]);
}

#[test]
fn win_scenario() {
    let (map, _) = load(". . .");
    let mut state = MapState::from_positions(&vec![Pos { x: 0, y: 0 }]);
    let win = WinCondition {
        general: GeneralWinConditions { max_moves: None },
        rocks: RockWinConditions::Pos(vec![Pos { x: 2, y: 0 }]),
    };
    let mut stats = RoundStats::new();
    assert_eq!(evaluate_win(&win, &state, &stats), Ok(None));
    stats.record_move();
    assert!(tilt(Horizontal::Right, &map, &mut state));
    assert_eq!(sorted(&state), cells(&[(2, 0)]));
    assert_eq!(
        evaluate_win(&win, &state, &stats),
        Ok(Some(tilt_game::round::RoundResult::Won))
    );
}

#[test]
fn boards_are_searched_for_reflectors() {
    let (plain, _) = load("o . #\n. . .");
    assert!(tilt_game::tilt::has_no_reflector(&plain));
    let (mirrored, _) = load("o . #\n. . ◥");
    assert!(!tilt_game::tilt::has_no_reflector(&mirrored));
    let (empty, _) = load("");
    assert!(tilt_game::tilt::has_no_reflector(&empty));
}
