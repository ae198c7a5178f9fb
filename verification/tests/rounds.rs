use std::time::Duration;

use tilt_game::direction::{Diagonal, Horizontal};
use tilt_game::input::{handle_input, Key, Request};
use tilt_game::levels::{Level, Save};
use tilt_game::map_data::{prepare_map, shown_rows, MapData, ShownCell};
use tilt_game::offset::Offset;
use tilt_game::pos::Pos;
use tilt_game::round::{LostReason, RoundResult, RoundStats};
use tilt_game::settings::Settings;
use tilt_game::state::MapState;
use tilt_game::text::{read_grid, read_rows};
use tilt_game::tile::{Rock, RockKind, Tile};
use tilt_game::tilt::tilt;
use tilt_game::win_condition::{GeneralWinConditions, RockWinConditions, WinCondition};
use tilt_game::winning::{all_targets_met, check_result, evaluate_win, WinError};

fn condition(max_moves: Option<u32>, targets: &[(u32, u32)]) -> WinCondition {
    WinCondition {
        general: GeneralWinConditions { max_moves },
        rocks: RockWinConditions::Pos(targets.iter().map(|&(x, y)| Pos { x, y }).collect()),
    }
}

fn rocks(list: &[(u32, u32)]) -> MapState {
    MapState::from_positions(&list.iter().map(|&(x, y)| Pos { x, y }).collect())
}

#[test]
fn loss_scenario() {
    let map = read_grid(". . #\n. . .").unwrap();
    let mut state = rocks(&[(0, 0)]);
    let win = condition(Some(1), &[(2, 1)]);
    let mut stats = RoundStats::default();
    stats.record_move();
    tilt(Horizontal::Right, &map, &mut state);
    assert_eq!(state.positions(), vec![Pos { x: 1, y: 0 }]);
    assert_eq!(
        check_result(&win, &state, &stats),
        Some(RoundResult::Lost(LostReason::RoundsExceeded))
    );
    assert_eq!(
        evaluate_win(&win, &state, &stats),
        Ok(Some(RoundResult::Lost(LostReason::RoundsExceeded)))
    );
}

#[test]
fn round_goes_on_while_moves_are_left() {
    let state = rocks(&[(0, 0)]);
    let stats = RoundStats { moves: 1 };
    assert_eq!(check_result(&condition(Some(2), &[(1, 1)]), &state, &stats), None);
    assert_eq!(check_result(&condition(None, &[(1, 1)]), &state, &stats), None);
    assert_eq!(
        check_result(&condition(Some(0), &[(1, 1)]), &state, &RoundStats::new()),
        Some(RoundResult::Lost(LostReason::RoundsExceeded))
    );
}

#[test]
fn win_comes_before_the_move_limit() {
    let state = rocks(&[(0, 0), (3, 1), (2, 2)]);
    let stats = RoundStats { moves: 9 };
    assert_eq!(
        check_result(&condition(Some(1), &[(3, 1), (0, 0)]), &state, &stats),
        Some(RoundResult::Won)
    );
    assert_eq!(check_result(&condition(Some(1), &[]), &state, &stats), Some(RoundResult::Won));
    assert_eq!(
        check_result(&condition(Some(1), &[(3, 1), (1, 1)]), &state, &stats),
        Some(RoundResult::Lost(LostReason::RoundsExceeded))
    );
    assert!(all_targets_met(&vec![Pos { x: 2, y: 2 }], &state));
    assert!(!all_targets_met(&vec![Pos { x: 2, y: 2 }, Pos { x: 2, y: 3 }], &state));
}

#[test]
fn exit_condition_is_refused() {
    let win = WinCondition {
        general: GeneralWinConditions { max_moves: Some(0) },
        rocks: RockWinConditions::Exit(vec![Pos { x: 0, y: 0 }]),
    };
    let state = rocks(&[(0, 0)]);
    assert_eq!(
        evaluate_win(&win, &state, &RoundStats::new()),
        Err(WinError::ExitUnsupported)
    );
    let map_data = MapData { map: read_grid(". .").unwrap(), win };
    assert_eq!(shown_rows(&map_data, &state), Err(WinError::ExitUnsupported));
}

#[test]
fn round_stats_count_and_reset() {
    let mut stats = RoundStats::new();
    assert_eq!(stats.moves, 0);
    stats.record_move();
    stats.record_move();
    assert_eq!(stats, RoundStats { moves: 2 });
    stats.reset();
    assert_eq!(stats, RoundStats::default());
}

#[test]
fn rock_set_behaves_like_a_set() {
    let mut state = MapState::new();
    assert!(state.is_empty());
    assert!(state.insert(Pos { x: 1, y: 1 }));
    assert!(!state.insert(Pos { x: 1, y: 1 }));
    assert!(state.insert(Pos { x: 2, y: 1 }));
    assert_eq!(state.len(), 2);
    assert!(state.contains(&Pos { x: 2, y: 1 }));
    assert!(!state.contains(&Pos { x: 1, y: 2 }));
    assert_eq!(state, rocks(&[(2, 1), (1, 1), (2, 1)]));
    assert_ne!(state, rocks(&[(2, 1), (1, 2)]));
    assert_ne!(state, rocks(&[(2, 1)]));
    assert_ne!(rocks(&[(2, 1)]), state);
    assert!(state.remove(&Pos { x: 1, y: 1 }));
    assert!(!state.remove(&Pos { x: 1, y: 1 }));
    assert_eq!(state.positions(), vec![Pos { x: 2, y: 1 }]);
    assert!(!state.is_empty());
}

#[test]
fn prepare_map_takes_the_rocks_off_the_board() {
    let mut map_data = MapData {
        map: read_grid("o . #\n◢ O .").unwrap(),
        win: condition(None, &[]),
    };
    let state = prepare_map(&mut map_data);
    assert_eq!(state, rocks(&[(0, 0), (1, 1)]));
    let expected = read_grid(". . #\n◢ . .").unwrap();
    assert_eq!(map_data.map, expected);
    let again = prepare_map(&mut map_data);
    assert!(again.is_empty());
    assert_eq!(map_data.map, expected);
}

#[test]
fn board_text_is_read_row_by_row() {
    let rows = read_rows(" .  o\t#\r\n\n ◢ ◣ ◥\n◤").unwrap();
    let kinds: Vec<Vec<RockKind>> =
        rows.iter().map(|row| row.iter().map(|tile| tile.rock).collect()).collect();
    assert_eq!(
        kinds,
        vec![
            vec![RockKind::Empty, RockKind::RoundRock, RockKind::SquareRock],
            vec![
                RockKind::SingleReflect(Diagonal::TopLeft),
                RockKind::SingleReflect(Diagonal::TopRight),
                RockKind::SingleReflect(Diagonal::BottomLeft),
            ],
            vec![RockKind::SingleReflect(Diagonal::BottomRight)],
        ]
    );
    assert_eq!(read_rows(""), Some(vec![]));
    assert_eq!(read_rows("\n \n"), Some(vec![]));
    assert_eq!(read_rows(". x"), None);
    assert_eq!(read_rows(".. ."), None);
    assert_eq!(read_grid(". .\n."), None);
    assert_eq!(read_grid(". x"), None);
    let map = read_grid(". #\n\no .\n").unwrap();
    assert_eq!((map.width(), map.height()), (2, 2));
    assert_eq!(map.get(&Pos { x: 0, y: 1 }), Some(&Tile { rock: RockKind::RoundRock }));
}

#[test]
fn glyphs_of_tiles() {
    assert_eq!(RockKind::from_char('.'), Some(RockKind::Empty));
    assert_eq!(RockKind::from_char('o'), Some(RockKind::RoundRock));
    assert_eq!(RockKind::from_char('O'), Some(RockKind::RoundRock));
    assert_eq!(RockKind::from_char('#'), Some(RockKind::SquareRock));
    assert_eq!(RockKind::from_char('◢'), Some(RockKind::SingleReflect(Diagonal::TopLeft)));
    assert_eq!(RockKind::from_char('◣'), Some(RockKind::SingleReflect(Diagonal::TopRight)));
    assert_eq!(RockKind::from_char('◥'), Some(RockKind::SingleReflect(Diagonal::BottomLeft)));
    assert_eq!(RockKind::from_char('◤'), Some(RockKind::SingleReflect(Diagonal::BottomRight)));
    assert_eq!(RockKind::from_char('x'), None);
    assert_eq!(Tile::from_char('#'), Some(Tile { rock: RockKind::SquareRock }));
    assert_eq!(Tile::from_char(' '), None);
    assert_eq!(RockKind::Empty.to_char(), '•');
    assert_eq!(RockKind::RoundRock.to_char(), '○');
    assert_eq!(RockKind::SquareRock.to_char(), '▨');
    assert_eq!(RockKind::SingleReflect(Diagonal::TopLeft).to_char(), '◢');
    assert_eq!(RockKind::SingleReflect(Diagonal::TopRight).to_char(), '◣');
    assert_eq!(RockKind::SingleReflect(Diagonal::BottomLeft).to_char(), '◥');
    assert_eq!(RockKind::SingleReflect(Diagonal::BottomRight).to_char(), '◤');
    assert_eq!(Tile::from(RockKind::SquareRock).to_char(), '▨');
    assert_eq!(Rock { kind: RockKind::RoundRock }.to_char(), '○');
    assert_eq!(RockKind::default(), RockKind::Empty);
    assert_eq!(Tile::default(), Tile { rock: RockKind::Empty });
}

#[test]
fn shown_rows_overlay_rocks_and_mark_targets() {
    let map_data = MapData {
        map: read_grid(". # ◢\n. . .").unwrap(),
        win: condition(None, &[(1, 1), (2, 0)]),
    };
    let state = rocks(&[(0, 0), (2, 0)]);
    let cell = |glyph: char, target: bool| ShownCell { glyph, target };
    assert_eq!(
        shown_rows(&map_data, &state),
        Ok(vec![
            vec![cell('○', false), cell('▨', false), cell('○', true)],
            vec![cell('•', false), cell('•', true), cell('•', false)],
        ])
    );
}

#[test]
fn directions_and_their_offsets() {
    assert_eq!(Horizontal::Top.to_offset(), Offset { x: 0, y: -1 });
    assert_eq!(Horizontal::Bottom.to_offset(), Offset { x: 0, y: 1 });
    assert_eq!(Horizontal::Left.to_offset(), Offset { x: -1, y: 0 });
    assert_eq!(Horizontal::Right.to_offset(), Offset { x: 1, y: 0 });
    for direction in [Horizontal::Top, Horizontal::Bottom, Horizontal::Left, Horizontal::Right] {
        assert_eq!(direction.reverse().to_offset(), -direction.to_offset());
        assert_eq!(direction.reverse().reverse(), direction);
    }
    assert_eq!(Diagonal::TopLeft.horizontals(), [Horizontal::Top, Horizontal::Left]);
    assert_eq!(Diagonal::TopRight.horizontals(), [Horizontal::Top, Horizontal::Right]);
    assert_eq!(Diagonal::BottomLeft.horizontals(), [Horizontal::Bottom, Horizontal::Left]);
    assert_eq!(Diagonal::BottomRight.horizontals(), [Horizontal::Bottom, Horizontal::Right]);
    assert_eq!(Diagonal::TopLeft.to_offset(), Offset::new(1, -1));
    assert_eq!(Diagonal::TopRight.to_offset(), Offset::new(1, 1));
    assert_eq!(Diagonal::BottomLeft.to_offset(), Offset::new(-1, 1));
    assert_eq!(Diagonal::BottomRight.to_offset(), Offset::new(-1, -1));
    assert_eq!(Offset::x(3), Offset { x: 3, y: 0 });
    assert_eq!(Offset::y(-3), Offset { x: 0, y: -3 });
    assert_eq!(Pos::new(3, 4), Pos { x: 3, y: 4 });
}

#[test]
fn levels_follow_each_other() {
    let order = Level::all();
    assert_eq!(order.len(), 8);
    for pair in order.windows(2) {
        assert_eq!(pair[0].get_next_level(), pair[1]);
    }
    assert_eq!(Level::Lv99.get_next_level(), Level::Lv99);
    assert_eq!(Level::Lv3.get_next_level(), Level::Lv5);
    let numbers: Vec<u32> = order.iter().map(|level| level.number()).collect();
    assert_eq!(numbers, vec![1, 2, 3, 5, 6, 10, 60, 99]);
    for level in order {
        assert_eq!(Level::from_number(level.number()), Some(level));
    }
    assert_eq!(Level::from_number(4), None);
    assert_eq!(Level::from_number(0), None);
    assert_eq!(Save::default(), Save { next_level: Level::Lv1 });
}

#[test]
fn move_delay_is_given_in_milliseconds() {
    assert_eq!(Settings { move_delay_ms: None }.move_delay(), None);
    assert_eq!(
        Settings { move_delay_ms: Some(150) }.move_delay(),
        Some(Duration::from_millis(150))
    );
    assert_eq!(Settings { move_delay_ms: Some(0) }.move_delay(), Some(Duration::ZERO));
    assert_eq!(Settings::default().move_delay(), None);
}

#[test]
fn keys_and_their_meaning() {
    assert_eq!(handle_input(&Key::Char('w')), Request::Tilt(Horizontal::Top));
    assert_eq!(handle_input(&Key::ArrowUp), Request::Tilt(Horizontal::Top));
    assert_eq!(handle_input(&Key::Char('a')), Request::Tilt(Horizontal::Left));
    assert_eq!(handle_input(&Key::ArrowLeft), Request::Tilt(Horizontal::Left));
    assert_eq!(handle_input(&Key::Char('s')), Request::Tilt(Horizontal::Bottom));
    assert_eq!(handle_input(&Key::ArrowDown), Request::Tilt(Horizontal::Bottom));
    assert_eq!(handle_input(&Key::Char('d')), Request::Tilt(Horizontal::Right));
    assert_eq!(handle_input(&Key::ArrowRight), Request::Tilt(Horizontal::Right));
    assert_eq!(handle_input(&Key::Char('?')), Request::Help);
    assert_eq!(handle_input(&Key::Char('h')), Request::Help);
    assert_eq!(handle_input(&Key::Char('r')), Request::Restart);
    assert_eq!(handle_input(&Key::Char(':')), Request::Command);
    assert_eq!(handle_input(&Key::Escape), Request::Quit);
    assert_eq!(handle_input(&Key::Char('q')), Request::Ignore);
    assert_eq!(handle_input(&Key::Other), Request::Ignore);
}
