use tilt_game::grid::Grid;
use tilt_game::offset::Offset;
use tilt_game::pos::{Pos, W};

#[test]
fn test_pos_addition() {
    let pos1 = Pos { x: 1, y: 2 };
    let pos2 = Pos { x: 3, y: 4 };

    let result = pos1 + pos2;

    assert_eq!(result, Pos { x: 4, y: 6 });
}

#[test]
fn test_pos_add_assign() {
    let mut pos1 = Pos { x: 1, y: 2 };
    let pos2 = Pos { x: 3, y: 4 };

    pos1 += pos2;

    assert_eq!(pos1, Pos { x: 4, y: 6 });
}

#[test]
fn test_offset_negation() {
    let offset = Offset { x: 1, y: -2 };

    let result = -offset;

    assert_eq!(result, Offset { x: -1, y: 2 });
}

#[test]
fn test_offset_addition() {
    let offset1 = Offset { x: 1, y: 2 };
    let offset2 = Offset { x: 3, y: 4 };

    let result = offset1 + offset2;

    assert_eq!(result, Offset { x: 4, y: 6 });
}

#[test]
fn try_add_moves_within_u32() {
    let pos = Pos { x: 3, y: 0 };
    assert_eq!(W(&pos).try_add(&Offset { x: -1, y: 0 }), Some(Pos { x: 2, y: 0 }));
    assert_eq!(W(&pos).try_add(&Offset { x: 0, y: -1 }), None);
    assert_eq!(W(&pos).try_add(&Offset { x: -4, y: 0 }), None);
    let far = Pos { x: u32::MAX, y: 7 };
    assert_eq!(W(&far).try_add(&Offset { x: 1, y: 0 }), None);
    assert_eq!(W(&far).try_add(&Offset { x: 0, y: 1 }), Some(Pos { x: u32::MAX, y: 8 }));
}

#[test]
fn try_add_in_map_respects_the_board() {
    let map = Grid::with_size(3, 5);
    let pos = Pos { x: 2, y: 4 };
    assert_eq!(W(&pos).try_add_in_map(&map, &Offset { x: 1, y: 0 }), None);
    assert_eq!(W(&pos).try_add_in_map(&map, &Offset { x: 0, y: 1 }), None);
    assert_eq!(W(&pos).try_add_in_map(&map, &Offset { x: -1, y: -1 }), Some(Pos { x: 1, y: 3 }));
    assert_eq!(W(&pos).try_add_in_map(&map, &Offset { x: -3, y: 0 }), None);
}

#[test]
fn apply_overwrites_the_position() {
    let mut pos = Pos { x: 1, y: 2 };
    W(&mut pos).apply(&Pos { x: 9, y: 8 });
    assert_eq!(pos, Pos { x: 9, y: 8 });
}
