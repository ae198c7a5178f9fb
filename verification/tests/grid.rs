use tilt_game::flat_map::FlatMap;
use tilt_game::grid::Grid;
use tilt_game::pos::Pos;
use tilt_game::tile::{RockKind, Tile};

fn get_test_map() -> Grid<char> {
    Grid::new(vec![
        vec!['1', '2', '3'],
        vec!['4', '5', '6'],
        vec!['7', '8', '9'],
        vec!['a', 'b', 'c'],
        vec!['d', 'e', 'f'],
    ])
    .unwrap()
}

fn rows_of(text: &str) -> Vec<Vec<char>> {
    text.lines()
        .map(|line| {
            line.split_whitespace()
                .map(|field| field.chars().next().unwrap())
                .collect()
        })
        .collect()
}

fn all_cells() -> Vec<Pos> {
    vec![
        Pos { x: 0, y: 0 },
        Pos { x: 1, y: 0 },
        Pos { x: 2, y: 0 },
        Pos { x: 0, y: 1 },
        Pos { x: 1, y: 1 },
        Pos { x: 2, y: 1 },
        Pos { x: 0, y: 2 },
        Pos { x: 1, y: 2 },
        Pos { x: 2, y: 2 },
        Pos { x: 0, y: 3 },
        Pos { x: 1, y: 3 },
        Pos { x: 2, y: 3 },
        Pos { x: 0, y: 4 },
        Pos { x: 1, y: 4 },
        Pos { x: 2, y: 4 },
    ]
}

#[test]
fn create_map() {
    let result = Grid::new(rows_of(
        "\
1 2 3
4 5 6
7 8 9
a b c
d e f
",
    ))
    .unwrap();

    let expected = Grid::from_flat(FlatMap {
        width: 3,
        height: 5,
        elements: vec![
            '1', '2', '3', '4', '5', '6', '7', '8', '9', 'a', 'b', 'c', 'd', 'e', 'f',
        ],
    })
    .unwrap();

    assert_eq!(result, expected);
}

#[test]
fn map_create_map() {
    let rows: Vec<Vec<char>> = "\
123
456
789
abc
def
"
    .lines()
    .map(|line| line.chars().collect())
    .collect();
    let result = Grid::new(rows).unwrap();

    let expected = get_test_map();

    assert_eq!(result, expected);
}

#[test]
fn get_map() {
    let map = get_test_map();

    assert_eq!(map.get(&Pos { x: 0, y: 0 }), Some(&'1'));
    assert_eq!(map.get(&Pos { x: 1, y: 0 }), Some(&'2'));
    assert_eq!(map.get(&Pos { x: 0, y: 1 }), Some(&'4'));
    assert_eq!(map.get(&Pos { x: 2, y: 4 }), Some(&'f'));
    assert_eq!(map.get(&Pos { x: 3, y: 0 }), None);
    assert_eq!(map.get(&Pos { x: 2, y: 5 }), None);
}

#[test]
fn map_get_map() {
    let map = get_test_map();

    assert_eq!(map.width(), 3);
    assert_eq!(map.height(), 5);
    for (index, pos) in all_cells().iter().enumerate() {
        let expected = "123456789abcdef".chars().nth(index).unwrap();
        assert_eq!(map.get(pos), Some(&expected));
    }
    assert_eq!(map.get(&Pos { x: 0, y: 5 }), None);
    assert_eq!(map.get(&Pos { x: u32::MAX, y: u32::MAX }), None);
}

#[test]
fn get_all_pos_ordered() {
    let map = get_test_map().all_pos_ordered();

    assert_eq!(map, all_cells());
}

#[test]
fn get_all_pos() {
    let map = get_test_map();

    assert_eq!(map.all_pos(), all_cells());
}

#[test]
fn get_all_pos_iter() {
    let map = get_test_map();
    let mut pos_iter = map.all_pos_iter();

    assert_eq!(pos_iter.next(), Some(Pos { x: 0, y: 0 }));
    assert_eq!(pos_iter.next(), Some(Pos { x: 1, y: 0 }));
    assert_eq!(pos_iter.next(), Some(Pos { x: 2, y: 0 }));
    assert_eq!(pos_iter.next(), Some(Pos { x: 0, y: 1 }));
    for _ in 0..10 {
        pos_iter.next();
    }
    assert_eq!(pos_iter.next(), Some(Pos { x: 2, y: 4 }));
    assert_eq!(pos_iter.next(), None);
}

#[test]
fn map_get_all_pos_iter() {
    let map = get_test_map();
    let mut pos_iter = map.all_pos_iter();
    let mut seen = Vec::new();
    while let Some(pos) = pos_iter.next() {
        seen.push(pos);
    }
    assert_eq!(seen, all_cells());
    assert_eq!(pos_iter.next(), None);
    assert_eq!(pos_iter.next(), None);

    let empty: Grid<char> = Grid::new(vec![]).unwrap();
    assert_eq!(empty.all_pos_iter().next(), None);
}

#[test]
fn column_iterator() {
    let map = &get_test_map();
    let mut col_iter = map.column_iter(0);

    assert_eq!(col_iter.next(), Some(&'1'));
    assert_eq!(col_iter.next(), Some(&'4'));
    assert_eq!(col_iter.next(), Some(&'7'));
    assert_eq!(col_iter.next(), Some(&'a'));
    assert_eq!(col_iter.next(), Some(&'d'));
    assert_eq!(col_iter.next(), None);

    col_iter = map.column_iter(99);
    assert_eq!(col_iter.next(), None);
}

#[test]
fn map_column_iterator() {
    let map = get_test_map();
    let mut columns = map.columns();
    let mut seen = Vec::new();
    while let Some(mut column) = columns.next() {
        let mut cells = Vec::new();
        while let Some(cell) = column.next() {
            cells.push(*cell);
        }
        seen.push(cells);
    }
    assert_eq!(
        seen,
        vec![
            vec!['1', '4', '7', 'a', 'd'],
            vec!['2', '5', '8', 'b', 'e'],
            vec!['3', '6', '9', 'c', 'f'],
        ]
    );
    assert!(columns.next().is_none());
}

#[test]
fn row_iterator() {
    let map = get_test_map();
    let mut row_iter = map.row_iter(3);
    assert_eq!(row_iter.next(), Some(&'a'));
    assert_eq!(row_iter.next(), Some(&'b'));
    assert_eq!(row_iter.next(), Some(&'c'));
    assert_eq!(row_iter.next(), None);
    assert_eq!(map.row_iter(5).next(), None);

    let mut rows = map.rows();
    let mut count = 0;
    while let Some(mut row) = rows.next() {
        let mut cells = Vec::new();
        while let Some(cell) = row.next() {
            cells.push(*cell);
        }
        assert_eq!(cells.len(), 3);
        count += 1;
    }
    assert_eq!(count, 5);
}

#[test]
fn from_map() {
    assert_eq!(
        FlatMap::from(get_test_map()),
        FlatMap {
            width: 3,
            height: 5,
            elements: vec![
                '1', '2', '3', '4', '5', '6', '7', '8', '9', 'a', 'b', 'c', 'd', 'e', 'f'
            ],
        }
    );
}

#[test]
fn flat_map_from_map() {
    let flat = get_test_map().into_flat();
    assert_eq!(flat.width, 3);
    assert_eq!(flat.height, 5);
    assert_eq!(flat.elements.len(), 15);
    assert_eq!(flat.elements[4], '5');
}

#[test]
fn into_map() {
    assert_eq!(
        Grid::from_flat(FlatMap {
            width: 3,
            height: 5,
            elements: vec![
                '1', '2', '3', '4', '5', '6', '7', '8', '9', 'a', 'b', 'c', 'd', 'e', 'f'
            ],
        }),
        Some(get_test_map())
    )
}

#[test]
fn flat_map_into_map() {
    assert_eq!(
        Grid::from_flat(FlatMap { width: 3, height: 5, elements: vec!['1', '2', '3'] }),
        None
    );
    assert_eq!(
        Grid::from_flat(FlatMap { width: 0, height: 0, elements: Vec::<char>::new() })
            .map(|map| (map.width(), map.height())),
        Some((0, 0))
    );
}

#[test]
fn new_refuses_ragged_rows() {
    assert_eq!(Grid::new(vec![vec!['1', '2'], vec!['3']]), None);
    assert_eq!(Grid::new(vec![vec![], vec!['3']]), None);
    let empty: Grid<char> = Grid::new(vec![]).unwrap();
    assert_eq!((empty.width(), empty.height()), (0, 0));
    let flat: Grid<char> = Grid::new(vec![vec![], vec![]]).unwrap();
    assert_eq!((flat.width(), flat.height()), (0, 2));
}

#[test]
fn swap_exchanges_two_cells() {
    let mut map = get_test_map();
    map.swap(&Pos { x: 0, y: 0 }, &Pos { x: 2, y: 4 });
    assert_eq!(map.get(&Pos { x: 0, y: 0 }), Some(&'f'));
    assert_eq!(map.get(&Pos { x: 2, y: 4 }), Some(&'1'));
    assert_eq!(map.get(&Pos { x: 1, y: 0 }), Some(&'2'));

    let before = map.clone();
    map.swap(&Pos { x: 0, y: 0 }, &Pos { x: 3, y: 0 });
    map.swap(&Pos { x: 0, y: 5 }, &Pos { x: 1, y: 1 });
    assert_eq!(map, before);
}

#[test]
fn get_mut_opens_one_cell() {
    let mut map = get_test_map();
    *map.get_mut(&Pos { x: 1, y: 2 }).unwrap() = 'x';
    assert_eq!(map.get(&Pos { x: 1, y: 2 }), Some(&'x'));
    assert_eq!(map.get(&Pos { x: 0, y: 2 }), Some(&'7'));
    assert!(map.get_mut(&Pos { x: 3, y: 2 }).is_none());
}

#[test]
fn with_size_is_free_floor() {
    let map = Grid::with_size(4, 2);
    assert_eq!((map.width(), map.height()), (4, 2));
    for pos in map.all_pos() {
        assert_eq!(map.get(&pos), Some(&Tile { rock: RockKind::Empty }));
    }
    assert_eq!(map.all_pos().len(), 8);
}

#[test]
fn flat_map_places() {
    let mut flat = FlatMap {
        width: 3,
        height: 2,
        elements: vec!['a', 'b', 'c', 'd', 'e', 'f'],
    };
    assert_eq!(flat.get_index(&Pos { x: 2, y: 1 }), 5);
    assert_eq!(flat.get_index(&Pos { x: 0, y: 1 }), 3);
    assert_eq!(flat.get_pos(5), Pos { x: 2, y: 1 });
    assert_eq!(flat.get_pos(3), Pos { x: 0, y: 1 });
    assert_eq!(flat.try_index(&Pos { x: 1, y: 1 }), Some(&'e'));
    assert_eq!(flat.try_index(&Pos { x: 3, y: 0 }), None);
    assert_eq!(flat.try_index(&Pos { x: 0, y: 2 }), None);
    flat.swap(&Pos { x: 0, y: 0 }, &Pos { x: 1, y: 1 });
    assert_eq!(flat.elements, vec!['e', 'b', 'c', 'd', 'a', 'f']);
    flat.swap(&Pos { x: 2, y: 0 }, &Pos { x: 2, y: 0 });
    assert_eq!(flat.elements, vec!['e', 'b', 'c', 'd', 'a', 'f']);
}
