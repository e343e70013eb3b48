use std::collections::VecDeque;

use curunir::battlesnake::Battlesnake;
use curunir::board::Board;
use curunir::coordinate::Coordinate;
use curunir::ruleset::Ruleset;

fn ac(x: i32, y: i32) -> Coordinate {
    Coordinate::new(x, y)
}

fn area_serpent(id: u8, health: i32, body: Vec<(i32, i32)>) -> Battlesnake {
    let coords: VecDeque<Coordinate> = body.iter().map(|&(x, y)| ac(x, y)).collect();
    let head = coords[0];
    let length = coords.len();
    Battlesnake::new(id, health, coords, 0, head, length)
}

fn area_board(width: i32, height: i32, snakes: Vec<Battlesnake>, max_snakes: usize) -> Board {
    Board::new(height, width, Vec::new(), Vec::new(), snakes, max_snakes, 0)
}

fn area_rules() -> Ruleset {
    Ruleset::new(
        "standard".to_string(),
        "v1.2.3".to_string(),
        15,
        1,
        14,
        25,
        false,
        false,
        false,
        false,
    )
}

fn sort_longest_first(board: &mut Board) {
    board
        .get_snakes_mut()
        .sort_unstable_by_key(|snake| 0 - snake.get_length() as i32);
}

fn one_serpent_board() -> Board {
    area_board(7, 7, vec![area_serpent(0, 90, vec![(3, 3), (3, 2), (3, 1)])], 1)
}

// Two equally long serpents walled into symmetric halves of an 11x11 board:
// each one's interior segments fence off its own band, and each claims the
// nineteen tiles left open on its side.
fn symmetric_pair_board() -> Board {
    let mut a_body: Vec<(i32, i32)> = vec![(0, 3)];
    for x in 0..=10 {
        a_body.push((x, 4));
    }
    for x in (1..=10).rev() {
        a_body.push((x, 3));
    }
    for x in 1..=10 {
        a_body.push((x, 2));
    }
    a_body.push((10, 1));
    a_body.push((9, 1));
    a_body.push((8, 1));
    a_body.push((7, 1));
    a_body.push((6, 1));
    let b_body: Vec<(i32, i32)> = a_body.iter().map(|&(x, y)| (x, 10 - y)).collect();
    area_board(
        11,
        11,
        vec![area_serpent(0, 90, a_body), area_serpent(1, 90, b_body)],
        2,
    )
}

// The same head count on a narrow strip, where the equidistant middle column
// is reached by both equally long serpents at once, contested, and counts
// for neither.
fn contested_frontier_board() -> Board {
    area_board(
        11,
        5,
        vec![
            area_serpent(
                0,
                90,
                vec![(0, 2), (0, 1), (0, 0), (1, 0), (2, 0), (3, 0), (4, 0)],
            ),
            area_serpent(
                1,
                90,
                vec![(10, 2), (10, 1), (10, 0), (9, 0), (8, 0), (7, 0), (6, 0)],
            ),
        ],
        2,
    )
}

// Three serpents in three walled-off bands of an 11x12 grid.
fn three_band_board() -> Board {
    area_board(
        11,
        12,
        vec![
            area_serpent(
                0,
                90,
                vec![
                    (0, 7),
                    (0, 8),
                    (1, 8),
                    (2, 8),
                    (3, 8),
                    (4, 8),
                    (5, 8),
                    (6, 8),
                    (7, 8),
                    (8, 8),
                    (9, 8),
                    (10, 8),
                    (10, 7),
                ],
            ),
            area_serpent(
                1,
                90,
                vec![
                    (1, 3),
                    (0, 3),
                    (0, 4),
                    (1, 4),
                    (2, 4),
                    (3, 4),
                    (4, 4),
                    (5, 4),
                    (6, 4),
                    (7, 4),
                    (8, 4),
                    (9, 4),
                    (10, 4),
                    (10, 3),
                    (9, 3),
                    (8, 3),
                    (7, 3),
                ],
            ),
            area_serpent(
                2,
                90,
                vec![
                    (0, 9),
                    (0, 10),
                    (0, 11),
                    (1, 11),
                    (2, 11),
                    (3, 11),
                    (4, 11),
                    (5, 11),
                    (6, 11),
                    (7, 11),
                    (8, 11),
                    (9, 11),
                    (10, 11),
                    (10, 10),
                    (9, 10),
                    (8, 10),
                    (7, 10),
                ],
            ),
        ],
        3,
    )
}

#[test]
fn area_controlled_test_area_controlled_one() {
    let mut board = one_serpent_board();
    sort_longest_first(&mut board);

    let result = board.area_controlled();
    let mut correct = Vec::new();
    correct.insert(0, 47);
    assert_eq!(result, correct)
}

#[test]
fn area_controlled_test_area_controlled_two() {
    let mut board = symmetric_pair_board();
    sort_longest_first(&mut board);

    let result = board.area_controlled();
    let mut correct = Vec::new();
    correct.insert(0, 19);
    correct.insert(1, 19);
    assert_eq!(result, correct)
}

#[test]
fn area_controlled_test_area_controlled_three() {
    let mut board = three_band_board();
    sort_longest_first(&mut board);

    let result = board.area_controlled();
    let mut correct = Vec::new();
    correct.insert(0, 32);
    correct.insert(1, 39);
    correct.insert(2, 17);
    assert_eq!(result, correct)
}

// The equal-length tiebreak: the contested frontier is written off for both.
#[test]
fn test_area_contested_frontier() {
    let mut board = contested_frontier_board();
    sort_longest_first(&mut board);

    let result = board.area_controlled();
    assert_eq!(result, vec![19, 19]);
}

// The claim sorts its own worklist longest-first; an unsorted board gives
// the same counts as a pre-sorted one.
#[test]
fn test_area_controlled_unsorted_input() {
    let board = three_band_board();

    let result = board.area_controlled();
    assert_eq!(result, vec![32, 39, 17]);
}

#[test]
fn mapper_test_area_controlled_one() {
    area_controlled_test_area_controlled_one();
}

#[test]
fn mapper_test_area_controlled_two() {
    area_controlled_test_area_controlled_two();
}

#[test]
fn mapper_test_area_controlled_three() {
    area_controlled_test_area_controlled_three();
}

#[test]
fn area_controlled_test_calculate_areas_one() {
    let board = one_serpent_board();
    let ruleset = area_rules();

    let areas = board.calculate_areas(&ruleset);

    assert_eq!(areas, [0, 47, 47, 47]);
}

#[test]
fn mapper_test_calculate_areas_one() {
    area_controlled_test_calculate_areas_one();
}

// The agent walled into the lower-right corner of a 10x4 strip: down leaves
// the grid, right enters a one-tile pocket, left keeps 30 tiles; an opponent
// at its last point of health vanishes on the tick and adds nothing.
#[test]
fn test_calculate_areas_two() {
    let board = Board::new(
        4,
        10,
        Vec::new(),
        Vec::new(),
        vec![
            area_serpent(
                0,
                90,
                vec![
                    (7, 0),
                    (7, 1),
                    (8, 1),
                    (9, 1),
                    (9, 2),
                    (8, 2),
                    (7, 2),
                    (6, 2),
                    (5, 2),
                ],
            ),
            area_serpent(1, 0, vec![(0, 3), (1, 3), (2, 3)]),
        ],
        2,
        0,
    );
    let ruleset = area_rules();

    let areas = board.calculate_areas(&ruleset);

    assert_eq!(areas, [0, 0, 1, 30])
}

// The sum of all claimed tiles never exceeds the grid minus the blocking
// body interiors.
#[test]
fn test_area_total_bound() {
    let board = three_band_board();
    let result = board.area_controlled();
    let total: i32 = result.iter().sum();
    let interiors: i32 = board
        .get_snakes()
        .iter()
        .map(|s| (s.get_length() as i32 - 2).max(0))
        .sum();
    assert!(total <= 11 * 12 - interiors);
}
