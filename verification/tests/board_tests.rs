use std::collections::VecDeque;

use curunir::battlesnake::Battlesnake;
use curunir::board::Board;
use curunir::coordinate::Coordinate;

fn bc(x: i32, y: i32) -> Coordinate {
    Coordinate::new(x, y)
}

fn board_serpent(id: u8, health: i32, body: Vec<(i32, i32)>) -> Battlesnake {
    let coords: VecDeque<Coordinate> = body.iter().map(|&(x, y)| bc(x, y)).collect();
    let head = coords[0];
    let length = coords.len();
    Battlesnake::new(id, health, coords, 0, head, length)
}

fn grid_board(
    width: i32,
    height: i32,
    food: Vec<(i32, i32)>,
    snakes: Vec<Battlesnake>,
) -> Board {
    let max_snakes = snakes.len();
    let food_coords: Vec<Coordinate> = food.iter().map(|&(x, y)| bc(x, y)).collect();
    Board::new(height, width, food_coords, Vec::new(), snakes, max_snakes, 0)
}

#[test]
fn test_find_closest_food_none() {
    let board = grid_board(7, 7, vec![], vec![board_serpent(0, 90, vec![(3, 3), (3, 2), (3, 1)])]);

    let food = board.find_closest_food(board.get_snakes()[0].get_head());

    assert!(food.is_none());
}

#[test]
fn test_find_closest_food_one() {
    let board = grid_board(
        11,
        11,
        vec![(5, 5)],
        vec![board_serpent(0, 90, vec![(2, 2), (2, 1), (2, 0)])],
    );

    let food = board.find_closest_food(board.get_snakes()[0].get_head());

    assert_eq!(food.unwrap(), Coordinate::new(5, 5));
}

#[test]
fn test_find_closest_food_two() {
    let board = grid_board(
        11,
        11,
        vec![(0, 3), (9, 9)],
        vec![board_serpent(0, 90, vec![(0, 0), (1, 0), (2, 0)])],
    );

    let food = board.find_closest_food(board.get_snakes()[0].get_head());

    assert_eq!(food.unwrap(), Coordinate::new(0, 3));
}

// The distance to the closest food does not depend on the order of the food
// list.
#[test]
fn test_closest_food_order_independent() {
    let head = bc(2, 2);
    let you = vec![board_serpent(0, 90, vec![(2, 2), (2, 1), (2, 0)])];
    let forward = grid_board(11, 11, vec![(5, 5), (2, 4), (9, 0)], you);
    let you2 = vec![board_serpent(0, 90, vec![(2, 2), (2, 1), (2, 0)])];
    let backward = grid_board(11, 11, vec![(9, 0), (2, 4), (5, 5)], you2);

    let a = forward.find_closest_food(head).unwrap();
    let b = backward.find_closest_food(head).unwrap();

    assert_eq!(a, bc(2, 4));
    assert_eq!(b, bc(2, 4));
    assert_eq!(head.distance_to(a), head.distance_to(b));
}

#[test]
fn test_find_weaker_snake_none() {
    let board = grid_board(
        11,
        11,
        vec![],
        vec![
            board_serpent(0, 90, vec![(2, 2), (2, 1), (2, 0)]),
            board_serpent(1, 90, vec![(8, 8), (8, 7), (8, 6)]),
        ],
    );
    let snake = &board.get_snakes()[0];

    let snake_head = board.find_weaker_snake(snake, 5);

    assert!(snake_head.is_none());
}

#[test]
fn test_find_weaker_snake_one() {
    let board = grid_board(
        11,
        11,
        vec![],
        vec![
            board_serpent(
                0,
                90,
                vec![
                    (2, 2),
                    (2, 1),
                    (2, 0),
                    (3, 0),
                    (4, 0),
                    (5, 0),
                    (6, 0),
                    (7, 0),
                    (8, 0),
                ],
            ),
            board_serpent(1, 90, vec![(8, 8), (8, 7), (8, 6)]),
        ],
    );
    let snake = &board.get_snakes()[0];

    let snake_head = board.find_weaker_snake(snake, 5);

    assert_eq!(snake_head.unwrap(), board.get_snakes()[1].get_head());
}

#[test]
fn test_get_snake_none() {
    let board = grid_board(7, 7, vec![], vec![board_serpent(0, 90, vec![(3, 3), (3, 2), (3, 1)])]);

    let snake = board.get_snake(1);

    assert!(snake.is_none());
}

#[test]
fn test_get_snake_one() {
    let board = grid_board(7, 7, vec![], vec![board_serpent(0, 90, vec![(3, 3), (3, 2), (3, 1)])]);

    let snake = board.get_snake(0);

    assert_eq!(snake.unwrap(), &board.get_snakes()[0]);
}

#[test]
fn test_is_against_wall_false() {
    let board = grid_board(7, 7, vec![], vec![board_serpent(0, 90, vec![(3, 3), (3, 2), (3, 1)])]);

    let result = board.is_against_wall(Coordinate::new(3, 2));

    assert!(!result);
}

#[test]
fn test_is_against_wall_true() {
    let board = grid_board(7, 7, vec![], vec![board_serpent(0, 90, vec![(3, 3), (3, 2), (3, 1)])]);

    let result = board.is_against_wall(Coordinate::new(0, 3));

    assert!(result);
}

#[test]
fn test_open_directions_2() {
    // head in the corner: one neighbour off each wall, two open
    let board = grid_board(7, 7, vec![], vec![board_serpent(0, 90, vec![(0, 0), (0, 1)])]);
    let snake = &board.get_snakes()[0];

    assert_eq!(board.open_directions(snake), 2);
}

#[test]
fn test_open_directions_3() {
    // the neck blocks one of four in-bounds neighbours
    let board = grid_board(7, 7, vec![], vec![board_serpent(0, 90, vec![(1, 1), (1, 0), (2, 0)])]);
    let snake = &board.get_snakes()[0];

    assert_eq!(board.open_directions(snake), 3);
}

// Open directions always stay within 0 and 4.
#[test]
fn test_open_directions_range() {
    let crowded = grid_board(
        3,
        3,
        vec![],
        vec![board_serpent(0, 90, vec![(0, 0), (0, 1), (1, 1), (1, 0), (2, 0)])],
    );
    let snake = &crowded.get_snakes()[0];
    let n = crowded.open_directions(snake);
    assert!((0..=4).contains(&n));
    assert_eq!(n, 0);
}

#[test]
fn test_longest_path_closed() {
    // an L-shaped cavity of five tiles to the left of the head
    let board = grid_board(
        7,
        7,
        vec![],
        vec![board_serpent(
            0,
            90,
            vec![
                (3, 0),
                (3, 1),
                (2, 1),
                (1, 1),
                (1, 2),
                (1, 3),
                (0, 3),
                (0, 4),
                (1, 4),
                (2, 4),
                (3, 4),
                (4, 4),
                (5, 4),
            ],
        )],
    );
    let pos = board.get_snakes()[0].get_head().get_left();

    let result = board.longest_path(pos, 0, 10, &mut Vec::with_capacity(10), 0);

    assert_eq!(result, 5);
}

#[test]
fn test_longest_path_miss() {
    // a dead-end corridor of five tiles along the bottom row
    let board = grid_board(
        5,
        7,
        vec![],
        vec![board_serpent(
            0,
            90,
            vec![
                (0, 1),
                (1, 1),
                (2, 1),
                (3, 1),
                (4, 1),
                (4, 2),
                (3, 2),
                (2, 2),
                (1, 2),
                (0, 2),
                (0, 3),
            ],
        )],
    );
    let pos = board.get_snakes()[0].get_head().get_down();

    let result = board.longest_path(pos, 0, 10, &mut Vec::with_capacity(10), 0);

    assert_eq!(result, 5);
}

#[test]
fn test_longest_path_hit() {
    let board = grid_board(7, 7, vec![], vec![board_serpent(0, 90, vec![(2, 3), (2, 4), (2, 5)])]);
    let pos = board.get_snakes()[0].get_head().get_down();

    let result = board.longest_path(pos, 0, 10, &mut Vec::with_capacity(10), 0);

    assert_eq!(result, 10);
}

#[test]
fn test_longest_path_food() {
    // the same five-tile pocket, with food on the way: eating delays the
    // tail, so the pocket still does not open
    let board = grid_board(
        3,
        6,
        vec![(2, 1)],
        vec![board_serpent(
            0,
            90,
            vec![
                (2, 3),
                (1, 3),
                (1, 2),
                (1, 1),
                (0, 1),
                (0, 2),
                (0, 3),
                (0, 4),
                (1, 4),
                (2, 4),
                (2, 5),
            ],
        )],
    );
    let pos = board.get_snakes()[0].get_head().get_down();

    let result = board.longest_path(pos, 0, 10, &mut Vec::with_capacity(10), 0);

    assert_eq!(result, 5);
}

#[test]
fn test_longest_path_open() {
    let board = grid_board(
        11,
        11,
        vec![],
        vec![board_serpent(0, 90, vec![(5, 5), (5, 4), (5, 3)])],
    );
    let pos = board.get_snakes()[0].get_head().get_up();

    let result = board.longest_path(pos, 0, 30, &mut Vec::with_capacity(30), 0);

    assert_eq!(result, 30);
}

#[test]
fn test_longest_path_route() {
    let board = grid_board(7, 7, vec![], vec![board_serpent(0, 90, vec![(2, 3), (2, 4), (2, 5)])]);
    let pos = board.get_snakes()[0].get_head().get_down();

    let result = board.longest_path(pos, 0, 10, &mut Vec::with_capacity(10), 0);

    assert_eq!(result, 10);
}

#[test]
fn test_longest_path_real() {
    let board = grid_board(7, 7, vec![], vec![board_serpent(0, 90, vec![(2, 3), (2, 4), (2, 5)])]);
    let pos = board.get_snakes()[0].get_head().get_down();

    let result = board.longest_path(pos, 0, 27, &mut Vec::with_capacity(10), 0);

    assert_eq!(result, 27);
}

#[test]
fn test_longest_path_tail() {
    // the cavity is as large as the remaining body ahead of the tail: the
    // tail vacates in time, so the walk escapes by chasing it
    let board = grid_board(
        2,
        4,
        vec![],
        vec![board_serpent(0, 90, vec![(1, 1), (1, 2), (0, 2), (0, 3)])],
    );
    let pos = board.get_snakes()[0].get_head().get_down();

    let result = board.longest_path(pos, 0, 6, &mut Vec::with_capacity(6), 0);

    assert_eq!(result, 6);
}
