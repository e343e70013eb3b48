use std::collections::VecDeque;

use curunir::battlesnake::Battlesnake;
use curunir::board::Board;
use curunir::coordinate::Coordinate;
use curunir::ruleset::Ruleset;

fn ec(x: i32, y: i32) -> Coordinate {
    Coordinate::new(x, y)
}

fn engine_serpent(id: u8, health: i32, body: Vec<(i32, i32)>) -> Battlesnake {
    let coords: VecDeque<Coordinate> = body.iter().map(|&(x, y)| ec(x, y)).collect();
    let head = coords[0];
    let length = coords.len();
    Battlesnake::new(id, health, coords, 0, head, length)
}

fn engine_board(food: Vec<(i32, i32)>, snakes: Vec<Battlesnake>, max_snakes: usize) -> Board {
    let food_coords: Vec<Coordinate> = food.iter().map(|&(x, y)| ec(x, y)).collect();
    Board::new(11, 11, food_coords, Vec::new(), snakes, max_snakes, 3)
}

fn standard_rules() -> Ruleset {
    Ruleset::new(
        "standard".to_string(),
        "v1.2.3".to_string(),
        15,
        1,
        14,
        25,
        false,
        false,
        false,
        false,
    )
}

fn body_collision_before() -> Board {
    engine_board(
        vec![],
        vec![
            engine_serpent(0, 90, vec![(5, 5), (5, 4), (5, 3)]),
            engine_serpent(1, 90, vec![(5, 4), (6, 4), (7, 4)]),
        ],
        2,
    )
}

fn body_collision_after() -> Board {
    let mut b = engine_board(vec![], vec![engine_serpent(0, 90, vec![(5, 5), (5, 4), (5, 3)])], 2);
    b.set_turn(4);
    b
}

fn double_headon_before() -> Board {
    engine_board(
        vec![],
        vec![
            engine_serpent(0, 90, vec![(5, 5), (4, 5), (3, 5)]),
            engine_serpent(1, 90, vec![(5, 5), (6, 5), (7, 5)]),
            engine_serpent(2, 90, vec![(9, 9), (9, 8), (9, 7)]),
        ],
        3,
    )
}

fn double_headon_after() -> Board {
    let mut b = engine_board(vec![], vec![engine_serpent(2, 90, vec![(9, 9), (9, 8), (9, 7)])], 3);
    b.set_turn(4);
    b
}

fn eat_before() -> Board {
    engine_board(vec![(5, 5)], vec![engine_serpent(0, 90, vec![(5, 5), (5, 4), (5, 3)])], 1)
}

fn eat_after() -> Board {
    let mut b = engine_board(
        vec![],
        vec![engine_serpent(0, 100, vec![(5, 5), (5, 4), (5, 3), (5, 3)])],
        1,
    );
    b.set_turn(4);
    b
}

fn headon_before() -> Board {
    engine_board(
        vec![],
        vec![
            engine_serpent(0, 90, vec![(5, 5), (4, 5), (3, 5), (2, 5)]),
            engine_serpent(1, 90, vec![(5, 5), (6, 5), (7, 5)]),
        ],
        2,
    )
}

fn headon_after() -> Board {
    let mut b = engine_board(
        vec![],
        vec![engine_serpent(0, 90, vec![(5, 5), (4, 5), (3, 5), (2, 5)])],
        2,
    );
    b.set_turn(4);
    b
}

fn out_of_bounds_before() -> Board {
    engine_board(
        vec![],
        vec![
            engine_serpent(0, 90, vec![(5, 5), (5, 4), (5, 3)]),
            engine_serpent(1, 90, vec![(-1, 5), (0, 5), (1, 5)]),
        ],
        2,
    )
}

fn out_of_bounds_after() -> Board {
    let mut b = engine_board(vec![], vec![engine_serpent(0, 90, vec![(5, 5), (5, 4), (5, 3)])], 2);
    b.set_turn(4);
    b
}

fn out_of_health_before() -> Board {
    engine_board(
        vec![],
        vec![
            engine_serpent(0, 90, vec![(5, 5), (5, 4), (5, 3)]),
            engine_serpent(1, 0, vec![(8, 8), (8, 7), (8, 6)]),
        ],
        2,
    )
}

fn out_of_health_after() -> Board {
    let mut b = engine_board(vec![], vec![engine_serpent(0, 90, vec![(5, 5), (5, 4), (5, 3)])], 2);
    b.set_turn(4);
    b
}

fn no_change_before() -> Board {
    engine_board(
        vec![(0, 0)],
        vec![
            engine_serpent(0, 90, vec![(5, 5), (5, 4), (5, 3)]),
            engine_serpent(1, 90, vec![(8, 8), (8, 7), (8, 6)]),
        ],
        2,
    )
}

fn no_change_after() -> Board {
    let mut b = no_change_before();
    b.set_turn(4);
    b
}

#[test]
fn game_step_test_body_collision() {
    let mut before_collision = body_collision_before();
    let after_collision = body_collision_after();
    let ruleset = standard_rules();

    before_collision.game_step(&ruleset);

    assert_eq!(before_collision, after_collision);
}

#[test]
fn game_step_test_double_headon_collision() {
    let mut before_collision = double_headon_before();
    let after_collision = double_headon_after();
    let ruleset = standard_rules();

    before_collision.game_step(&ruleset);

    assert_eq!(before_collision, after_collision);
}

#[test]
fn game_step_test_eat_food() {
    let mut before_eat = eat_before();
    let after_eat = eat_after();
    let ruleset = standard_rules();

    before_eat.game_step(&ruleset);

    assert_eq!(before_eat, after_eat);
}

#[test]
fn game_step_test_headon_collision() {
    let mut before_collision = headon_before();
    let after_collision = headon_after();
    let ruleset = standard_rules();

    before_collision.game_step(&ruleset);

    assert_eq!(before_collision, after_collision);
}

#[test]
fn game_step_test_out_of_bounds() {
    let mut before = out_of_bounds_before();
    let after = out_of_bounds_after();
    let ruleset = standard_rules();

    before.game_step(&ruleset);

    assert_eq!(before, after);
}

#[test]
fn game_step_test_out_of_health() {
    let mut before = out_of_health_before();
    let after = out_of_health_after();
    let ruleset = standard_rules();

    before.game_step(&ruleset);

    assert_eq!(before, after);
}

#[test]
fn game_step_test_no_change() {
    let mut before = no_change_before();
    let after = no_change_after();
    let ruleset = standard_rules();

    before.game_step(&ruleset);

    assert_eq!(before, after);
}

#[test]
fn engine_test_body_collision() {
    let mut before_collision = body_collision_before();
    let after_collision = body_collision_after();
    let ruleset = standard_rules();

    before_collision.game_step(&ruleset);

    assert_eq!(before_collision, after_collision);
}

#[test]
fn engine_test_double_headon_collision() {
    let mut before_collision = double_headon_before();
    let after_collision = double_headon_after();
    let ruleset = standard_rules();

    before_collision.game_step(&ruleset);

    assert_eq!(before_collision, after_collision);
}

#[test]
fn engine_test_eat_food() {
    let mut before_eat = eat_before();
    let after_eat = eat_after();
    let ruleset = standard_rules();

    before_eat.game_step(&ruleset);

    assert_eq!(before_eat, after_eat);
}

#[test]
fn engine_test_headon_collision() {
    let mut before_collision = headon_before();
    let after_collision = headon_after();
    let ruleset = standard_rules();

    before_collision.game_step(&ruleset);

    assert_eq!(before_collision, after_collision);
}

#[test]
fn engine_test_out_of_bounds() {
    let mut before = out_of_bounds_before();
    let after = out_of_bounds_after();
    let ruleset = standard_rules();

    before.game_step(&ruleset);

    assert_eq!(before, after);
}

#[test]
fn engine_test_out_of_health() {
    let mut before = out_of_health_before();
    let after = out_of_health_after();
    let ruleset = standard_rules();

    before.game_step(&ruleset);

    assert_eq!(before, after);
}

#[test]
fn engine_test_no_change() {
    let mut before = no_change_before();
    let after = no_change_after();
    let ruleset = standard_rules();

    before.game_step(&ruleset);

    assert_eq!(before, after);
}

// A tick of an empty board changes nothing but the turn counter.
#[test]
fn test_idle_step() {
    let mut before = engine_board(vec![], vec![], 0);
    let after = {
        let mut b = engine_board(vec![], vec![], 0);
        b.set_turn(4);
        b
    };
    let ruleset = standard_rules();

    before.game_step(&ruleset);

    assert_eq!(before, after);
}

// After a tick every live serpent has at least the minimum health and its
// head on the grid.
#[test]
fn test_step_leaves_live_serpents_healthy() {
    let mut board = engine_board(
        vec![(5, 5)],
        vec![
            engine_serpent(0, 1, vec![(5, 5), (5, 4), (5, 3)]),
            engine_serpent(1, 0, vec![(8, 8), (8, 7), (8, 6)]),
            engine_serpent(2, 90, vec![(10, 10), (10, 9), (10, 8)]),
        ],
        3,
    );
    let ruleset = standard_rules();

    board.game_step(&ruleset);

    for snake in board.get_snakes() {
        assert!(snake.get_health() >= ruleset.get_minimum_food());
        assert!(!board.is_out_of_bounds(snake.get_head()));
    }
    // the fed serpent survives at full health; the starved one is gone
    assert!(board.get_snake(0).is_some());
    assert!(board.get_snake(1).is_none());
    assert!(board.get_snake(2).is_some());
}

fn scoring_board(snakes: Vec<Battlesnake>, max_snakes: usize, food: Vec<(i32, i32)>) -> Board {
    engine_board(food, snakes, max_snakes)
}

#[test]
fn evaluate_test_compare_to_advantage() {
    // a clearly weaker serpent near by beats a peer of equal strength
    let long_you = vec![
        (2, 2),
        (2, 1),
        (2, 0),
        (3, 0),
        (4, 0),
        (5, 0),
        (6, 0),
        (7, 0),
        (8, 0),
    ];
    let better_board = scoring_board(
        vec![
            engine_serpent(0, 90, long_you.clone()),
            engine_serpent(1, 90, vec![(8, 8), (8, 7), (8, 6)]),
        ],
        2,
        vec![],
    );
    let worse_board = scoring_board(
        vec![
            engine_serpent(0, 90, long_you.clone()),
            engine_serpent(
                1,
                90,
                vec![
                    (8, 8),
                    (8, 7),
                    (8, 6),
                    (8, 5),
                    (8, 4),
                    (8, 3),
                    (8, 2),
                    (8, 1),
                    (7, 1),
                ],
            ),
        ],
        2,
        vec![],
    );

    assert!(better_board.evaluate()[0] > worse_board.evaluate()[0]);
}

#[test]
fn evaluate_test_compare_to_alive() {
    // outliving the opponent beats sharing the board with it
    let better_board = scoring_board(vec![engine_serpent(0, 90, vec![(5, 5), (5, 4), (5, 3)])], 2, vec![]);
    let worse_board = scoring_board(
        vec![
            engine_serpent(0, 90, vec![(5, 5), (5, 4), (5, 3)]),
            engine_serpent(1, 90, vec![(8, 8), (8, 7), (8, 6)]),
        ],
        2,
        vec![],
    );

    assert!(better_board.evaluate()[0] > worse_board.evaluate()[0]);
}

#[test]
fn evaluate_test_compare_to_dead() {
    // any live position beats the zero score of a removed serpent
    let better_board = scoring_board(
        vec![
            engine_serpent(0, 90, vec![(5, 5), (5, 4), (5, 3)]),
            engine_serpent(1, 90, vec![(8, 8), (8, 7), (8, 6)]),
        ],
        2,
        vec![],
    );
    let worse_board = scoring_board(vec![engine_serpent(0, 90, vec![(5, 5), (5, 4), (5, 3)])], 2, vec![]);

    assert!(better_board.evaluate()[1] > worse_board.evaluate()[1]);
}

#[test]
fn evaluate_test_better_than_food() {
    let better_board = scoring_board(
        vec![engine_serpent(0, 90, vec![(5, 5), (5, 4), (5, 3)])],
        1,
        vec![(5, 6)],
    );
    let worse_board = scoring_board(
        vec![engine_serpent(0, 90, vec![(5, 5), (5, 4), (5, 3)])],
        1,
        vec![(10, 0)],
    );

    assert!(better_board.evaluate()[0] > worse_board.evaluate()[0]);
}

#[test]
fn evaluate_test_better_than_long() {
    let better_board = scoring_board(
        vec![engine_serpent(0, 90, vec![(5, 5), (5, 4), (5, 3), (5, 2), (5, 1)])],
        1,
        vec![],
    );
    let worse_board = scoring_board(
        vec![engine_serpent(0, 90, vec![(5, 5), (5, 4), (5, 3)])],
        1,
        vec![],
    );

    assert!(better_board.evaluate()[0] > worse_board.evaluate()[0]);
}

#[test]
fn evaluator_test_compare_to_advantage() {
    evaluate_test_compare_to_advantage();
}

#[test]
fn evaluator_test_compare_to_alive() {
    evaluate_test_compare_to_alive();
}

#[test]
fn evaluator_test_compare_to_dead() {
    evaluate_test_compare_to_dead();
}

#[test]
fn evaluator_test_better_than_food() {
    evaluate_test_better_than_food();
}

#[test]
fn evaluator_test_better_than_long() {
    evaluate_test_better_than_long();
}

// The packed score of one serpent alone on an empty board, digit by digit:
// 3 open directions, no food, length 3, no prey, the not-cornered bonus, and
// 99 for being the only one alive.
#[test]
fn test_evaluate_exact_score() {
    let board = scoring_board(vec![engine_serpent(0, 90, vec![(3, 3), (3, 2), (3, 1)])], 1, vec![]);

    let expected: u64 = 3 + 1_000 * 3 + 100_000_000 + 1_000_000_000 * 99;
    assert_eq!(board.evaluate(), vec![expected]);
}

// Ids without a live serpent score zero.
#[test]
fn test_evaluate_dead_slots() {
    let board = scoring_board(vec![engine_serpent(1, 90, vec![(5, 5), (5, 4), (5, 3)])], 3, vec![]);

    let scores = board.evaluate();
    assert_eq!(scores.len(), 3);
    assert_eq!(scores[0], 0);
    assert_eq!(scores[2], 0);
    assert!(scores[1] > 0);
}

#[test]
fn simulate_test_minimax() {
    let board = engine_board(vec![(2, 2)], vec![engine_serpent(0, 90, vec![(5, 5), (5, 4), (5, 3)])], 1);
    let ruleset = standard_rules();

    let result = board.minimax(&ruleset, 0, 6);

    assert!(result[0] > 0);
}

#[test]
fn simulator_test_minimax() {
    let board = engine_board(vec![(2, 2)], vec![engine_serpent(0, 90, vec![(5, 5), (5, 4), (5, 3)])], 1);
    let ruleset = standard_rules();

    let result = board.minimax(&ruleset, 0, 6);

    assert!(result[0] > 0);
}
