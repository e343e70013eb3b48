use std::collections::VecDeque;

use curunir::battlesnake::Battlesnake;
use curunir::board::Board;
use curunir::coordinate::Coordinate;
use curunir::decision::Decision;
use curunir::game::Game;
use curunir::requests::{InputBoard, InputSnake};
use curunir::ruleset::Ruleset;

fn gc(x: i32, y: i32) -> Coordinate {
    Coordinate::new(x, y)
}

fn game_serpent(id: u8, health: i32, body: Vec<(i32, i32)>) -> Battlesnake {
    let coords: VecDeque<Coordinate> = body.iter().map(|&(x, y)| gc(x, y)).collect();
    let head = coords[0];
    let length = coords.len();
    Battlesnake::new(id, health, coords, 0, head, length)
}

fn game_rules() -> Ruleset {
    Ruleset::new(
        "standard".to_string(),
        "v1.2.3".to_string(),
        15,
        1,
        14,
        25,
        false,
        false,
        false,
        false,
    )
}

fn arbiter() -> Game {
    Game::new("game-00fe20da".to_string(), game_rules(), 500)
}

// The agent with its neck to the east, food to the west, and an opponent
// still big enough that food matters: the ladder heads for the food.
#[test]
fn test_decision() {
    let board = Board::new(
        11,
        11,
        vec![gc(0, 5)],
        Vec::new(),
        vec![
            game_serpent(0, 90, vec![(5, 5), (6, 5), (7, 5)]),
            game_serpent(1, 90, vec![(10, 0), (10, 1), (9, 1)]),
        ],
        2,
        10,
    );

    let direction = arbiter().calculate_move(board);

    assert_eq!(direction, String::from("left"));
}

// A longer serpent one head-on step away to the west, food to the south:
// west is lethal in the worst case, so the ladder goes down for the food.
#[test]
fn test_avoid_headon() {
    let board = Board::new(
        11,
        11,
        vec![gc(5, 0)],
        Vec::new(),
        vec![
            game_serpent(0, 90, vec![(5, 5), (5, 6), (5, 7)]),
            game_serpent(1, 90, vec![(3, 5), (2, 5), (1, 5), (1, 4), (1, 3)]),
        ],
        2,
        10,
    );

    let direction = arbiter().calculate_move(board);

    assert_eq!(direction, String::from("down"));
}

// With nothing to recommend any direction, the ladder falls through to its
// default.
#[test]
fn test_ladder_default() {
    let d = Decision::new(
        false, false, false, false, // survival
        false, false, false, false, // best
        9, 1, 2, 3, 0, // max_area, areas: nothing reaches the maximum
        false, false, false, false, // can_escape
        false, false, false, false, // against_wall
        false, false, false, false, // food on tile
        false,
        gc(0, 0),
        false,
        gc(0, 0),
        false,
        gc(5, 5),
        0, 0, 0, 0, 0, // controls
    );

    let (outcome, direction) = d.calculate();
    assert_eq!(outcome, 52);
    assert_eq!(direction, String::from("up"));
}

// A surviving best killing move wins the top rung, in the fixed order.
#[test]
fn test_ladder_kill_move() {
    let d = Decision::new(
        false, true, true, false, // survival: up, right
        false, true, true, false, // best: up, right
        3, 1, 2, 3, 0, false, false, false, false, false, false, false, false, false, false,
        false, false, false,
        gc(0, 0),
        false,
        gc(0, 0),
        true, // will_kill
        gc(5, 5),
        0, 0, 0, 0, 0,
    );

    let (outcome, direction) = d.calculate();
    assert_eq!(outcome, 1);
    assert_eq!(direction, String::from("up"));
}

// Without a best flag anywhere, survival plus escape plus area control picks
// the most controlled direction.
#[test]
fn test_ladder_area_control() {
    let d = Decision::new(
        true, true, false, false, // survival: down, up
        false, false, false, false, // best: none
        3, 1, 2, 3, 0, true, true, false, false, // can_escape: down, up
        false, false, false, false, false, false, false, false, false,
        gc(0, 0),
        false,
        gc(0, 0),
        false,
        gc(5, 5),
        9, 4, 9, 1, 0, // max_control 9; up has it
    );

    let (outcome, direction) = d.calculate();
    assert_eq!(outcome, 29);
    assert_eq!(direction, String::from("up"));
}

// The intake order fixes the internal ids: the agent's serpent becomes id 0
// and stands first, the opponents follow in report order.
#[test]
fn test_into_board_ids() {
    let mk = |id: &str, x: i32| InputSnake {
        id: id.to_string(),
        name: "s".to_string(),
        health: 80,
        body: vec![gc(x, 5), gc(x, 4), gc(x, 3)],
        latency: "40".to_string(),
        head: gc(x, 5),
        length: 3,
        shout: String::new(),
    };
    let input = InputBoard {
        height: 11,
        width: 11,
        food: vec![gc(2, 2)],
        hazards: vec![],
        snakes: vec![mk("alpha", 1), mk("me", 4), mk("omega", 7)],
    };

    let board = input.into_board(mk("me", 4), 9);

    assert_eq!(board.get_max_snakes(), 3);
    assert_eq!(board.get_turn(), 9);
    let snakes = board.get_snakes();
    assert_eq!(snakes.len(), 3);
    assert_eq!(snakes[0].get_id(), 0);
    assert_eq!(snakes[0].get_head(), gc(4, 5));
    assert_eq!(snakes[1].get_id(), 1);
    assert_eq!(snakes[1].get_head(), gc(1, 5));
    assert_eq!(snakes[2].get_id(), 2);
    assert_eq!(snakes[2].get_head(), gc(7, 5));
    assert_eq!(board.get_food(), &vec![gc(2, 2)]);
}

// The precondition checker accepts a sane board and rejects each way a
// request can be malformed.
#[test]
fn test_can_calculate_move() {
    let good = Board::new(
        11,
        11,
        vec![gc(0, 5)],
        Vec::new(),
        vec![
            game_serpent(0, 90, vec![(5, 5), (6, 5), (7, 5)]),
            game_serpent(1, 90, vec![(10, 0), (10, 1), (9, 1)]),
        ],
        2,
        10,
    );
    assert!(good.can_calculate_move());

    // nobody on the board
    let empty = Board::new(11, 11, vec![], Vec::new(), vec![], 0, 10);
    assert!(!empty.can_calculate_move());

    // a cached length that disagrees with the body
    let mut lying = game_serpent(0, 90, vec![(5, 5), (6, 5), (7, 5)]);
    lying.length = 9;
    let bad_length = Board::new(11, 11, vec![], Vec::new(), vec![lying], 1, 10);
    assert!(!bad_length.can_calculate_move());

    // a body segment off the grid
    let out = Board::new(
        11,
        11,
        vec![],
        Vec::new(),
        vec![game_serpent(0, 90, vec![(5, 5), (5, 6), (5, 11)])],
        1,
        10,
    );
    assert!(!out.can_calculate_move());

    // two serpents under one id
    let twins = Board::new(
        11,
        11,
        vec![],
        Vec::new(),
        vec![
            game_serpent(0, 90, vec![(5, 5), (6, 5), (7, 5)]),
            game_serpent(0, 90, vec![(1, 1), (1, 2), (1, 3)]),
        ],
        2,
        10,
    );
    assert!(!twins.can_calculate_move());

    // the same food tile twice
    let stacked_food = Board::new(
        11,
        11,
        vec![gc(2, 2), gc(2, 2)],
        Vec::new(),
        vec![game_serpent(0, 90, vec![(5, 5), (6, 5), (7, 5)])],
        1,
        10,
    );
    assert!(!stacked_food.can_calculate_move());

    // a single-segment serpent has no neck to steer around
    let stub = Board::new(
        11,
        11,
        vec![],
        Vec::new(),
        vec![game_serpent(0, 90, vec![(5, 5)])],
        1,
        10,
    );
    assert!(!stub.can_calculate_move());
}
