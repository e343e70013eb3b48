use std::collections::VecDeque;

use curunir::battlesnake::Battlesnake;
use curunir::coordinate::Coordinate;
use curunir::requests::InputSnake;
use curunir::route::Route;
use std::cmp::Ordering;

fn c(x: i32, y: i32) -> Coordinate {
    Coordinate::new(x, y)
}

fn serpent(id: u8, health: i32, body: Vec<(i32, i32)>) -> Battlesnake {
    let coords: VecDeque<Coordinate> = body.iter().map(|&(x, y)| c(x, y)).collect();
    let head = coords[0];
    let length = coords.len();
    Battlesnake::new(id, health, coords, 0, head, length)
}

#[test]
fn test_distance_to() {
    let coord_1 = Coordinate::new(3, 5);
    let coord_2 = Coordinate::new(8, 4);

    let distance = coord_1.distance_to(coord_2);

    assert_eq!(distance, 6);
}

#[test]
fn test_collision() {
    let snake1 = serpent(0, 90, vec![(3, 3), (3, 4), (3, 5)]);
    let snake2 = serpent(1, 90, vec![(3, 4), (4, 4), (5, 4)]);

    assert!(snake2.body_collision_with(&snake1));
}

#[test]
fn test_no_collision() {
    let snake1 = serpent(0, 90, vec![(3, 3), (3, 4), (3, 5)]);
    let snake2 = serpent(1, 90, vec![(3, 4), (4, 4), (5, 4)]);

    assert!(!snake1.body_collision_with(&snake2));
}

#[test]
fn battlesnake_test_eat_food() {
    let mut before_eat = serpent(0, 37, vec![(2, 2), (2, 3), (2, 4)]);
    let after_eat = serpent(0, 100, vec![(2, 2), (2, 3), (2, 4), (2, 4)]);

    before_eat.eat_food();

    assert_eq!(before_eat, after_eat);
}

#[test]
fn test_lose_headon_collision() {
    let snake1 = serpent(0, 90, vec![(5, 5), (4, 5), (3, 5), (2, 5)]);
    let snake2 = serpent(1, 90, vec![(5, 5), (6, 5), (7, 5)]);

    assert!(snake2.lost_headon(&snake1));
}

#[test]
fn test_no_headon_collision() {
    let snake1 = serpent(0, 90, vec![(1, 1), (1, 2), (1, 3)]);
    let snake2 = serpent(1, 90, vec![(5, 5), (6, 5), (7, 5)]);

    assert!(!snake1.lost_headon(&snake2));
}

#[test]
fn test_win_headon_collision() {
    let snake1 = serpent(0, 90, vec![(5, 5), (4, 5), (3, 5), (2, 5)]);
    let snake2 = serpent(1, 90, vec![(5, 5), (6, 5), (7, 5)]);

    assert!(!snake1.lost_headon(&snake2));
}

#[test]
fn test_move_to() {
    let mut before_move = serpent(0, 90, vec![(2, 2), (2, 1), (2, 0)]);
    let after_move = serpent(0, 89, vec![(2, 3), (2, 2), (2, 1)]);

    let destination = Coordinate::new(2, 3);
    before_move.move_to(destination);

    assert_eq!(before_move, after_move);
}

// After move_to the body length is unchanged; after eat_food the length grows
// by exactly one and health is restored to 100.
#[test]
fn test_move_then_eat_lengths() {
    let mut s = serpent(0, 55, vec![(4, 4), (4, 3), (4, 2)]);
    s.move_to(Coordinate::new(4, 5));
    assert_eq!(s.get_length(), 3);
    assert_eq!(s.get_body().len(), 3);
    assert_eq!(s.get_health(), 54);

    s.eat_food();
    assert_eq!(s.get_length(), 4);
    assert_eq!(s.get_body().len(), 4);
    assert_eq!(s.get_health(), 100);
}

// The three options skip the neck in the documented enumeration order.
#[test]
fn test_options_skip_neck() {
    // neck below the head: options are up, right, left
    let s = serpent(0, 90, vec![(3, 3), (3, 2), (3, 1)]);
    assert_eq!(s.get_option(0), c(3, 4));
    assert_eq!(s.get_option(1), c(4, 3));
    assert_eq!(s.get_option(2), c(2, 3));
    assert_eq!(s.get_direction(0), 1);
    assert_eq!(s.get_direction(1), 2);
    assert_eq!(s.get_direction(2), 3);

    // neck above: options are down, right, left
    let s2 = serpent(0, 90, vec![(3, 3), (3, 4), (3, 5)]);
    assert_eq!(s2.get_option(0), c(3, 2));
    assert_eq!(s2.get_option(1), c(4, 3));
    assert_eq!(s2.get_option(2), c(2, 3));
}

fn input_serpent(id: &str, latency: &str) -> InputSnake {
    InputSnake {
        id: id.to_string(),
        name: "a serpent".to_string(),
        health: 77,
        body: vec![c(1, 1), c(1, 2), c(1, 3)],
        latency: latency.to_string(),
        head: c(1, 1),
        length: 3,
        shout: String::new(),
    }
}

// Latency strings are read as decimal numbers; anything else counts as 0.
#[test]
fn test_latency_parsing() {
    assert_eq!(input_serpent("s", "123").into_battlesnake(4).latency, 123);
    assert_eq!(input_serpent("s", "-45").into_battlesnake(4).latency, -45);
    assert_eq!(input_serpent("s", "+7").into_battlesnake(4).latency, 7);
    assert_eq!(input_serpent("s", "").into_battlesnake(4).latency, 0);
    assert_eq!(input_serpent("s", "12ms").into_battlesnake(4).latency, 0);
    assert_eq!(input_serpent("s", "99999999999").into_battlesnake(4).latency, 0);
    assert_eq!(input_serpent("s", "2147483647").into_battlesnake(4).latency, 2147483647);
    assert_eq!(input_serpent("s", "2147483648").into_battlesnake(4).latency, 0);
    assert_eq!(input_serpent("s", "-2147483648").into_battlesnake(4).latency, -2147483648);
}

#[test]
fn test_into_battlesnake_fields() {
    let s = input_serpent("some-uuid", "250").into_battlesnake(2);
    assert_eq!(s.get_id(), 2);
    assert_eq!(s.get_health(), 77);
    assert_eq!(s.get_length(), 3);
    assert_eq!(s.get_head(), c(1, 1));
    assert_eq!(s.get_body().len(), 3);
}

// Routes order by survival first, then turns, kills, own food, opponent food
// inverted, and being left alone last.
#[test]
fn test_route_priority() {
    let surviving = Route::new(true, 0, false, 0, 0, 9);
    let doomed = Route::new(false, 50, true, 9, 9, 0);
    assert_eq!(surviving.partial_cmp(&doomed), Some(Ordering::Greater));

    let longer = Route::new(true, 7, false, 0, 0, 0);
    let shorter = Route::new(true, 6, false, 5, 5, 0);
    assert_eq!(longer.partial_cmp(&shorter), Some(Ordering::Greater));

    let frugal_opponents = Route::new(true, 6, false, 5, 5, 1);
    let fed_opponents = Route::new(true, 6, false, 5, 5, 2);
    assert_eq!(frugal_opponents.partial_cmp(&fed_opponents), Some(Ordering::Greater));
    assert_eq!(
        frugal_opponents.partial_cmp(&Route::new(true, 6, false, 5, 5, 1)),
        Some(Ordering::Equal)
    );
}
