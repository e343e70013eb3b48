use vstd::prelude::*;

use crate::coordinate::Coordinate;

verus! {

/// The per-direction features the arbiter weighs: look-ahead survival and
/// best-score flags, escape paths, wall adjacency, food and prey bearings,
/// and area control, in the fixed direction order down, up, right, left.
#[derive(Clone, Copy, Debug)]
pub struct Decision {
    pub down_survival: bool,
    pub up_survival: bool,
    pub right_survival: bool,
    pub left_survival: bool,
    pub down_best: bool,
    pub up_best: bool,
    pub right_best: bool,
    pub left_best: bool,
    pub max_area: i32,
    pub down_area: i32,
    pub up_area: i32,
    pub right_area: i32,
    pub left_area: i32,
    pub can_escape_down: bool,
    pub can_escape_up: bool,
    pub can_escape_right: bool,
    pub can_escape_left: bool,
    pub against_wall_down: bool,
    pub against_wall_up: bool,
    pub against_wall_right: bool,
    pub against_wall_left: bool,
    pub food_down: bool,
    pub food_up: bool,
    pub food_right: bool,
    pub food_left: bool,
    pub food_exists: bool,
    pub closest_food: Coordinate,
    pub weak_snake_exists: bool,
    pub weak_snake_head: Coordinate,
    pub will_kill: bool,
    pub current_pos: Coordinate,
    pub max_control: i32,
    pub down_control: i32,
    pub up_control: i32,
    pub right_control: i32,
    pub left_control: i32,
}

impl Decision {
    pub fn new(
        down_survival: bool,
        up_survival: bool,
        right_survival: bool,
        left_survival: bool,
        down_best: bool,
        up_best: bool,
        right_best: bool,
        left_best: bool,
        max_area: i32,
        down_area: i32,
        up_area: i32,
        right_area: i32,
        left_area: i32,
        can_escape_down: bool,
        can_escape_up: bool,
        can_escape_right: bool,
        can_escape_left: bool,
        against_wall_down: bool,
        against_wall_up: bool,
        against_wall_right: bool,
        against_wall_left: bool,
        food_down: bool,
        food_up: bool,
        food_right: bool,
        food_left: bool,
        food_exists: bool,
        closest_food: Coordinate,
        weak_snake_exists: bool,
        weak_snake_head: Coordinate,
        will_kill: bool,
        current_pos: Coordinate,
        max_control: i32,
        down_control: i32,
        up_control: i32,
        right_control: i32,
        left_control: i32,
    ) -> (r: Decision)
        ensures
            r == (Decision {
                down_survival,
            up_survival,
            right_survival,
            left_survival,
            down_best,
            up_best,
            right_best,
            left_best,
            max_area,
            down_area,
            up_area,
            right_area,
            left_area,
            can_escape_down,
            can_escape_up,
            can_escape_right,
            can_escape_left,
            against_wall_down,
            against_wall_up,
            against_wall_right,
            against_wall_left,
            food_down,
            food_up,
            food_right,
            food_left,
            food_exists,
            closest_food,
            weak_snake_exists,
            weak_snake_head,
            will_kill,
            current_pos,
            max_control,
            down_control,
            up_control,
            right_control,
            left_control,
            }),
    {
        Decision {
            down_survival,
            up_survival,
            right_survival,
            left_survival,
            down_best,
            up_best,
            right_best,
            left_best,
            max_area,
            down_area,
            up_area,
            right_area,
            left_area,
            can_escape_down,
            can_escape_up,
            can_escape_right,
            can_escape_left,
            against_wall_down,
            against_wall_up,
            against_wall_right,
            against_wall_left,
            food_down,
            food_up,
            food_right,
            food_left,
            food_exists,
            closest_food,
            weak_snake_exists,
            weak_snake_head,
            will_kill,
            current_pos,
            max_control,
            down_control,
            up_control,
            right_control,
            left_control,
        }
    }
}

/// The rung of the priority ladder that fires first: each block of four
/// outcomes is one tier tried in the fixed order down, up, right, left, and
/// 52 is the default.
pub open spec fn outcome_spec(d: Decision) -> int {
    if d.down_survival && d.will_kill && d.down_best {
        0int
    } else if d.up_survival && d.will_kill && d.up_best {
        1int
    } else if d.right_survival && d.will_kill && d.right_best {
        2int
    } else if d.left_survival && d.will_kill && d.left_best {
        3int
    } else if d.down_survival && d.can_escape_down && d.down_best && (!d.against_wall_down || d.food_down) && d.food_exists && d.closest_food.y < d.current_pos.y {
        4int
    } else if d.up_survival && d.can_escape_up && d.up_best && (!d.against_wall_up || d.food_up) && d.food_exists && d.closest_food.y > d.current_pos.y {
        5int
    } else if d.right_survival && d.can_escape_right && d.right_best && (!d.against_wall_right || d.food_right) && d.food_exists && d.closest_food.x > d.current_pos.x {
        6int
    } else if d.left_survival && d.can_escape_left && d.left_best && (!d.against_wall_left || d.food_left) && d.food_exists && d.closest_food.x < d.current_pos.x {
        7int
    } else if d.down_survival && d.can_escape_down && d.down_best && d.down_control == d.max_control && (!d.against_wall_down || d.food_down) {
        8int
    } else if d.up_survival && d.can_escape_up && d.up_best && d.up_control == d.max_control && (!d.against_wall_up || d.food_up) {
        9int
    } else if d.right_survival && d.can_escape_right && d.right_best && d.right_control == d.max_control && (!d.against_wall_right || d.food_right) {
        10int
    } else if d.left_survival && d.can_escape_left && d.left_best && d.left_control == d.max_control && (!d.against_wall_left || d.food_left) {
        11int
    } else if d.down_survival && d.can_escape_down && d.down_best && (!d.against_wall_down || d.food_down) {
        12int
    } else if d.up_survival && d.can_escape_up && d.up_best && (!d.against_wall_up || d.food_up) {
        13int
    } else if d.right_survival && d.can_escape_right && d.right_best && (!d.against_wall_right || d.food_right) {
        14int
    } else if d.left_survival && d.can_escape_left && d.left_best && (!d.against_wall_left || d.food_left) {
        15int
    } else if d.down_survival && d.can_escape_down && d.down_best && d.food_exists && d.closest_food.y < d.current_pos.y {
        16int
    } else if d.up_survival && d.can_escape_up && d.up_best && d.food_exists && d.closest_food.y > d.current_pos.y {
        17int
    } else if d.right_survival && d.can_escape_right && d.right_best && d.food_exists && d.closest_food.x > d.current_pos.x {
        18int
    } else if d.left_survival && d.can_escape_left && d.left_best && d.food_exists && d.closest_food.x < d.current_pos.x {
        19int
    } else if d.down_survival && d.can_escape_down && d.down_best && d.down_control == d.max_control {
        20int
    } else if d.up_survival && d.can_escape_up && d.up_best && d.up_control == d.max_control {
        21int
    } else if d.right_survival && d.can_escape_right && d.right_best && d.right_control == d.max_control {
        22int
    } else if d.left_survival && d.can_escape_left && d.left_best && d.left_control == d.max_control {
        23int
    } else if d.down_survival && d.can_escape_down && d.down_best {
        24int
    } else if d.up_survival && d.can_escape_up && d.up_best {
        25int
    } else if d.right_survival && d.can_escape_right && d.right_best {
        26int
    } else if d.left_survival && d.can_escape_left && d.left_best {
        27int
    } else if d.down_survival && d.can_escape_down && d.down_control == d.max_control {
        28int
    } else if d.up_survival && d.can_escape_up && d.up_control == d.max_control {
        29int
    } else if d.right_survival && d.can_escape_right && d.right_control == d.max_control {
        30int
    } else if d.left_survival && d.can_escape_left && d.left_control == d.max_control {
        31int
    } else if d.down_survival && d.can_escape_down {
        32int
    } else if d.up_survival && d.can_escape_up {
        33int
    } else if d.right_survival && d.can_escape_right {
        34int
    } else if d.left_survival && d.can_escape_left {
        35int
    } else if d.can_escape_down && d.down_best {
        36int
    } else if d.can_escape_up && d.up_best {
        37int
    } else if d.can_escape_right && d.right_best {
        38int
    } else if d.can_escape_left && d.left_best {
        39int
    } else if d.can_escape_down && d.down_control == d.max_control {
        40int
    } else if d.can_escape_up && d.up_control == d.max_control {
        41int
    } else if d.can_escape_right && d.right_control == d.max_control {
        42int
    } else if d.can_escape_left && d.left_control == d.max_control {
        43int
    } else if d.down_best && d.down_area == d.max_area {
        44int
    } else if d.up_best && d.up_area == d.max_area {
        45int
    } else if d.right_best && d.right_area == d.max_area {
        46int
    } else if d.left_best && d.left_area == d.max_area {
        47int
    } else if d.down_area == d.max_area {
        48int
    } else if d.up_area == d.max_area {
        49int
    } else if d.right_area == d.max_area {
        50int
    } else if d.left_area == d.max_area {
        51int
    } else {
        52int
    }
}

/// The direction index (down, up, right, left as 0..3) that an outcome of
/// the ladder stands for; the default outcome goes up.
pub open spec fn outcome_direction(outcome: int) -> int {
    if outcome == 52 {
        1
    } else {
        outcome % 4
    }
}

/// The wire name of a direction index.
pub open spec fn direction_name(dir: int) -> Seq<char> {
    if dir == 0 {
        "down"@
    } else if dir == 1 {
        "up"@
    } else if dir == 2 {
        "right"@
    } else {
        "left"@
    }
}

impl Decision {
    /// Walk the ladder top down and return the first rung that fires,
    /// with the direction it names.
    #[verifier::rlimit(100)]
    pub fn calculate(self) -> (r: (i32, String))
        ensures
            r.0 == outcome_spec(self),
            r.1@ == direction_name(outcome_direction(outcome_spec(self))),
    {
        let outcome: i32;
        let direction: String;

        if self.down_survival && self.will_kill && self.down_best {
            outcome = 0;
            direction = "down".to_owned();
        } else if self.up_survival && self.will_kill && self.up_best {
            outcome = 1;
            direction = "up".to_owned();
        } else if self.right_survival && self.will_kill && self.right_best {
            outcome = 2;
            direction = "right".to_owned();
        } else if self.left_survival && self.will_kill && self.left_best {
            outcome = 3;
            direction = "left".to_owned();
        } else if self.down_survival && self.can_escape_down && self.down_best && (!self.against_wall_down || self.food_down) && self.food_exists && self.closest_food.y < self.current_pos.y {
            outcome = 4;
            direction = "down".to_owned();
        } else if self.up_survival && self.can_escape_up && self.up_best && (!self.against_wall_up || self.food_up) && self.food_exists && self.closest_food.y > self.current_pos.y {
            outcome = 5;
            direction = "up".to_owned();
        } else if self.right_survival && self.can_escape_right && self.right_best && (!self.against_wall_right || self.food_right) && self.food_exists && self.closest_food.x > self.current_pos.x {
            outcome = 6;
            direction = "right".to_owned();
        } else if self.left_survival && self.can_escape_left && self.left_best && (!self.against_wall_left || self.food_left) && self.food_exists && self.closest_food.x < self.current_pos.x {
            outcome = 7;
            direction = "left".to_owned();
        } else if self.down_survival && self.can_escape_down && self.down_best && self.down_control == self.max_control && (!self.against_wall_down || self.food_down) {
            outcome = 8;
            direction = "down".to_owned();
        } else if self.up_survival && self.can_escape_up && self.up_best && self.up_control == self.max_control && (!self.against_wall_up || self.food_up) {
            outcome = 9;
            direction = "up".to_owned();
        } else if self.right_survival && self.can_escape_right && self.right_best && self.right_control == self.max_control && (!self.against_wall_right || self.food_right) {
            outcome = 10;
            direction = "right".to_owned();
        } else if self.left_survival && self.can_escape_left && self.left_best && self.left_control == self.max_control && (!self.against_wall_left || self.food_left) {
            outcome = 11;
            direction = "left".to_owned();
        } else if self.down_survival && self.can_escape_down && self.down_best && (!self.against_wall_down || self.food_down) {
            outcome = 12;
            direction = "down".to_owned();
        } else if self.up_survival && self.can_escape_up && self.up_best && (!self.against_wall_up || self.food_up) {
            outcome = 13;
            direction = "up".to_owned();
        } else if self.right_survival && self.can_escape_right && self.right_best && (!self.against_wall_right || self.food_right) {
            outcome = 14;
            direction = "right".to_owned();
        } else if self.left_survival && self.can_escape_left && self.left_best && (!self.against_wall_left || self.food_left) {
            outcome = 15;
            direction = "left".to_owned();
        } else if self.down_survival && self.can_escape_down && self.down_best && self.food_exists && self.closest_food.y < self.current_pos.y {
            outcome = 16;
            direction = "down".to_owned();
        } else if self.up_survival && self.can_escape_up && self.up_best && self.food_exists && self.closest_food.y > self.current_pos.y {
            outcome = 17;
            direction = "up".to_owned();
        } else if self.right_survival && self.can_escape_right && self.right_best && self.food_exists && self.closest_food.x > self.current_pos.x {
            outcome = 18;
            direction = "right".to_owned();
        } else if self.left_survival && self.can_escape_left && self.left_best && self.food_exists && self.closest_food.x < self.current_pos.x {
            outcome = 19;
            direction = "left".to_owned();
        } else if self.down_survival && self.can_escape_down && self.down_best && self.down_control == self.max_control {
            outcome = 20;
            direction = "down".to_owned();
        } else if self.up_survival && self.can_escape_up && self.up_best && self.up_control == self.max_control {
            outcome = 21;
            direction = "up".to_owned();
        } else if self.right_survival && self.can_escape_right && self.right_best && self.right_control == self.max_control {
            outcome = 22;
            direction = "right".to_owned();
        } else if self.left_survival && self.can_escape_left && self.left_best && self.left_control == self.max_control {
            outcome = 23;
            direction = "left".to_owned();
        } else if self.down_survival && self.can_escape_down && self.down_best {
            outcome = 24;
            direction = "down".to_owned();
        } else if self.up_survival && self.can_escape_up && self.up_best {
            outcome = 25;
            direction = "up".to_owned();
        } else if self.right_survival && self.can_escape_right && self.right_best {
            outcome = 26;
            direction = "right".to_owned();
        } else if self.left_survival && self.can_escape_left && self.left_best {
            outcome = 27;
            direction = "left".to_owned();
        } else if self.down_survival && self.can_escape_down && self.down_control == self.max_control {
            outcome = 28;
            direction = "down".to_owned();
        } else if self.up_survival && self.can_escape_up && self.up_control == self.max_control {
            outcome = 29;
            direction = "up".to_owned();
        } else if self.right_survival && self.can_escape_right && self.right_control == self.max_control {
            outcome = 30;
            direction = "right".to_owned();
        } else if self.left_survival && self.can_escape_left && self.left_control == self.max_control {
            outcome = 31;
            direction = "left".to_owned();
        } else if self.down_survival && self.can_escape_down {
            outcome = 32;
            direction = "down".to_owned();
        } else if self.up_survival && self.can_escape_up {
            outcome = 33;
            direction = "up".to_owned();
        } else if self.right_survival && self.can_escape_right {
            outcome = 34;
            direction = "right".to_owned();
        } else if self.left_survival && self.can_escape_left {
            outcome = 35;
            direction = "left".to_owned();
        } else if self.can_escape_down && self.down_best {
            outcome = 36;
            direction = "down".to_owned();
        } else if self.can_escape_up && self.up_best {
            outcome = 37;
            direction = "up".to_owned();
        } else if self.can_escape_right && self.right_best {
            outcome = 38;
            direction = "right".to_owned();
        } else if self.can_escape_left && self.left_best {
            outcome = 39;
            direction = "left".to_owned();
        } else if self.can_escape_down && self.down_control == self.max_control {
            outcome = 40;
            direction = "down".to_owned();
        } else if self.can_escape_up && self.up_control == self.max_control {
            outcome = 41;
            direction = "up".to_owned();
        } else if self.can_escape_right && self.right_control == self.max_control {
            outcome = 42;
            direction = "right".to_owned();
        } else if self.can_escape_left && self.left_control == self.max_control {
            outcome = 43;
            direction = "left".to_owned();
        } else if self.down_best && self.down_area == self.max_area {
            outcome = 44;
            direction = "down".to_owned();
        } else if self.up_best && self.up_area == self.max_area {
            outcome = 45;
            direction = "up".to_owned();
        } else if self.right_best && self.right_area == self.max_area {
            outcome = 46;
            direction = "right".to_owned();
        } else if self.left_best && self.left_area == self.max_area {
            outcome = 47;
            direction = "left".to_owned();
        } else if self.down_area == self.max_area {
            outcome = 48;
            direction = "down".to_owned();
        } else if self.up_area == self.max_area {
            outcome = 49;
            direction = "up".to_owned();
        } else if self.right_area == self.max_area {
            outcome = 50;
            direction = "right".to_owned();
        } else if self.left_area == self.max_area {
            outcome = 51;
            direction = "left".to_owned();
        } else {
            outcome = 52;
            direction = "up".to_owned();
        }
        (outcome, direction)
    }
}

} // verus!
