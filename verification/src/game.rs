use vstd::prelude::*;

use crate::area_controlled::{searchable, worst_area_value};
use crate::board::{closest_idx, weak_heads, Board, BoardView};
use crate::constants::{EXPONENT, LENGTH_ADVANTAGE, MAX_SEARCH, YOU_ID};
use crate::coordinate::Coordinate;
use crate::decision::{direction_name, outcome_direction, outcome_spec, Decision};
use crate::longest_path::{coord_list_contains, walk_spec};
use crate::ruleset::{Ruleset, RulesetView};
use crate::simulate::{lemma_budget_mono, root_probe, search_budget_ok};

verus! {

/// The mathematical value of a game header.
#[verifier::ext_equal]
pub ghost struct GameView {
    pub id: Seq<char>,
    pub ruleset: RulesetView,
    pub timeout: int,
}

/// One game as announced at intake: its id, the rules in force, and the
/// per-move time budget.
#[derive(Debug)]
pub struct Game {
    pub id: String,
    pub ruleset: Ruleset,
    pub timeout: i32,
}

impl View for Game {
    type V = GameView;

    open spec fn view(&self) -> GameView {
        GameView { id: self.id@, ruleset: self.ruleset@, timeout: self.timeout as int }
    }
}


/// How deep the look-ahead searches: more plies when fewer serpents remain.
pub open spec fn depth_of(n: int) -> int {
    let q = 13int / n;
    if q < 1 {
        1
    } else {
        q
    }
}

/// The larger-first fold the arbiter uses over its four per-direction values.
pub open spec fn max_of_four_scores(sd: u64, su: u64, sr: u64, sl: u64) -> u64 {
    let m0 = sd;
    let m1 = if su > m0 {
        su
    } else {
        m0
    };
    let m2 = if sr > m1 {
        sr
    } else {
        m1
    };
    if sl > m2 {
        sl
    } else {
        m2
    }
}

pub open spec fn max_of_four_areas(c0: i32, c1: i32, c2: i32, c3: i32) -> i32 {
    let m0 = c0;
    let m1 = if c1 > m0 {
        c1
    } else {
        m0
    };
    let m2 = if c2 > m1 {
        c2
    } else {
        m1
    };
    if c3 > m2 {
        c3
    } else {
        m2
    }
}

/// The survival, best-move and kill flags of a decision are exactly those
/// read off the four root score vectors' own slots.
pub open spec fn scores_consistent(
    d: Decision,
    sd: u64,
    su: u64,
    sr: u64,
    sl: u64,
    live: int,
) -> bool {
    let best = max_of_four_scores(sd, su, sr, sl);
    &&& d.down_survival == (sd > 0)
    &&& d.up_survival == (su > 0)
    &&& d.right_survival == (sr > 0)
    &&& d.left_survival == (sl > 0)
    &&& d.down_best == (sd == best)
    &&& d.up_best == (su == best)
    &&& d.right_best == (sr == best)
    &&& d.left_best == (sl == best)
    &&& d.will_kill == (100 - ((best as int / 1_000_000_000) % 100) < live)
}

/// The per-direction area controls of a decision, with their maximum.
pub open spec fn controls_consistent(d: Decision, c0: i32, c1: i32, c2: i32, c3: i32) -> bool {
    &&& d.down_control == c0
    &&& d.up_control == c1
    &&& d.right_control == c2
    &&& d.left_control == c3
    &&& d.max_control == max_of_four_areas(c0, c1, c2, c3)
}

/// Everything the decision carries, pinned on the board by the
/// sub-analyses' contracts: the agent's position, the four escape-path
/// values and flags, wall adjacency, food on each neighbouring tile, the
/// food and weaker-serpent bearings, the four root look-ahead scores with
/// the flags read off them, and the four worst-case area controls — exact
/// whenever a serpent carries the agent's id, as every intake board does.
pub open spec fn arbiter_consistent(bv: BoardView, mf: int, d: Decision) -> bool {
    let you = bv.snakes[0];
    let cap: int = if you.length >= 30 {
        30
    } else {
        you.length
    };
    let down = you.head.down_spec();
    let up = you.head.up_spec();
    let right = you.head.right_spec();
    let left = you.head.left_spec();
    let cands = weak_heads(bv.snakes, you, 5, bv.snakes.len() as int);
    &&& d.current_pos == you.head
    &&& d.down_area == walk_spec(bv, down, 0, cap, Seq::empty(), 0)
    &&& d.up_area == walk_spec(bv, up, 0, cap, Seq::empty(), 0)
    &&& d.right_area == walk_spec(bv, right, 0, cap, Seq::empty(), 0)
    &&& d.left_area == walk_spec(bv, left, 0, cap, Seq::empty(), 0)
    &&& d.max_area == max_of_four_areas(d.down_area, d.up_area, d.right_area, d.left_area)
    &&& d.can_escape_down == (d.down_area >= cap)
    &&& d.can_escape_up == (d.up_area >= cap)
    &&& d.can_escape_right == (d.right_area >= cap)
    &&& d.can_escape_left == (d.left_area >= cap)
    &&& d.against_wall_down == (down.x == 0 || down.x == bv.width - 1 || down.y == 0 || down.y
        == bv.height - 1)
    &&& d.against_wall_up == (up.x == 0 || up.x == bv.width - 1 || up.y == 0 || up.y == bv.height
        - 1)
    &&& d.against_wall_right == (right.x == 0 || right.x == bv.width - 1 || right.y == 0
        || right.y == bv.height - 1)
    &&& d.against_wall_left == (left.x == 0 || left.x == bv.width - 1 || left.y == 0 || left.y
        == bv.height - 1)
    &&& d.food_down == bv.food.contains(down)
    &&& d.food_up == bv.food.contains(up)
    &&& d.food_right == bv.food.contains(right)
    &&& d.food_left == bv.food.contains(left)
    &&& d.food_exists == (bv.food.len() > 0 && exists|t: int|
        0 <= t < bv.snakes.len() && (#[trigger] bv.snakes[t]).id != you.id && bv.snakes[t].length
            > you.length - 5)
    &&& bv.food.len() > 0 ==> d.closest_food == bv.food[closest_idx(
        bv.food,
        you.head,
        bv.food.len() as int,
    )]
    &&& d.weak_snake_exists == (cands.len() > 0)
    &&& cands.len() > 0 ==> d.weak_snake_head == cands[closest_idx(
        cands,
        you.head,
        cands.len() as int,
    )]
    &&& scores_consistent(
        d,
        root_probe(bv, down, mf, 0, depth_of(bv.snakes.len() as int))[0],
        root_probe(bv, up, mf, 0, depth_of(bv.snakes.len() as int))[0],
        root_probe(bv, right, mf, 0, depth_of(bv.snakes.len() as int))[0],
        root_probe(bv, left, mf, 0, depth_of(bv.snakes.len() as int))[0],
        bv.snakes.len() as int,
    )
    &&& exists|c0: i32, c1: i32, c2: i32, c3: i32| #[trigger] controls_consistent(d, c0, c1, c2, c3)
    &&& crate::evaluate::is_live_id(bv, YOU_ID as int) ==> controls_consistent(
        d,
        worst_area_value(bv, mf, 0),
        worst_area_value(bv, mf, 1),
        worst_area_value(bv, mf, 2),
        worst_area_value(bv, mf, 3),
    )
}

impl Board {
    /// True exactly when this board meets everything `calculate_move`
    /// requires, so an unverified caller can establish that precondition by
    /// one checked call: sane dimensions, well-formed serpents with distinct
    /// addressable ids, food tiles distinct and on the grid, every body
    /// segment on the grid, at least one serpent, at most twelve, and enough
    /// headroom on the turn, health and length counters for a full search.
    #[verifier::rlimit(100)]
    pub fn can_calculate_move(&self) -> (r: bool)
        ensures
            r == (search_budget_ok(self@, 15) && self@.grounded() && self@.snakes.len() >= 1),
    {
        if self.width < 1 || self.height < 1 {
            return false;
        }
        proof {
            assert(1 <= (self.width as int) * (self.height as int)
                <= 0x3fff_ffff_ffff_ffffint) by (nonlinear_arith)
                requires
                    1 <= self.width as int <= 0x7fff_ffff,
                    1 <= self.height as int <= 0x7fff_ffff,
            ;
        }
        if (self.width as i64) * (self.height as i64) > 1_000_000_000i64 {
            return false;
        }
        if self.snakes.len() < 1 || self.snakes.len() > 12 || self.max_snakes < 1 {
            return false;
        }
        if self.turn > i32::MAX - 16 {
            return false;
        }

        let mut i: usize = 0;
        while i < self.snakes.len()
            invariant
                0 <= i <= self@.snakes.len(),
                self@.dims_ok(),
                forall|t: int|
                    0 <= t < i ==> (#[trigger] self@.snakes[t]).wf() && self@.snakes[t].id
                        < self@.max_snakes && self@.snakes[t].body.len() >= 2
                        && self@.snakes[t].length + 16 < usize::MAX && self@.snakes[t].health - 16
                        > i32::MIN,
                forall|t: int, k: int|
                    0 <= t < i && 0 <= k < self@.snakes[t].body.len() ==> self@.in_bounds(
                        #[trigger] self@.snakes[t].body[k],
                    ),
                forall|t: int, u: int|
                    0 <= t < i && 0 <= u < i && t != u ==> #[trigger] self@.snakes[t].id
                        != #[trigger] self@.snakes[u].id,
            decreases self@.snakes.len() - i,
        {
            let snake = &self.snakes[i];
            proof {
                assert(snake@ == self@.snakes[i as int]);
            }
            let blen = snake.body.len();
            if blen < 2 || snake.get_length() != blen || !(snake.get_head() == snake.body[0]) {
                return false;
            }
            if snake.get_length() >= usize::MAX - 16 {
                return false;
            }
            if snake.get_health() <= i32::MIN + 16 {
                return false;
            }
            if (snake.get_id() as usize) >= self.max_snakes {
                return false;
            }
            let mut k: usize = 0;
            while k < blen
                invariant
                    0 <= k <= blen,
                    blen == snake.body@.len(),
                    snake@ == self@.snakes[i as int],
                    i < self@.snakes.len(),
                    forall|j: int|
                        0 <= j < k ==> self@.in_bounds(#[trigger] snake.body@[j]),
                decreases blen - k,
            {
                let tile = snake.body[k];
                if tile.get_x() < 0 || tile.get_x() >= self.width || tile.get_y() < 0
                    || tile.get_y() >= self.height {
                    proof {
                        assert(!self@.in_bounds(self@.snakes[i as int].body[k as int]));
                        assert(!self@.grounded());
                    }
                    return false;
                }
                k = k + 1;
            }
            let mut u: usize = 0;
            while u < i
                invariant
                    0 <= u <= i < self@.snakes.len(),
                    snake@ == self@.snakes[i as int],
                    forall|t: int|
                        0 <= t < u ==> #[trigger] self@.snakes[t].id != self@.snakes[i as int].id,
                decreases i - u,
            {
                if self.snakes[u].get_id() == snake.get_id() {
                    proof {
                        assert(self@.snakes[u as int].id == self@.snakes[i as int].id);
                        assert(!self@.snakes_ok());
                    }
                    return false;
                }
                u = u + 1;
            }
            i = i + 1;
        }

        let mut f: usize = 0;
        while f < self.food.len()
            invariant
                0 <= f <= self@.food.len(),
                self@.dims_ok(),
                forall|t: int| 0 <= t < f ==> self@.in_bounds(#[trigger] self@.food[t]),
                forall|t: int, u: int|
                    0 <= t < f && 0 <= u < f && t != u ==> #[trigger] self@.food[t]
                        != #[trigger] self@.food[u],
            decreases self@.food.len() - f,
        {
            let tile = self.food[f];
            if tile.get_x() < 0 || tile.get_x() >= self.width || tile.get_y() < 0 || tile.get_y()
                >= self.height {
                proof {
                    assert(!self@.in_bounds(self@.food[f as int]));
                }
                return false;
            }
            let mut u: usize = 0;
            while u < f
                invariant
                    0 <= u <= f < self@.food.len(),
                    tile == self@.food[f as int],
                    forall|t: int| 0 <= t < u ==> #[trigger] self@.food[t] != self@.food[f as int],
                decreases f - u,
            {
                if self.food[u] == tile {
                    proof {
                        assert(self@.food[u as int] == self@.food[f as int]);
                        assert(!self@.food_ok());
                    }
                    return false;
                }
                u = u + 1;
            }
            f = f + 1;
        }

        true
    }
}

impl Game {
    pub fn new(id: String, ruleset: Ruleset, timeout: i32) -> (r: Game)
        ensures
            r@ == (GameView { id: id@, ruleset: ruleset@, timeout: timeout as int }),
    {
        Game { id, ruleset, timeout }
    }

    pub fn get_id(&self) -> (r: &String)
        ensures
            r@ == self@.id,
    {
        &self.id
    }

    /// The whole decision pipeline for one move: probe the four root
    /// directions with the joint look-ahead, measure the four escape paths
    /// and the worst-case area control, gather the immediate board signals,
    /// and let the priority ladder pick the direction.
    #[verifier::rlimit(100)]
    pub fn calculate_move(&self, board: Board) -> (r: String)
        requires
            search_budget_ok(board@, 15),
            board@.grounded(),
            board@.snakes.len() >= 1,
        ensures
            r@ == "down"@ || r@ == "up"@ || r@ == "right"@ || r@ == "left"@,
            exists|d: Decision|
                #![trigger arbiter_consistent(board@, self@.ruleset.minimum_food, d)]
                arbiter_consistent(board@, self@.ruleset.minimum_food, d) && r@ == direction_name(
                    outcome_direction(outcome_spec(d)),
                ),
    {
        // Deeper searches when fewer serpents remain.
        let n = board.snakes.len();
        let d0 = EXPONENT / (n as i32);
        let max_depth = if d0 < 1 {
            1
        } else {
            d0
        };
        proof {
            lemma_budget_mono(board@, max_depth + 1, 15);
        }

        // The four root score vectors.
        let down_vec = board.clone().check_down(&self.ruleset, 0, max_depth);
        let up_vec = board.clone().check_up(&self.ruleset, 0, max_depth);
        let right_vec = board.clone().check_right(&self.ruleset, 0, max_depth);
        let left_vec = board.clone().check_left(&self.ruleset, 0, max_depth);
        let down_score = down_vec[0];
        let up_score = up_vec[0];
        let right_score = right_vec[0];
        let left_score = left_vec[0];

        proof {
            assert(board@.snakes[0].wf());
            assert(board@.in_bounds(board@.snakes[0].body[0]));
            assert(board@.width <= 1_000_000_000 && board@.height <= 1_000_000_000)
                by (nonlinear_arith)
                requires
                    1 <= board@.width,
                    1 <= board@.height,
                    board@.width * board@.height <= 1_000_000_000,
            ;
        }
        let you = &board.snakes[0];
        let current_pos = you.get_head();
        let down_pos = current_pos.get_down();
        let up_pos = current_pos.get_up();
        let right_pos = current_pos.get_right();
        let left_pos = current_pos.get_left();

        // The escape budget: a path that outlives the tail.
        let max_search = if you.get_length() >= MAX_SEARCH as usize {
            MAX_SEARCH
        } else {
            you.get_length() as i32
        };

        let mut gone_down: Vec<Coordinate> = Vec::new();
        let down_area = board.longest_path(down_pos, 0, max_search, &mut gone_down, 0);
        let mut gone_up: Vec<Coordinate> = Vec::new();
        let up_area = board.longest_path(up_pos, 0, max_search, &mut gone_up, 0);
        let mut gone_right: Vec<Coordinate> = Vec::new();
        let right_area = board.longest_path(right_pos, 0, max_search, &mut gone_right, 0);
        let mut gone_left: Vec<Coordinate> = Vec::new();
        let left_area = board.longest_path(left_pos, 0, max_search, &mut gone_left, 0);

        let can_escape_down = down_area >= max_search;
        let can_escape_up = up_area >= max_search;
        let can_escape_right = right_area >= max_search;
        let can_escape_left = left_area >= max_search;

        // Food bearings: only chased while some opponent is still too big
        // to hunt instead.
        let closest_food_opt = board.find_closest_food(current_pos);
        let mut big_opponent = false;
        let mut si: usize = 0;
        while si < board.snakes.len()
            invariant
                0 <= si <= board@.snakes.len(),
                you@ == board@.snakes[0],
                big_opponent == exists|t: int|
                    0 <= t < si && (#[trigger] board@.snakes[t]).id != board@.snakes[0].id
                        && board@.snakes[t].length > board@.snakes[0].length - 5,
            decreases board@.snakes.len() - si,
        {
            let other = &board.snakes[si];
            proof {
                assert(other@ == board@.snakes[si as int]);
            }
            if other.get_id() != you.get_id() && other.get_length() as i128
                > you.get_length() as i128 - LENGTH_ADVANTAGE as i128 {
                big_opponent = true;
            }
            si = si + 1;
        }
        let closest_food_exists = closest_food_opt.is_some() && big_opponent;
        let closest_food = match closest_food_opt {
            Some(c) => c,
            None => Coordinate::new(0, 0),
        };

        // The closest clearly weaker serpent, carried through for the record.
        let weak_snake_opt = board.find_weaker_snake(you, LENGTH_ADVANTAGE);
        let weak_snake_exists = weak_snake_opt.is_some();
        let weak_snake_head = match weak_snake_opt {
            Some(c) => c,
            None => Coordinate::new(0, 0),
        };

        let against_wall_down = board.is_against_wall(down_pos);
        let against_wall_up = board.is_against_wall(up_pos);
        let against_wall_right = board.is_against_wall(right_pos);
        let against_wall_left = board.is_against_wall(left_pos);
        let food_down = coord_list_contains(&board.food, down_pos);
        let food_up = coord_list_contains(&board.food, up_pos);
        let food_right = coord_list_contains(&board.food, right_pos);
        let food_left = coord_list_contains(&board.food, left_pos);

        // Worst-case area control per direction.
        proof {
            assert(searchable(board@));
        }
        let control_areas = board.calculate_areas(&self.ruleset);
        let down_control = control_areas[0];
        let up_control = control_areas[1];
        let right_control = control_areas[2];
        let left_control = control_areas[3];
        let mut max_control = down_control;
        if up_control > max_control {
            max_control = up_control;
        }
        if right_control > max_control {
            max_control = right_control;
        }
        if left_control > max_control {
            max_control = left_control;
        }

        let mut max_area = down_area;
        if up_area > max_area {
            max_area = up_area;
        }
        if right_area > max_area {
            max_area = right_area;
        }
        if left_area > max_area {
            max_area = left_area;
        }

        let mut best_score = down_score;
        if up_score > best_score {
            best_score = up_score;
        }
        if right_score > best_score {
            best_score = right_score;
        }
        if left_score > best_score {
            best_score = left_score;
        }
        let down_best = down_score == best_score;
        let up_best = up_score == best_score;
        let right_best = right_score == best_score;
        let left_best = left_score == best_score;

        let down_survival = down_score > 0;
        let up_survival = up_score > 0;
        let right_survival = right_score > 0;
        let left_survival = left_score > 0;

        // Decoded from the opponent-count band of the best score: fewer
        // opponents within the horizon than are alive now.
        let will_kill = 100 - ((best_score / 1_000_000_000) % 100) < (board.snakes.len() as u64);

        let decision = Decision::new(
            down_survival,
            up_survival,
            right_survival,
            left_survival,
            down_best,
            up_best,
            right_best,
            left_best,
            max_area,
            down_area,
            up_area,
            right_area,
            left_area,
            can_escape_down,
            can_escape_up,
            can_escape_right,
            can_escape_left,
            against_wall_down,
            against_wall_up,
            against_wall_right,
            against_wall_left,
            food_down,
            food_up,
            food_right,
            food_left,
            closest_food_exists,
            closest_food,
            weak_snake_exists,
            weak_snake_head,
            will_kill,
            current_pos,
            max_control,
            down_control,
            up_control,
            right_control,
            left_control,
        );
        let chosen = decision.calculate();
        proof {
            assert(you@ == board@.snakes[0]);
            assert(max_search as int == (if board@.snakes[0].length >= 30 {
                30int
            } else {
                board@.snakes[0].length
            }));
            assert(max_depth as int == depth_of(board@.snakes.len() as int));
            assert(scores_consistent(
                decision,
                down_score,
                up_score,
                right_score,
                left_score,
                board@.snakes.len() as int,
            ));
            assert(controls_consistent(
                decision,
                down_control,
                up_control,
                right_control,
                left_control,
            ));
            assert(arbiter_consistent(board@, self@.ruleset.minimum_food, decision));
            assert(chosen.1@ == direction_name(outcome_direction(outcome_spec(decision))));
        }
        chosen.1
    }
}

} // verus!
