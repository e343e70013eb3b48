use vstd::prelude::*;

use crate::battlesnake::SnakeView;
use crate::board::{
    closest_idx, lemma_closest_idx, lemma_distance_in_range, lemma_weak_heads_subset,
    open_directions_spec, weak_heads, Board, BoardView,
};
use crate::constants::LENGTH_ADVANTAGE;
use crate::coordinate::manhattan;

verus! {

pub open spec fn max0(x: int) -> int {
    if x < 0 {
        0
    } else {
        x
    }
}

/// Proximity to the closest food: 100 at distance zero, fading to 0.
pub open spec fn food_score(bv: BoardView, s: SnakeView) -> int {
    if bv.food.len() > 0 {
        max0(100 - manhattan(s.head, bv.food[closest_idx(bv.food, s.head, bv.food.len() as int)]))
    } else {
        0
    }
}

/// Proximity to the closest clearly weaker serpent's head.
pub open spec fn weak_score(bv: BoardView, s: SnakeView) -> int {
    let cands = weak_heads(bv.snakes, s, LENGTH_ADVANTAGE as int, bv.snakes.len() as int);
    if cands.len() > 0 {
        max0(100 - manhattan(s.head, cands[closest_idx(cands, s.head, cands.len() as int)]))
    } else {
        0
    }
}

/// Body length, capped so it stays within its decimal band.
pub open spec fn length_score(s: SnakeView) -> int {
    if s.length > 999 {
        999
    } else {
        s.length
    }
}

/// Fewer live serpents score higher; this band dominates all others.
pub open spec fn opponent_score(bv: BoardView) -> int {
    if bv.snakes.len() < 100 {
        100 - bv.snakes.len()
    } else {
        0
    }
}

/// The decimal-band-packed score of one live serpent: free neighbours in the
/// lowest digits, then food proximity, then length, then prey proximity, a
/// not-cornered bonus, and the live-serpent count on top.
pub open spec fn snake_score(bv: BoardView, s: SnakeView) -> int {
    open_directions_spec(bv, s) + 10 * food_score(bv, s) + 1000 * length_score(s) + 1_000_000
        * weak_score(bv, s) + (if open_directions_spec(bv, s) >= 2 {
        100_000_000int
    } else {
        0int
    }) + 1_000_000_000 * opponent_score(bv)
}

/// Some live serpent carries id `k`.
pub open spec fn is_live_id(bv: BoardView, k: int) -> bool {
    exists|i: int| 0 <= i < bv.snakes.len() && (#[trigger] bv.snakes[i]).id == k
}

/// The whole score vector: one slot per participant, the live serpent's
/// packed score in its own slot and zero everywhere else.
pub open spec fn score_vec(bv: BoardView) -> Seq<u64> {
    Seq::new(
        bv.max_snakes as nat,
        |k: int|
            if is_live_id(bv, k) {
                snake_score(
                    bv,
                    bv.snakes[choose|i: int|
                        0 <= i < bv.snakes.len() && (#[trigger] bv.snakes[i]).id == k],
                ) as u64
            } else {
                0u64
            },
    )
}

/// Each band of the score stays within its digits.
pub proof fn lemma_score_bands(bv: BoardView, s: SnakeView)
    requires
        bv.dims_ok(),
        bv.grounded(),
        bv.snakes_ok(),
        bv.near_bounds(s.head),
    ensures
        0 <= open_directions_spec(bv, s) <= 4,
        0 <= food_score(bv, s) <= 100,
        0 <= length_score(s) <= 999 || s.length < 1,
        0 <= weak_score(bv, s) <= 100,
        0 <= opponent_score(bv) <= 100,
{
    if bv.food.len() > 0 {
        lemma_closest_idx(bv.food, s.head, bv.food.len() as int);
    }
    let cands = weak_heads(bv.snakes, s, LENGTH_ADVANTAGE as int, bv.snakes.len() as int);
    if cands.len() > 0 {
        lemma_closest_idx(cands, s.head, cands.len() as int);
    }
}

/// Between two positions that agree on every other band, the serpent with
/// the longer (capped) length scores strictly higher. A food tile directly
/// under the shorter serpent's head is excluded: there the food band spills
/// into the length band's lowest digit.
pub proof fn lemma_score_longer_length(
    bv1: BoardView,
    bv2: BoardView,
    s1: SnakeView,
    s2: SnakeView,
)
    requires
        bv1.dims_ok() && bv1.grounded() && bv1.snakes_ok() && bv1.near_bounds(s1.head),
        bv2.dims_ok() && bv2.grounded() && bv2.snakes_ok() && bv2.near_bounds(s2.head),
        0 <= s1.length,
        0 <= s2.length,
        length_score(s1) > length_score(s2),
        opponent_score(bv1) == opponent_score(bv2),
        weak_score(bv1, s1) == weak_score(bv2, s2),
        open_directions_spec(bv1, s1) == open_directions_spec(bv2, s2),
        food_score(bv2, s2) <= 99,
    ensures
        snake_score(bv1, s1) > snake_score(bv2, s2),
{
    lemma_score_bands(bv1, s1);
    lemma_score_bands(bv2, s2);
}

/// Between two positions, fewer live serpents dominate every other band: the
/// same serpent scores strictly higher on the board with fewer participants.
pub proof fn lemma_score_fewer_opponents(
    bv1: BoardView,
    bv2: BoardView,
    s1: SnakeView,
    s2: SnakeView,
)
    requires
        bv1.dims_ok() && bv1.grounded() && bv1.snakes_ok() && bv1.near_bounds(s1.head),
        bv2.dims_ok() && bv2.grounded() && bv2.snakes_ok() && bv2.near_bounds(s2.head),
        0 <= s1.length,
        bv1.snakes.len() < bv2.snakes.len(),
        bv2.snakes.len() <= 100,
    ensures
        snake_score(bv1, s1) > snake_score(bv2, s2),
{
    lemma_score_bands(bv1, s1);
    lemma_score_bands(bv2, s2);
}

impl Board {
    /// The score vector: one entry per participant slot, indexed by id.
    /// A live serpent's slot holds its packed score; every other slot is 0.
    #[verifier::rlimit(100)]
    pub fn evaluate(&self) -> (r: Vec<u64>)
        requires
            self@.dims_ok(),
            self@.snakes_ok(),
            self@.food_ok(),
            self@.grounded(),
        ensures
            r@.len() == self@.max_snakes,
            r@ == score_vec(self@),
            forall|k: int| 0 <= k < r@.len() && !is_live_id(self@, k) ==> r@[k] == 0,
            forall|i: int|
                0 <= i < self@.snakes.len() ==> r@[(#[trigger] self@.snakes[i]).id as int]
                    == snake_score(self@, self@.snakes[i]),
    {
        let mut result: Vec<u64> = Vec::new();
        let mut z: usize = 0;
        while z < self.max_snakes
            invariant
                result@.len() == z <= self@.max_snakes,
                forall|k: int| 0 <= k < z ==> result@[k] == 0,
            decreases self@.max_snakes - z,
        {
            result.push(0);
            z = z + 1;
        }

        let mut i: usize = 0;
        while i < self.snakes.len()
            invariant
                0 <= i <= self@.snakes.len(),
                self@.dims_ok(),
                self@.snakes_ok(),
                self@.food_ok(),
                self@.grounded(),
                result@.len() == self@.max_snakes,
                forall|t: int|
                    0 <= t < i ==> result@[(#[trigger] self@.snakes[t]).id as int] == snake_score(
                        self@,
                        self@.snakes[t],
                    ),
                forall|k: int|
                    0 <= k < result@.len() && !(exists|t: int|
                        0 <= t < i && (#[trigger] self@.snakes[t]).id == k) ==> result@[k] == 0,
            decreases self@.snakes.len() - i,
        {
            let snake = &self.snakes[i];
            proof {
                assert(snake@ == self@.snakes[i as int]);
                assert(self@.snakes[i as int].wf());
                assert(self@.in_bounds(self@.snakes[i as int].body[0]));
                lemma_score_bands(self@, snake@);
            }
            let mut score: u64 = 0;

            // lowest digit: freely reachable neighbours
            let open_dirs = self.open_directions(snake);
            score = score + open_dirs as u64;

            // next two digits: food proximity
            let closest_food = self.find_closest_food(snake.get_head());
            if let Some(food_pos) = closest_food {
                proof {
                    lemma_closest_idx(self@.food, snake@.head, self@.food.len() as int);
                    lemma_distance_in_range(self@, snake@.head, food_pos);
                }
                let d = snake.get_head().distance_to(food_pos);
                let value = if d > 100 {
                    0
                } else {
                    (100 - d) as u64
                };
                score = score + 10 * value;
            }

            // three digits of capped length
            let len_band = if snake.get_length() >= 999 {
                999u64
            } else {
                snake.get_length() as u64
            };
            score = score + 1_000 * len_band;

            // two digits: proximity of the closest clearly weaker serpent
            let weak_head = self.find_weaker_snake(snake, LENGTH_ADVANTAGE);
            if let Some(head_pos) = weak_head {
                proof {
                    let cands = weak_heads(
                        self@.snakes,
                        snake@,
                        LENGTH_ADVANTAGE as int,
                        self@.snakes.len() as int,
                    );
                    lemma_closest_idx(cands, snake@.head, cands.len() as int);
                    lemma_weak_heads_subset(
                        self@.snakes,
                        snake@,
                        LENGTH_ADVANTAGE as int,
                        self@.snakes.len() as int,
                    );
                    let ci = closest_idx(cands, snake@.head, cands.len() as int);
                    let j = choose|j: int|
                        0 <= j < self@.snakes.len() && self@.snakes[j].head == cands[ci];
                    assert(self@.snakes[j].wf());
                    assert(self@.in_bounds(self@.snakes[j].body[0]));
                    lemma_distance_in_range(self@, snake@.head, head_pos);
                }
                let d = snake.get_head().distance_to(head_pos);
                let value = if d > 100 {
                    0
                } else {
                    (100 - d) as u64
                };
                score = score + 1_000_000 * value;
            }

            // not boxed in
            if open_dirs >= 2 {
                score = score + 100_000_000;
            }

            // highest band: the fewer serpents alive, the better
            let alive = self.snakes.len();
            if alive < 100 {
                score = score + 1_000_000_000 * (100 - alive as u64);
            }

            proof {
                assert(score == snake_score(self@, self@.snakes[i as int]));
            }
            let id = snake.get_id();
            let idx = id as usize;
            result[idx] = score;
            i = i + 1;
        }
        proof {
            assert forall|k: int| 0 <= k < result@.len() implies result@[k] == score_vec(self@)[
            k] by {
                if is_live_id(self@, k) {
                    let wit = choose|i2: int|
                        0 <= i2 < self@.snakes.len() && (#[trigger] self@.snakes[i2]).id == k;
                    assert(result@[self@.snakes[wit].id as int] == snake_score(
                        self@,
                        self@.snakes[wit],
                    ));
                }
            }
            assert(result@ =~= score_vec(self@));
        }
        result
    }
}

} // verus!
