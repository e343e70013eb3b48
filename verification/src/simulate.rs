use vstd::prelude::*;

use crate::area_controlled::{lemma_pow3_bound, lemma_pow3_pos, pow3, pow3_spec};
use crate::battlesnake::SnakeView;
use crate::coordinate::Coordinate;
use crate::board::{Board, BoardView};
use crate::evaluate::{is_live_id, score_vec, snake_score};
use crate::game_step::{feed_food, from_old, step_snakes, survives_alone};
use crate::ruleset::Ruleset;

verus! {

/// The board can be searched `depth` more plies: the live-serpent count is
/// within the enumeration cap, and health, length and turn counters cannot
/// run over their machine bounds within that many ticks.
pub open spec fn search_budget_ok(bv: BoardView, depth: int) -> bool {
    &&& bv.dims_ok()
    &&& bv.snakes_ok()
    &&& bv.food_ok()
    &&& bv.max_snakes >= 1
    &&& bv.snakes.len() <= crate::constants::MAX_LIVE_SNAKES
    &&& 0 <= depth <= 1_000_000
    &&& bv.turn + depth + 1 <= i32::MAX
    &&& forall|i: int| 0 <= i < bv.snakes.len() ==> (#[trigger] bv.snakes[i]).body.len() >= 2
    &&& forall|i: int|
        0 <= i < bv.snakes.len() ==> (#[trigger] bv.snakes[i]).length + depth + 1 < usize::MAX
    &&& forall|i: int|
        0 <= i < bv.snakes.len() ==> (#[trigger] bv.snakes[i]).health - depth - 1 > i32::MIN
}

/// A smaller remaining depth never needs more room than a larger one.
pub proof fn lemma_budget_mono(bv: BoardView, d1: int, d2: int)
    requires
        0 <= d1 <= d2,
        search_budget_ok(bv, d2),
    ensures
        search_budget_ok(bv, d1),
{
    assert forall|i: int| 0 <= i < bv.snakes.len() implies (#[trigger] bv.snakes[i]).length + d1
        + 1 < usize::MAX && bv.snakes[i].health - d1 - 1 > i32::MIN by {
        assert(bv.snakes[i].length + d2 + 1 < usize::MAX);
        assert(bv.snakes[i].health - d2 - 1 > i32::MIN);
    }
}

/// Every segment but the head lies on the grid; the head itself may hang one
/// step off it, as it does right after a move.
pub open spec fn tails_grounded(bv: BoardView) -> bool {
    forall|t: int, k: int|
        0 <= t < bv.snakes.len() && 1 <= k < bv.snakes[t].body.len() ==> bv.in_bounds(
            #[trigger] bv.snakes[t].body[k],
        )
}

/// After a tick, every surviving serpent lies fully on the grid: its head
/// passed the bounds check and the rest of its body was already there.
pub proof fn lemma_stepped_grounded(moved: BoardView, stepped: BoardView, mf: int)
    requires
        forall|t: int| 0 <= t < moved.snakes.len() ==> (#[trigger] moved.snakes[t]).wf(),
        tails_grounded(moved),
        stepped.width == moved.width,
        stepped.height == moved.height,
        forall|i: int|
            0 <= i < stepped.snakes.len() ==> from_old(#[trigger] stepped.snakes[i], moved.snakes),
        forall|i: int|
            0 <= i < stepped.snakes.len() ==> survives_alone(
                #[trigger] stepped.snakes[i],
                moved.width,
                moved.height,
                mf,
            ),
        forall|i: int| 0 <= i < stepped.snakes.len() ==> (#[trigger] stepped.snakes[i]).wf(),
    ensures
        stepped.grounded(),
{
    assert forall|i: int, k: int|
        0 <= i < stepped.snakes.len() && 0 <= k < stepped.snakes[i].body.len() implies
    stepped.in_bounds(#[trigger] stepped.snakes[i].body[k]) by {
        let s = stepped.snakes[i];
        let j = choose|j: int|
            #![trigger moved.snakes[j]]
            0 <= j < moved.snakes.len() && (s == moved.snakes[j] || s == moved.snakes[j].fed());
        let m = moved.snakes[j];
        assert(m.wf());
        if k == 0 {
            assert(s.body[0] == s.head);
        } else {
            if s == m {
                assert(moved.in_bounds(m.body[k]));
            } else {
                if k < m.body.len() {
                    assert(s.body[k] == m.body[k]);
                    assert(moved.in_bounds(m.body[k]));
                } else {
                    assert(s.body[k] == m.body.last());
                    if m.body.len() >= 2 {
                        assert(moved.in_bounds(m.body[m.body.len() - 1]));
                    } else {
                        assert(m.body.last() == m.body[0]);
                        assert(m.body[0] == m.head);
                        assert(s.head == m.head);
                    }
                }
            }
        }
    }
}

/// Move each serpent from `start` on one tile, serpent `j` taking option
/// `(i / 3^(j-start)) mod 3` of the joint profile `i`.
fn apply_profile(board: &mut Board, i: usize, start: usize)
    requires
        old(board)@.dims_ok(),
        old(board)@.snakes_ok(),
        start <= old(board)@.snakes.len() <= 12,
        forall|t: int|
            0 <= t < old(board)@.snakes.len() ==> (#[trigger] old(board)@.snakes[t]).body.len()
                >= 2,
        forall|t: int|
            0 <= t < old(board)@.snakes.len() ==> (#[trigger] old(board)@.snakes[t]).health
                > i32::MIN,
        forall|t: int|
            start <= t < old(board)@.snakes.len() ==> old(board)@.in_bounds(
                (#[trigger] old(board)@.snakes[t]).head,
            ),
    ensures
        final(board)@.width == old(board)@.width,
        final(board)@.height == old(board)@.height,
        final(board)@.food == old(board)@.food,
        final(board)@.hazards == old(board)@.hazards,
        final(board)@.max_snakes == old(board)@.max_snakes,
        final(board)@.turn == old(board)@.turn,
        final(board)@.snakes.len() == old(board)@.snakes.len(),
        forall|t: int|
            0 <= t < start ==> #[trigger] final(board)@.snakes[t] == old(board)@.snakes[t],
        forall|t: int|
            start <= t < old(board)@.snakes.len() ==> #[trigger] final(board)@.snakes[t] == old(
                board,
            )@.snakes[t].moved_to(
                old(board)@.snakes[t].option_spec(
                    (((i as int) / pow3_spec(t - start)) % 3) as usize,
                ),
            ),
{
    let ghost bv0 = old(board)@;
    let num_snakes = board.snakes.len();
    let mut j: usize = start;
    while j < num_snakes
        invariant
            start <= j <= num_snakes,
            bv0 == old(board)@,
            bv0.dims_ok(),
            bv0.snakes_ok(),
            num_snakes == bv0.snakes.len() <= 12,
            forall|t: int| 0 <= t < num_snakes ==> (#[trigger] bv0.snakes[t]).body.len() >= 2,
            forall|t: int| 0 <= t < num_snakes ==> (#[trigger] bv0.snakes[t]).health > i32::MIN,
            forall|t: int|
                start <= t < num_snakes ==> bv0.in_bounds((#[trigger] bv0.snakes[t]).head),
            board@.width == bv0.width,
            board@.height == bv0.height,
            board@.food == bv0.food,
            board@.hazards == bv0.hazards,
            board@.max_snakes == bv0.max_snakes,
            board@.turn == bv0.turn,
            board@.snakes.len() == bv0.snakes.len(),
            forall|t: int| j <= t < num_snakes ==> #[trigger] board@.snakes[t] == bv0.snakes[t],
            forall|t: int| 0 <= t < start ==> #[trigger] board@.snakes[t] == bv0.snakes[t],
            forall|t: int|
                start <= t < j ==> #[trigger] board@.snakes[t] == bv0.snakes[t].moved_to(
                    bv0.snakes[t].option_spec((((i as int) / pow3_spec(t - start)) % 3) as usize),
                ),
        decreases num_snakes - j,
    {
        proof {
            assert(board@.snakes[j as int] == bv0.snakes[j as int]);
            assert(bv0.snakes[j as int].wf());
            assert(bv0.in_bounds(bv0.snakes[j as int].head));
            assert(bv0.width <= 1_000_000_000 && bv0.height <= 1_000_000_000)
                by (nonlinear_arith)
                requires
                    1 <= bv0.width,
                    1 <= bv0.height,
                    bv0.width * bv0.height <= 1_000_000_000,
            ;
        }
        let p = pow3(j - start);
        let opt_index = (i / p) % 3;
        let pos = board.snakes[j].get_option(opt_index);
        let ghost pre_snakes = board@.snakes;
        board.snakes[j].move_to(pos);
        proof {
            let jj = j as int;
            let opt = (((i as int) / pow3_spec(jj - start)) % 3) as usize;
            assert(opt_index == opt);
            assert(board@.snakes =~= pre_snakes.update(jj, pre_snakes[jj].moved_to(pos)));
            assert(pos == bv0.snakes[jj].option_spec(opt));
        }
        j = j + 1;
    }
}

/// Powers of three grow with the exponent.
proof fn lemma_pow3_mono(m: int, n: int)
    requires
        0 <= m <= n,
    ensures
        pow3_spec(m) <= pow3_spec(n),
    decreases n - m,
{
    if m < n {
        lemma_pow3_mono(m, n - 1);
        assert(pow3_spec(n) == 3 * pow3_spec(n - 1));
        assert(pow3_spec(n - 1) >= 1) by {
            lemma_pow3_pos(n - 1);
        }
    }
}

impl Board {
    /// The first ply after the agent's own move is forced: the agent stands
    /// still moved, the opponents take every joint profile of their three
    /// options, and the maximin selection runs over the opponents alone.
    #[verifier::rlimit(100)]
    fn recursion_entry(self, ruleset: &Ruleset, current_level: i32, max_level: i32) -> (r: Vec<
        u64,
    >)
        requires
            current_level < max_level,
            search_budget_ok(self@, max_level - current_level),
            tails_grounded(self@),
            forall|t: int|
                1 <= t < self@.snakes.len() ==> self@.in_bounds(
                    (#[trigger] self@.snakes[t]).head,
                ),
        ensures
            r@ == entry_spec(self@, ruleset@.minimum_food, current_level as int, max_level as int),
            r@.len() == self@.max_snakes,
            forall|k: int| 0 <= k < r@.len() && !is_live_id(self@, k) ==> r@[k] == 0,
        decreases max_level - current_level,
    {
        let ghost mf = ruleset@.minimum_food;
        let ghost cur = current_level as int;
        let ghost maxl = max_level as int;
        if self.snakes.len() == 0 {
            proof {
                assert(self@.grounded());
            }
            return self.evaluate();
        }

        let num_snakes = self.snakes.len();
        let iterations = pow3(num_snakes - 1);

        let mut worst: Vec<i32> = Vec::new();
        let mut z: usize = 0;
        while z < 3 * (num_snakes - 1)
            invariant
                num_snakes <= 12,
                1 <= num_snakes,
                worst@.len() == z <= 3 * (num_snakes - 1),
                forall|m: int| 0 <= m < z ==> worst@[m] == -1,
            decreases 3 * (num_snakes - 1) - z,
        {
            worst.push(-1);
            z = z + 1;
        }

        let mut result_boards: Vec<Vec<u64>> = Vec::new();

        proof {
            assert forall|j: int, d: int| 0 <= j && 0 <= d implies #[trigger] (d * pow3_spec(j))
                >= 0 by {
                lemma_pow3_pos(j);
                assert(d * pow3_spec(j) >= 0) by (nonlinear_arith)
                    requires
                        d >= 0,
                        pow3_spec(j) >= 1,
                ;
            }
        }
        let mut i: usize = 0;
        while i < iterations
            invariant
                0 <= i <= iterations,
                iterations == pow3_spec(num_snakes as int - 1),
                iterations <= 531441,
                forall|j: int, d: int| 0 <= j && 0 <= d ==> #[trigger] (d * pow3_spec(j)) >= 0,
                num_snakes == self@.snakes.len(),
                1 <= num_snakes <= 12,
                current_level < max_level,
                mf == ruleset@.minimum_food,
                cur == current_level as int,
                maxl == max_level as int,
                search_budget_ok(self@, max_level - current_level),
                tails_grounded(self@),
                forall|t: int|
                    1 <= t < self@.snakes.len() ==> self@.in_bounds(
                        (#[trigger] self@.snakes[t]).head,
                    ),
                result_boards@.len() == i,
                forall|p: int|
                    0 <= p < i ==> (#[trigger] result_boards@[p])@.len() == self@.max_snakes,
                forall|p: int|
                    0 <= p < i ==> (#[trigger] result_boards@[p])@ == entry_profile_result(
                        self@,
                        mf,
                        cur,
                        maxl,
                        p,
                    ),
                forall|p: int, k: int|
                    #![trigger result_boards@[p]@[k]]
                    0 <= p < i && 0 <= k < self@.max_snakes && !is_live_id(self@, k)
                        ==> result_boards@[p]@[k] == 0,
                worst@.len() == 3 * (num_snakes - 1),
                forall|m: int| 0 <= m < worst@.len() ==> -1 <= #[trigger] worst@[m] < i,
                forall|j: int, d: int|
                    0 <= j < num_snakes - 1 && 0 <= d < 3 && i > d * pow3_spec(j)
                        ==> #[trigger] worst@[j * 3 + d] != -1,
                forall|j: int, d: int|
                    #![trigger worst@[j * 3 + d]]
                    0 <= j < num_snakes - 1 && 0 <= d < 3 ==> worst@[j * 3 + d] as int
                        == entry_worst_profile(self@, mf, cur, maxl, j, d, i as int),
            decreases iterations - i,
        {
            let mut new_board = self.clone();
            apply_profile(&mut new_board, i, 1);
            proof {
                assert forall|t: int| 0 <= t < new_board@.snakes.len() implies (
                #[trigger] new_board@.snakes[t]).wf() && new_board@.snakes[t].id
                    < new_board@.max_snakes && new_board@.snakes[t].length < usize::MAX by {
                    assert(self@.snakes[t].wf());
                }
                assert(new_board@.snakes_ok());
                assert(tails_grounded(new_board@)) by {
                    assert forall|t: int, k: int|
                        0 <= t < new_board@.snakes.len() && 1 <= k
                            < new_board@.snakes[t].body.len() implies new_board@.in_bounds(
                        #[trigger] new_board@.snakes[t].body[k],
                    ) by {
                        if t == 0 {
                            assert(new_board@.snakes[0] == self@.snakes[0]);
                            assert(self@.in_bounds(self@.snakes[0].body[k]));
                        } else {
                            assert(new_board@.snakes[t].body[k] == self@.snakes[t].body[k - 1]);
                            assert(self@.in_bounds(self@.snakes[t].body[k - 1]));
                        }
                    }
                }
            }
            let ghost moved = new_board@;
            new_board.game_step(ruleset);
            proof {
                lemma_stepped_grounded(moved, new_board@, ruleset@.minimum_food);
                assert(search_budget_ok(new_board@, max_level - (current_level + 1))) by {
                    assert forall|t: int| 0 <= t < new_board@.snakes.len() implies (
                    #[trigger] new_board@.snakes[t]).body.len() >= 2 && new_board@.snakes[t].length
                        + (max_level - current_level - 1) + 1 < usize::MAX
                        && new_board@.snakes[t].health - (max_level - current_level - 1) - 1
                        > i32::MIN by {
                        assert(from_old(new_board@.snakes[t], moved.snakes));
                        let j2 = choose|j2: int|
                            #![trigger moved.snakes[j2]]
                            0 <= j2 < moved.snakes.len() && (new_board@.snakes[t]
                                == moved.snakes[j2] || new_board@.snakes[t] == moved.snakes[
                            j2].fed());
                        assert(moved.snakes[j2].length == self@.snakes[j2].length
                            && moved.snakes[j2].body.len() == self@.snakes[j2].body.len() && (
                        moved.snakes[j2].health == self@.snakes[j2].health - 1 || moved.snakes[j2]
                            == self@.snakes[j2]));
                        assert(self@.snakes[j2].body.len() >= 2);
                        assert(self@.snakes[j2].length + (max_level - current_level) + 1
                            < usize::MAX);
                        assert(self@.snakes[j2].health - (max_level - current_level) - 1
                            > i32::MIN);
                    }
                }
            }
            let result = new_board.minimax(ruleset, current_level + 1, max_level);
            proof {
                // The stepped clone is exactly the spec-level successor of
                // opponent profile `i`.
                let ghost succ_moved = (BoardView {
                    snakes: Seq::new(
                        self@.snakes.len(),
                        |j: int|
                            if j == 0 {
                                self@.snakes[0]
                            } else {
                                self@.snakes[j].moved_to(
                                    self@.snakes[j].option_spec(
                                        (((i as int) / pow3_spec(j - 1)) % 3) as usize,
                                    ),
                                )
                            },
                    ),
                    ..self@
                });
                assert(moved =~= succ_moved);
                assert(new_board@ =~= entry_successor(self@, i as int, mf));
                assert(result@ == entry_profile_result(self@, mf, cur, maxl, i as int));
                assert(result@.len() == self@.max_snakes);
                assert forall|k: int|
                    0 <= k < self@.max_snakes && !is_live_id(self@, k) implies result@[k] == 0 by {
                    if is_live_id(new_board@, k) {
                        let t = choose|t: int|
                            0 <= t < new_board@.snakes.len() && (#[trigger] new_board@.snakes[
                            t]).id == k;
                        assert(from_old(new_board@.snakes[t], moved.snakes));
                        let j2 = choose|j2: int|
                            #![trigger moved.snakes[j2]]
                            0 <= j2 < moved.snakes.len() && (new_board@.snakes[t]
                                == moved.snakes[j2] || new_board@.snakes[t] == moved.snakes[
                            j2].fed());
                        assert(self@.snakes[j2].id == k);
                    }
                }
            }

            let mut j: usize = 0;
            while j < num_snakes - 1
                invariant
                    0 <= j <= num_snakes - 1,
                    num_snakes == self@.snakes.len() <= 12,
                    1 <= num_snakes,
                    self@.snakes_ok(),
                    i < iterations,
                    iterations == pow3_spec(num_snakes as int - 1),
                    iterations <= 531441,
                    mf == ruleset@.minimum_food,
                    cur == current_level as int,
                    maxl == max_level as int,
                    cur < maxl,
                    result_boards@.len() == i,
                    result@.len() == self@.max_snakes,
                    result@ == entry_profile_result(self@, mf, cur, maxl, i as int),
                    forall|m: int| 3 * j <= m < worst@.len() ==> #[trigger] worst@[m] < i,
                    forall|p: int|
                        0 <= p < i ==> (#[trigger] result_boards@[p])@.len() == self@.max_snakes,
                    forall|p: int|
                        0 <= p < i ==> (#[trigger] result_boards@[p])@ == entry_profile_result(
                            self@,
                            mf,
                            cur,
                            maxl,
                            p,
                        ),
                    worst@.len() == 3 * (num_snakes - 1),
                    forall|m: int| 0 <= m < worst@.len() ==> -1 <= #[trigger] worst@[m] <= i,
                    forall|j2: int, d: int|
                        0 <= j2 < num_snakes - 1 && 0 <= d < 3 && i > d * pow3_spec(j2)
                            ==> #[trigger] worst@[j2 * 3 + d] != -1,
                    forall|j2: int|
                        0 <= j2 < j ==> #[trigger] worst@[j2 * 3 + ((i as int / pow3_spec(j2))
                            % 3)] != -1,
                    forall|j2: int, d: int|
                        #![trigger worst@[j2 * 3 + d]]
                        0 <= j2 < num_snakes - 1 && 0 <= d < 3 ==> worst@[j2 * 3 + d] as int
                            == entry_worst_profile(
                            self@,
                            mf,
                            cur,
                            maxl,
                            j2,
                            d,
                            if j2 < j {
                                i + 1
                            } else {
                                i as int
                            },
                        ),
                decreases num_snakes - 1 - j,
            {
                let p = pow3(j);
                let d = (i / p) % 3;
                let idx = j * 3 + d;
                let id = self.snakes[j + 1].get_id() as usize;
                proof {
                    assert(self@.snakes[j as int + 1].id < self@.max_snakes);
                }
                let ghost worst_pre = worst@;
                let cur_worst = worst[idx];
                if cur_worst == -1 {
                    worst[idx] = i as i32;
                } else {
                    let cw = cur_worst as usize;
                    if result[id] < result_boards[cw][id] {
                        worst[idx] = i as i32;
                    }
                }
                proof {
                    let jj = j as int;
                    assert forall|j2: int, d2: int|
                        #![trigger worst@[j2 * 3 + d2]]
                        0 <= j2 < num_snakes - 1 && 0 <= d2 < 3 implies worst@[j2 * 3
                        + d2] as int == entry_worst_profile(
                        self@,
                        mf,
                        cur,
                        maxl,
                        j2,
                        d2,
                        if j2 < jj + 1 {
                            i + 1
                        } else {
                            i as int
                        },
                    ) by {
                        if j2 == jj {
                            assert(worst_pre[jj * 3 + d2] as int == entry_worst_profile(
                                self@,
                                mf,
                                cur,
                                maxl,
                                jj,
                                d2,
                                i as int,
                            ));
                            if d2 == d {
                                assert(((i as int) / pow3_spec(jj)) % 3 == d2);
                            } else {
                                assert(((i as int) / pow3_spec(jj)) % 3 != d2);
                                assert(worst@[j2 * 3 + d2] == worst_pre[j2 * 3 + d2]);
                            }
                        } else {
                            assert(worst@[j2 * 3 + d2] == worst_pre[j2 * 3 + d2]);
                        }
                    }
                }
                j = j + 1;
            }
            result_boards.push(result);
            proof {
                assert forall|j2: int, d: int|
                    0 <= j2 < num_snakes - 1 && 0 <= d < 3 && i + 1 > d * pow3_spec(j2) implies
                #[trigger] worst@[j2 * 3 + d] != -1 by {
                    if i > d * pow3_spec(j2) {
                    } else {
                        lemma_pow3_pos(j2);
                        assert(i as int == d * pow3_spec(j2));
                        assert((i as int / pow3_spec(j2)) % 3 == d) by (nonlinear_arith)
                            requires
                                i as int == d * pow3_spec(j2),
                                pow3_spec(j2) >= 1,
                                0 <= d < 3,
                        ;
                    }
                }
            }
            i = i + 1;
        }

        let mut return_board: usize = 0;
        let mut j: usize = 0;
        while j < num_snakes - 1
            invariant
                0 <= j <= num_snakes - 1,
                num_snakes == self@.snakes.len() <= 12,
                1 <= num_snakes,
                self@.snakes_ok(),
                iterations == pow3_spec(num_snakes as int - 1),
                result_boards@.len() == iterations,
                worst@.len() == 3 * (num_snakes - 1),
                forall|m: int| 0 <= m < worst@.len() ==> -1 <= #[trigger] worst@[m] < iterations,
                forall|j2: int, d: int|
                    0 <= j2 < num_snakes - 1 && 0 <= d < 3 && iterations > d * pow3_spec(j2)
                        ==> #[trigger] worst@[j2 * 3 + d] != -1,
                forall|p: int|
                    0 <= p < iterations ==> (#[trigger] result_boards@[p])@.len()
                        == self@.max_snakes,
                forall|p: int|
                    0 <= p < iterations ==> (#[trigger] result_boards@[p])@
                        == entry_profile_result(self@, mf, cur, maxl, p),
                forall|j2: int, d: int|
                    #![trigger worst@[j2 * 3 + d]]
                    0 <= j2 < num_snakes - 1 && 0 <= d < 3 ==> worst@[j2 * 3 + d] as int
                        == entry_worst_profile(self@, mf, cur, maxl, j2, d, iterations as int),
                mf == ruleset@.minimum_food,
                cur == current_level as int,
                maxl == max_level as int,
                cur < maxl,
                return_board < pow3_spec(j as int),
                return_board as int == entry_chosen_profile(self@, mf, cur, maxl, j as int),
            decreases num_snakes - 1 - j,
        {
            proof {
                lemma_pow3_mono(j as int + 1, num_snakes as int - 1);
                lemma_pow3_bound(j as int);
                lemma_pow3_bound(j as int + 1);
                assert forall|d: int| 0 <= d < 3 implies iterations > #[trigger] (d * pow3_spec(
                    j as int,
                )) by {
                    assert(d * pow3_spec(j as int) <= 2 * pow3_spec(j as int))
                        by (nonlinear_arith)
                        requires
                            0 <= d < 3,
                            pow3_spec(j as int) >= 1,
                    ;
                    assert(3 * pow3_spec(j as int) == pow3_spec(j as int + 1));
                }
                assert(self@.snakes[j as int + 1].id < self@.max_snakes);
            }
            let p = pow3(j);
            let id = self.snakes[j + 1].get_id() as usize;
            let mut best_direction: usize = 0;
            let mut d: usize = 1;
            while d < 3
                invariant
                    1 <= d <= 3,
                    best_direction < 3,
                    0 <= j < num_snakes - 1,
                    num_snakes == self@.snakes.len() <= 12,
                    iterations == pow3_spec(num_snakes as int - 1),
                    result_boards@.len() == iterations,
                    worst@.len() == 3 * (num_snakes - 1),
                    forall|m: int|
                        0 <= m < worst@.len() ==> -1 <= #[trigger] worst@[m] < iterations,
                    forall|d2: int|
                        0 <= d2 < 3 ==> #[trigger] worst@[j as int * 3 + d2] != -1,
                    forall|pp: int|
                        0 <= pp < iterations ==> (#[trigger] result_boards@[pp])@.len()
                            == self@.max_snakes,
                    forall|pp: int|
                        0 <= pp < iterations ==> (#[trigger] result_boards@[pp])@
                            == entry_profile_result(self@, mf, cur, maxl, pp),
                    forall|j2: int, d2: int|
                        #![trigger worst@[j2 * 3 + d2]]
                        0 <= j2 < num_snakes - 1 && 0 <= d2 < 3 ==> worst@[j2 * 3 + d2] as int
                            == entry_worst_profile(self@, mf, cur, maxl, j2, d2, iterations as int),
                    mf == ruleset@.minimum_food,
                    cur == current_level as int,
                    maxl == max_level as int,
                    cur < maxl,
                    id as int == self@.snakes[j as int + 1].id as int,
                    best_direction as int == entry_best_option(
                        self@,
                        mf,
                        cur,
                        maxl,
                        j as int,
                        d as int,
                    ),
                    id < self@.max_snakes,
                decreases 3 - d,
            {
                let wd = worst[j * 3 + d] as usize;
                let wb = worst[j * 3 + best_direction] as usize;
                proof {
                    assert(wd as int == entry_worst_profile(
                        self@,
                        mf,
                        cur,
                        maxl,
                        j as int,
                        d as int,
                        iterations as int,
                    ));
                    assert(wb as int == entry_worst_profile(
                        self@,
                        mf,
                        cur,
                        maxl,
                        j as int,
                        best_direction as int,
                        iterations as int,
                    ));
                    assert(entry_option_value(self@, mf, cur, maxl, j as int, d as int)
                        == entry_profile_result(self@, mf, cur, maxl, wd as int)[id as int]);
                    assert(entry_option_value(self@, mf, cur, maxl, j as int, best_direction as int)
                        == entry_profile_result(self@, mf, cur, maxl, wb as int)[id as int]);
                }
                if result_boards[wd][id] > result_boards[wb][id] {
                    best_direction = d;
                }
                d = d + 1;
            }
            proof {
                assert(return_board + best_direction * pow3_spec(j as int) < pow3_spec(
                    j as int + 1,
                )) by (nonlinear_arith)
                    requires
                        return_board < pow3_spec(j as int),
                        best_direction < 3,
                        pow3_spec(j as int + 1) == 3 * pow3_spec(j as int),
                        pow3_spec(j as int) >= 1,
                ;
                lemma_pow3_mono(j as int + 1, num_snakes as int - 1);
                lemma_pow3_bound(j as int);
            }
            return_board = return_board + best_direction * p;
            proof {
                assert(best_direction as int == entry_best_option(
                    self@,
                    mf,
                    cur,
                    maxl,
                    j as int,
                    3,
                ));
                assert(return_board as int == entry_chosen_profile(self@, mf, cur, maxl, j + 1));
            }
            j = j + 1;
        }

        proof {
            lemma_pow3_mono(j as int, num_snakes as int - 1);
            assert(return_board as int == entry_chosen_profile(
                self@,
                mf,
                cur,
                maxl,
                num_snakes as int - 1,
            ));
        }
        let chosen = result_boards.swap_remove(return_board);
        proof {
            assert(chosen@ == entry_profile_result(self@, mf, cur, maxl, return_board as int));
            assert(chosen@ == entry_spec(self@, mf, cur, maxl));
        }
        chosen
    }

    /// Force the agent one tile down, then search the remaining plies.
    pub fn check_down(self, ruleset: &Ruleset, current_level: i32, max_level: i32) -> (r: Vec<u64>)
        requires
            current_level < max_level,
            search_budget_ok(self@, max_level - current_level + 1),
            self@.grounded(),
            self@.snakes.len() >= 1,
        ensures
            r@ == root_probe(
                self@,
                self@.snakes[0].head.down_spec(),
                ruleset@.minimum_food,
                current_level as int,
                max_level as int,
            ),
            r@.len() == self@.max_snakes,
            forall|k: int| 0 <= k < r@.len() && !is_live_id(self@, k) ==> r@[k] == 0,
    {
        let mut board = self;
        proof {
            root_move_safety(board@);
        }
        let target = board.snakes[0].get_down();
        board.forced_root_move(target, ruleset, current_level, max_level)
    }

    /// Force the agent one tile up, then search the remaining plies.
    pub fn check_up(self, ruleset: &Ruleset, current_level: i32, max_level: i32) -> (r: Vec<u64>)
        requires
            current_level < max_level,
            search_budget_ok(self@, max_level - current_level + 1),
            self@.grounded(),
            self@.snakes.len() >= 1,
        ensures
            r@ == root_probe(
                self@,
                self@.snakes[0].head.up_spec(),
                ruleset@.minimum_food,
                current_level as int,
                max_level as int,
            ),
            r@.len() == self@.max_snakes,
            forall|k: int| 0 <= k < r@.len() && !is_live_id(self@, k) ==> r@[k] == 0,
    {
        let mut board = self;
        proof {
            root_move_safety(board@);
        }
        let target = board.snakes[0].get_up();
        board.forced_root_move(target, ruleset, current_level, max_level)
    }

    /// Force the agent one tile right, then search the remaining plies.
    pub fn check_right(self, ruleset: &Ruleset, current_level: i32, max_level: i32) -> (r: Vec<
        u64,
    >)
        requires
            current_level < max_level,
            search_budget_ok(self@, max_level - current_level + 1),
            self@.grounded(),
            self@.snakes.len() >= 1,
        ensures
            r@ == root_probe(
                self@,
                self@.snakes[0].head.right_spec(),
                ruleset@.minimum_food,
                current_level as int,
                max_level as int,
            ),
            r@.len() == self@.max_snakes,
            forall|k: int| 0 <= k < r@.len() && !is_live_id(self@, k) ==> r@[k] == 0,
    {
        let mut board = self;
        proof {
            root_move_safety(board@);
        }
        let target = board.snakes[0].get_right();
        board.forced_root_move(target, ruleset, current_level, max_level)
    }

    /// Force the agent one tile left, then search the remaining plies.
    pub fn check_left(self, ruleset: &Ruleset, current_level: i32, max_level: i32) -> (r: Vec<u64>)
        requires
            current_level < max_level,
            search_budget_ok(self@, max_level - current_level + 1),
            self@.grounded(),
            self@.snakes.len() >= 1,
        ensures
            r@ == root_probe(
                self@,
                self@.snakes[0].head.left_spec(),
                ruleset@.minimum_food,
                current_level as int,
                max_level as int,
            ),
            r@.len() == self@.max_snakes,
            forall|k: int| 0 <= k < r@.len() && !is_live_id(self@, k) ==> r@[k] == 0,
    {
        let mut board = self;
        proof {
            root_move_safety(board@);
        }
        let target = board.snakes[0].get_left();
        board.forced_root_move(target, ruleset, current_level, max_level)
    }

    /// Move the agent onto `target` and run the constrained first ply.
    fn forced_root_move(
        self,
        target: crate::coordinate::Coordinate,
        ruleset: &Ruleset,
        current_level: i32,
        max_level: i32,
    ) -> (r: Vec<u64>)
        requires
            current_level < max_level,
            search_budget_ok(self@, max_level - current_level + 1),
            self@.grounded(),
            self@.snakes.len() >= 1,
        ensures
            r@ == root_probe(
                self@,
                target,
                ruleset@.minimum_food,
                current_level as int,
                max_level as int,
            ),
            r@.len() == self@.max_snakes,
            forall|k: int| 0 <= k < r@.len() && !is_live_id(self@, k) ==> r@[k] == 0,
    {
        let ghost bv0 = self@;
        let ghost pre_snakes = self@.snakes;
        let mut board = self;
        proof {
            assert(bv0.snakes[0].wf());
            assert(bv0.snakes[0].health - (max_level - current_level + 1) - 1 > i32::MIN);
        }
        board.snakes[0].move_to(target);
        proof {
            assert(board@.snakes =~= pre_snakes.update(0, pre_snakes[0].moved_to(target)));
            assert forall|t: int| 0 <= t < board@.snakes.len() implies (
            #[trigger] board@.snakes[t]).wf() && board@.snakes[t].id < board@.max_snakes
                && board@.snakes[t].id == bv0.snakes[t].id by {
                assert(bv0.snakes[t].wf());
            }
            assert(board@.snakes_ok()) by {
                assert forall|t: int, u: int|
                    0 <= t < board@.snakes.len() && 0 <= u < board@.snakes.len() && t
                        != u implies #[trigger] board@.snakes[t].id != #[trigger] board@.snakes[
                u].id by {
                    assert(bv0.snakes[t].id != bv0.snakes[u].id);
                }
            }
            assert(board@.dims_ok());
            assert(board@.food_ok()) by {
                assert(board@.food == bv0.food);
                assert forall|i2: int| 0 <= i2 < board@.food.len() implies board@.in_bounds(
                    #[trigger] board@.food[i2],
                ) by {
                    assert(board@.food[i2] == bv0.food[i2]);
                    assert(bv0.in_bounds(bv0.food[i2]));
                }
                assert forall|a: int, b: int|
                    0 <= a < board@.food.len() && 0 <= b < board@.food.len() && a
                        != b implies #[trigger] board@.food[a] != #[trigger] board@.food[b] by {
                    assert(bv0.food[a] != bv0.food[b]);
                }
            }
            assert(board@.max_snakes >= 1);
            assert(board@.snakes.len() <= 12);
            assert(0 <= max_level - current_level <= 1_000_000);
            assert(board@.turn + (max_level - current_level) + 1 <= i32::MAX);
            assert(search_budget_ok(board@, max_level - current_level)) by {
                assert forall|t: int| 0 <= t < board@.snakes.len() implies (
                #[trigger] board@.snakes[t]).body.len() >= 2 && board@.snakes[t].length
                    + (max_level - current_level) + 1 < usize::MAX && board@.snakes[t].health
                    - (max_level - current_level) - 1 > i32::MIN by {
                    assert(bv0.snakes[t].body.len() >= 2);
                    assert(bv0.snakes[t].length + (max_level - current_level + 1) + 1
                        < usize::MAX);
                    assert(bv0.snakes[t].health - (max_level - current_level + 1) - 1 > i32::MIN);
                }
            }
            assert(tails_grounded(board@)) by {
                assert forall|t: int, k: int|
                    0 <= t < board@.snakes.len() && 1 <= k
                        < board@.snakes[t].body.len() implies board@.in_bounds(
                    #[trigger] board@.snakes[t].body[k],
                ) by {
                    if t == 0 {
                        assert(board@.snakes[0].body[k] == bv0.snakes[0].body[k - 1]);
                        assert(bv0.in_bounds(bv0.snakes[0].body[k - 1]));
                    } else {
                        assert(bv0.in_bounds(bv0.snakes[t].body[k]));
                    }
                }
            }
            assert forall|t: int| 1 <= t < board@.snakes.len() implies board@.in_bounds(
                (#[trigger] board@.snakes[t]).head,
            ) by {
                assert(bv0.snakes[t].wf());
                assert(bv0.in_bounds(bv0.snakes[t].body[0]));
            }
        }
        let ghost moved = board@;
        proof {
            assert(moved =~= (BoardView {
                snakes: bv0.snakes.update(0, bv0.snakes[0].moved_to(target)),
                ..bv0
            }));
        }
        let r = board.recursion_entry(ruleset, current_level, max_level);
        proof {
            assert(r@ == root_probe(bv0, target, ruleset@.minimum_food, current_level as int,
                max_level as int));
            assert forall|k: int|
                0 <= k < r@.len() && !is_live_id(bv0, k) implies r@[k] == 0 by {
                if is_live_id(moved, k) {
                    let t = choose|t: int|
                        0 <= t < moved.snakes.len() && (#[trigger] moved.snakes[t]).id == k;
                    assert(bv0.snakes[t].id == k);
                }
            }
        }
        r
    }
}


/// The board one tick after joint profile `p`: serpent `j` takes its option
/// `(p / 3^j) mod 3`, then the tick resolves.
pub open spec fn successor(bv: BoardView, p: int, mf: int) -> BoardView {
    let moved = BoardView {
        snakes: Seq::new(
            bv.snakes.len(),
            |j: int| bv.snakes[j].moved_to(
                bv.snakes[j].option_spec(((p / pow3_spec(j)) % 3) as usize),
            ),
        ),
        ..bv
    };
    BoardView {
        snakes: step_snakes(moved, mf),
        food: feed_food(moved.food, moved.snakes, 0),
        turn: moved.turn + 1,
        ..moved
    }
}

/// The score vector the search assigns to joint profile `p`.
pub open spec fn profile_result(bv: BoardView, mf: int, cur: int, max: int, p: int) -> Seq<u64>
    decreases max - cur, 0int, 0int, 0int,
{
    if cur >= max {
        Seq::empty()
    } else {
        minimax_spec(successor(bv, p, mf), mf, cur + 1, max)
    }
}

/// Among the first `upto` profiles in which serpent `j` plays option `d`,
/// the first one in which `j`'s own slot comes off worst; -1 when none has
/// been seen.
pub open spec fn worst_profile(
    bv: BoardView,
    mf: int,
    cur: int,
    max: int,
    j: int,
    d: int,
    upto: int,
) -> int
    decreases max - cur, 1int, upto, 0int,
{
    if upto <= 0 || cur >= max {
        -1
    } else {
        let w = worst_profile(bv, mf, cur, max, j, d, upto - 1);
        let p = upto - 1;
        if (p / pow3_spec(j)) % 3 == d {
            if w == -1 {
                p
            } else {
                let id = bv.snakes[j].id as int;
                if profile_result(bv, mf, cur, max, p)[id] < profile_result(bv, mf, cur, max, w)[
                    id] {
                    p
                } else {
                    w
                }
            }
        } else {
            w
        }
    }
}

/// Serpent `j`'s worst attainable score when it plays option `d`.
pub open spec fn option_value(bv: BoardView, mf: int, cur: int, max: int, j: int, d: int) -> u64
    decreases max - cur, 2int, 0int, 0int,
{
    let n = bv.snakes.len() as int;
    profile_result(bv, mf, cur, max, worst_profile(bv, mf, cur, max, j, d, pow3_spec(n)))[
        bv.snakes[j].id as int]
}

/// The best of serpent `j`'s first `k` options by worst case, the earliest
/// winning ties.
pub open spec fn best_option(bv: BoardView, mf: int, cur: int, max: int, j: int, k: int) -> int
    decreases max - cur, 3int, k, 0int,
{
    if k <= 1 || cur >= max {
        0
    } else {
        let b = best_option(bv, mf, cur, max, j, k - 1);
        if option_value(bv, mf, cur, max, j, k - 1) > option_value(bv, mf, cur, max, j, b) {
            k - 1
        } else {
            b
        }
    }
}

/// The joint profile assembled from the first `j` serpents' chosen options.
pub open spec fn chosen_profile(bv: BoardView, mf: int, cur: int, max: int, j: int) -> int
    decreases max - cur, 4int, j, 0int,
{
    if j <= 0 || cur >= max {
        0
    } else {
        chosen_profile(bv, mf, cur, max, j - 1) + best_option(bv, mf, cur, max, j - 1, 3)
            * pow3_spec(j - 1)
    }
}

/// The maximin search value of a position: at the depth limit or with nobody
/// left, the board's own score vector; otherwise the score vector of the
/// successor in which every serpent plays the option whose worst case over
/// all joint profiles is best for itself.
pub open spec fn minimax_spec(bv: BoardView, mf: int, cur: int, max: int) -> Seq<u64>
    decreases max - cur, 5int, 0int, 0int,
{
    if cur >= max || bv.snakes.len() == 0 {
        score_vec(bv)
    } else {
        profile_result(
            bv,
            mf,
            cur,
            max,
            chosen_profile(bv, mf, cur, max, bv.snakes.len() as int),
        )
    }
}


/// The board one tick after the constrained first ply: the agent's serpent
/// stands where it was forced, the opponents (serpents 1 on) take profile
/// `p`, then the tick resolves.
pub open spec fn entry_successor(bv: BoardView, p: int, mf: int) -> BoardView {
    let moved = BoardView {
        snakes: Seq::new(
            bv.snakes.len(),
            |j: int|
                if j == 0 {
                    bv.snakes[0]
                } else {
                    bv.snakes[j].moved_to(
                        bv.snakes[j].option_spec(((p / pow3_spec(j - 1)) % 3) as usize),
                    )
                },
        ),
        ..bv
    };
    BoardView {
        snakes: step_snakes(moved, mf),
        food: feed_food(moved.food, moved.snakes, 0),
        turn: moved.turn + 1,
        ..moved
    }
}

/// The score vector the constrained first ply assigns to opponent profile
/// `p`.
pub open spec fn entry_profile_result(bv: BoardView, mf: int, cur: int, max: int, p: int) -> Seq<
    u64,
>
    decreases max - cur, 0int, 0int, 0int,
{
    if cur >= max {
        Seq::empty()
    } else {
        minimax_spec(entry_successor(bv, p, mf), mf, cur + 1, max)
    }
}

/// Among the first `upto` opponent profiles in which opponent `j` (serpent
/// `j + 1`) plays option `d`, the first in which its own slot comes off
/// worst; -1 when none has been seen.
pub open spec fn entry_worst_profile(
    bv: BoardView,
    mf: int,
    cur: int,
    max: int,
    j: int,
    d: int,
    upto: int,
) -> int
    decreases max - cur, 1int, upto, 0int,
{
    if upto <= 0 || cur >= max {
        -1
    } else {
        let w = entry_worst_profile(bv, mf, cur, max, j, d, upto - 1);
        let p = upto - 1;
        if (p / pow3_spec(j)) % 3 == d {
            if w == -1 {
                p
            } else {
                let id = bv.snakes[j + 1].id as int;
                if entry_profile_result(bv, mf, cur, max, p)[id] < entry_profile_result(
                    bv,
                    mf,
                    cur,
                    max,
                    w,
                )[id] {
                    p
                } else {
                    w
                }
            }
        } else {
            w
        }
    }
}

/// Opponent `j`'s worst attainable score when it plays option `d`.
pub open spec fn entry_option_value(
    bv: BoardView,
    mf: int,
    cur: int,
    max: int,
    j: int,
    d: int,
) -> u64
    decreases max - cur, 2int, 0int, 0int,
{
    let n = bv.snakes.len() as int;
    entry_profile_result(
        bv,
        mf,
        cur,
        max,
        entry_worst_profile(bv, mf, cur, max, j, d, pow3_spec(n - 1)),
    )[bv.snakes[j + 1].id as int]
}

/// The best of opponent `j`'s first `k` options by worst case.
pub open spec fn entry_best_option(
    bv: BoardView,
    mf: int,
    cur: int,
    max: int,
    j: int,
    k: int,
) -> int
    decreases max - cur, 3int, k, 0int,
{
    if k <= 1 || cur >= max {
        0
    } else {
        let b = entry_best_option(bv, mf, cur, max, j, k - 1);
        if entry_option_value(bv, mf, cur, max, j, k - 1) > entry_option_value(
            bv,
            mf,
            cur,
            max,
            j,
            b,
        ) {
            k - 1
        } else {
            b
        }
    }
}

/// The opponent profile assembled from the first `j` opponents' choices.
pub open spec fn entry_chosen_profile(bv: BoardView, mf: int, cur: int, max: int, j: int) -> int
    decreases max - cur, 4int, j, 0int,
{
    if j <= 0 || cur >= max {
        0
    } else {
        entry_chosen_profile(bv, mf, cur, max, j - 1) + entry_best_option(
            bv,
            mf,
            cur,
            max,
            j - 1,
            3,
        ) * pow3_spec(j - 1)
    }
}

/// The value of the first ply after the agent's forced move: the opponents
/// alone enumerate their options and each keeps the one whose worst case is
/// best for itself.
pub open spec fn entry_spec(bv: BoardView, mf: int, cur: int, max: int) -> Seq<u64>
    decreases max - cur, 5int, 0int, 1int,
{
    if cur >= max || bv.snakes.len() == 0 {
        score_vec(bv)
    } else {
        entry_profile_result(
            bv,
            mf,
            cur,
            max,
            entry_chosen_profile(bv, mf, cur, max, bv.snakes.len() as int - 1),
        )
    }
}

/// The value of one root probe: the agent forced onto `target`, then the
/// constrained first ply searched.
pub open spec fn root_probe(bv: BoardView, target: Coordinate, mf: int, cur: int, max: int) -> Seq<
    u64,
> {
    entry_spec(
        BoardView { snakes: bv.snakes.update(0, bv.snakes[0].moved_to(target)), ..bv },
        mf,
        cur,
        max,
    )
}

/// A root board's own serpent can step in any of the four directions
/// without leaving the representable range.
proof fn root_move_safety(bv: BoardView)
    requires
        bv.dims_ok(),
        bv.snakes_ok(),
        bv.grounded(),
        bv.snakes.len() >= 1,
    ensures
        i32::MIN < bv.snakes[0].head.x < i32::MAX,
        i32::MIN < bv.snakes[0].head.y < i32::MAX,
{
    assert(bv.snakes[0].wf());
    assert(bv.in_bounds(bv.snakes[0].body[0]));
    assert(bv.width <= 1_000_000_000 && bv.height <= 1_000_000_000) by (nonlinear_arith)
        requires
            1 <= bv.width,
            1 <= bv.height,
            bv.width * bv.height <= 1_000_000_000,
    ;
}

impl Board {
    /// Depth-bounded joint look-ahead: all serpents move simultaneously, so
    /// each node fans out into one successor per joint move profile. For each
    /// serpent and each of its three options the worst resulting score for
    /// that serpent is recorded, each serpent picks the option whose worst
    /// case is best, and the score vector of the profile assembled from those
    /// choices is returned. At the depth limit, or with nobody left, the
    /// board evaluates as it stands. An id with no live serpent scores 0.
    #[verifier::rlimit(100)]
    pub fn minimax(&self, ruleset: &Ruleset, current_level: i32, max_level: i32) -> (r: Vec<u64>)
        requires
            current_level <= max_level,
            search_budget_ok(self@, max_level - current_level),
            self@.grounded(),
        ensures
            r@ == minimax_spec(
                self@,
                ruleset@.minimum_food,
                current_level as int,
                max_level as int,
            ),
            r@.len() == self@.max_snakes,
            forall|k: int| 0 <= k < r@.len() && !is_live_id(self@, k) ==> r@[k] == 0,
            (current_level >= max_level || self@.snakes.len() == 0) ==> forall|i: int|
                0 <= i < self@.snakes.len() ==> r@[(#[trigger] self@.snakes[i]).id as int]
                    == snake_score(self@, self@.snakes[i]),
        decreases max_level - current_level,
    {
        let ghost mf = ruleset@.minimum_food;
        let ghost cur = current_level as int;
        let ghost maxl = max_level as int;
        // Depth limit, or nobody left to move.
        if current_level >= max_level || self.snakes.len() == 0 {
            return self.evaluate();
        }

        let num_snakes = self.snakes.len();
        let iterations = pow3(num_snakes);

        // worst[j * 3 + d]: the profile, seen so far, in which serpent j
        // playing option d comes off worst; -1 until one is seen.
        let mut worst: Vec<i32> = Vec::new();
        let mut z: usize = 0;
        while z < 3 * num_snakes
            invariant
                num_snakes <= 12,
                worst@.len() == z <= 3 * num_snakes,
                forall|m: int| 0 <= m < z ==> worst@[m] == -1,
            decreases 3 * num_snakes - z,
        {
            worst.push(-1);
            z = z + 1;
        }

        let mut result_boards: Vec<Vec<u64>> = Vec::new();

        proof {
            assert forall|j: int, d: int| 0 <= j && 0 <= d implies #[trigger] (d * pow3_spec(j))
                >= 0 by {
                lemma_pow3_pos(j);
                assert(d * pow3_spec(j) >= 0) by (nonlinear_arith)
                    requires
                        d >= 0,
                        pow3_spec(j) >= 1,
                ;
            }
        }
        let mut i: usize = 0;
        while i < iterations
            invariant
                0 <= i <= iterations,
                iterations == pow3_spec(num_snakes as int),
                iterations <= 531441,
                forall|j: int, d: int| 0 <= j && 0 <= d ==> #[trigger] (d * pow3_spec(j)) >= 0,
                num_snakes == self@.snakes.len(),
                1 <= num_snakes <= 12,
                current_level < max_level,
                mf == ruleset@.minimum_food,
                cur == current_level as int,
                maxl == max_level as int,
                search_budget_ok(self@, max_level - current_level),
                self@.grounded(),
                result_boards@.len() == i,
                forall|p: int|
                    0 <= p < i ==> (#[trigger] result_boards@[p])@.len() == self@.max_snakes,
                forall|p: int|
                    0 <= p < i ==> (#[trigger] result_boards@[p])@ == profile_result(
                        self@,
                        mf,
                        cur,
                        maxl,
                        p,
                    ),
                forall|p: int, k: int|
                    #![trigger result_boards@[p]@[k]]
                    0 <= p < i && 0 <= k < self@.max_snakes && !is_live_id(self@, k)
                        ==> result_boards@[p]@[k] == 0,
                worst@.len() == 3 * num_snakes,
                forall|m: int| 0 <= m < worst@.len() ==> -1 <= #[trigger] worst@[m] < i,
                forall|j: int, d: int|
                    0 <= j < num_snakes && 0 <= d < 3 && i > d * pow3_spec(j) ==> #[trigger] worst@[
                        j * 3 + d] != -1,
                forall|j: int, d: int|
                    #![trigger worst@[j * 3 + d]]
                    0 <= j < num_snakes && 0 <= d < 3 ==> worst@[j * 3 + d] as int
                        == worst_profile(self@, mf, cur, maxl, j, d, i as int),
            decreases iterations - i,
        {
            let mut new_board = self.clone();
            proof {
                assert forall|t: int| 0 <= t < new_board@.snakes.len() implies new_board@.in_bounds(
                    (#[trigger] new_board@.snakes[t]).head,
                ) by {
                    assert(self@.snakes[t].wf());
                    assert(self@.in_bounds(self@.snakes[t].body[0]));
                }
            }
            apply_profile(&mut new_board, i, 0);
            proof {
                assert forall|t: int| 0 <= t < new_board@.snakes.len() implies (
                #[trigger] new_board@.snakes[t]).wf() && new_board@.snakes[t].id
                    < new_board@.max_snakes && new_board@.snakes[t].length < usize::MAX by {
                    assert(self@.snakes[t].wf());
                }
                assert(new_board@.snakes_ok());
                assert(tails_grounded(new_board@)) by {
                    assert forall|t: int, k: int|
                        0 <= t < new_board@.snakes.len() && 1 <= k
                            < new_board@.snakes[t].body.len() implies new_board@.in_bounds(
                        #[trigger] new_board@.snakes[t].body[k],
                    ) by {
                        assert(new_board@.snakes[t].body[k] == self@.snakes[t].body[k - 1]);
                        assert(self@.in_bounds(self@.snakes[t].body[k - 1]));
                    }
                }
            }
            let ghost moved = new_board@;
            new_board.game_step(ruleset);
            proof {
                lemma_stepped_grounded(moved, new_board@, ruleset@.minimum_food);
                assert(search_budget_ok(new_board@, max_level - (current_level + 1))) by {
                    assert forall|t: int| 0 <= t < new_board@.snakes.len() implies (
                    #[trigger] new_board@.snakes[t]).body.len() >= 2 && new_board@.snakes[t].length
                        + (max_level - current_level - 1) + 1 < usize::MAX
                        && new_board@.snakes[t].health - (max_level - current_level - 1) - 1
                        > i32::MIN by {
                        assert(from_old(new_board@.snakes[t], moved.snakes));
                        let j2 = choose|j2: int|
                            #![trigger moved.snakes[j2]]
                            0 <= j2 < moved.snakes.len() && (new_board@.snakes[t]
                                == moved.snakes[j2] || new_board@.snakes[t] == moved.snakes[
                            j2].fed());
                        assert(moved.snakes[j2].length == self@.snakes[j2].length
                            && moved.snakes[j2].body.len() == self@.snakes[j2].body.len()
                            && moved.snakes[j2].health == self@.snakes[j2].health - 1);
                        assert(self@.snakes[j2].body.len() >= 2);
                        assert(self@.snakes[j2].length + (max_level - current_level) + 1
                            < usize::MAX);
                        assert(self@.snakes[j2].health - (max_level - current_level) - 1
                            > i32::MIN);
                    }
                }
            }
            let result = new_board.minimax(ruleset, current_level + 1, max_level);
            proof {
                // The stepped clone is exactly the spec-level successor of
                // profile `i`, so the recursive result is its search value.
                let ghost succ_moved = (BoardView {
                    snakes: Seq::new(
                        self@.snakes.len(),
                        |j: int| self@.snakes[j].moved_to(
                            self@.snakes[j].option_spec(
                                (((i as int) / pow3_spec(j)) % 3) as usize,
                            ),
                        ),
                    ),
                    ..self@
                });
                assert(moved =~= succ_moved);
                assert(new_board@ =~= successor(self@, i as int, mf));
                assert(result@ == profile_result(self@, mf, cur, maxl, i as int));
                // No serpent returns from the dead: an id absent here is
                // absent in every successor.
                assert forall|k: int|
                    0 <= k < self@.max_snakes && !is_live_id(self@, k) implies result@[k] == 0 by {
                    if is_live_id(new_board@, k) {
                        let t = choose|t: int|
                            0 <= t < new_board@.snakes.len() && (#[trigger] new_board@.snakes[
                            t]).id == k;
                        assert(from_old(new_board@.snakes[t], moved.snakes));
                        let j2 = choose|j2: int|
                            #![trigger moved.snakes[j2]]
                            0 <= j2 < moved.snakes.len() && (new_board@.snakes[t]
                                == moved.snakes[j2] || new_board@.snakes[t] == moved.snakes[
                            j2].fed());
                        assert(self@.snakes[j2].id == k);
                    }
                }
            }

            proof {
                assert(result@.len() == self@.max_snakes);
            }
            // Remember, per serpent and option, the profile it fares worst in.
            let mut j: usize = 0;
            while j < num_snakes
                invariant
                    0 <= j <= num_snakes,
                    num_snakes == self@.snakes.len() <= 12,
                    self@.snakes_ok(),
                    i < iterations,
                    iterations == pow3_spec(num_snakes as int),
                    iterations <= 531441,
                    mf == ruleset@.minimum_food,
                    cur == current_level as int,
                    maxl == max_level as int,
                    cur < maxl,
                    result_boards@.len() == i,
                    result@.len() == self@.max_snakes,
                    result@ == profile_result(self@, mf, cur, maxl, i as int),
                    forall|m: int| 3 * j <= m < worst@.len() ==> #[trigger] worst@[m] < i,
                    forall|p: int|
                        0 <= p < i ==> (#[trigger] result_boards@[p])@.len() == self@.max_snakes,
                    forall|p: int|
                        0 <= p < i ==> (#[trigger] result_boards@[p])@ == profile_result(
                            self@,
                            mf,
                            cur,
                            maxl,
                            p,
                        ),
                    worst@.len() == 3 * num_snakes,
                    forall|m: int| 0 <= m < worst@.len() ==> -1 <= #[trigger] worst@[m] <= i,
                    forall|j2: int, d: int|
                        0 <= j2 < num_snakes && 0 <= d < 3 && i > d * pow3_spec(j2)
                            ==> #[trigger] worst@[j2 * 3 + d] != -1,
                    forall|j2: int|
                        0 <= j2 < j ==> #[trigger] worst@[j2 * 3 + ((i as int / pow3_spec(j2))
                            % 3)] != -1,
                    forall|j2: int, d: int|
                        #![trigger worst@[j2 * 3 + d]]
                        0 <= j2 < num_snakes && 0 <= d < 3 ==> worst@[j2 * 3 + d] as int
                            == worst_profile(
                            self@,
                            mf,
                            cur,
                            maxl,
                            j2,
                            d,
                            if j2 < j {
                                i + 1
                            } else {
                                i as int
                            },
                        ),
                decreases num_snakes - j,
            {
                let p = pow3(j);
                let d = (i / p) % 3;
                let idx = j * 3 + d;
                let id = self.snakes[j].get_id() as usize;
                proof {
                    assert(self@.snakes[j as int].id < self@.max_snakes);
                }
                let ghost worst_pre = worst@;
                let cur_worst = worst[idx];
                if cur_worst == -1 {
                    worst[idx] = i as i32;
                } else {
                    let cw = cur_worst as usize;
                    if result[id] < result_boards[cw][id] {
                        worst[idx] = i as i32;
                    }
                }
                proof {
                    let jj = j as int;
                    assert forall|j2: int, d2: int|
                        #![trigger worst@[j2 * 3 + d2]]
                        0 <= j2 < num_snakes && 0 <= d2 < 3 implies worst@[j2 * 3 + d2] as int
                        == worst_profile(
                        self@,
                        mf,
                        cur,
                        maxl,
                        j2,
                        d2,
                        if j2 < jj + 1 {
                            i + 1
                        } else {
                            i as int
                        },
                    ) by {
                        if j2 == jj {
                            assert(worst_pre[jj * 3 + d2] as int == worst_profile(
                                self@,
                                mf,
                                cur,
                                maxl,
                                jj,
                                d2,
                                i as int,
                            ));
                            if d2 == d {
                                assert(((i as int) / pow3_spec(jj)) % 3 == d2);
                            } else {
                                assert(((i as int) / pow3_spec(jj)) % 3 != d2);
                                assert(worst@[j2 * 3 + d2] == worst_pre[j2 * 3 + d2]);
                            }
                        } else {
                            assert(worst@[j2 * 3 + d2] == worst_pre[j2 * 3 + d2]);
                        }
                    }
                }
                j = j + 1;
            }
            result_boards.push(result);
            proof {
                assert forall|j2: int, d: int|
                    0 <= j2 < num_snakes && 0 <= d < 3 && i + 1 > d * pow3_spec(j2) implies
                #[trigger] worst@[j2 * 3 + d] != -1 by {
                    if i > d * pow3_spec(j2) {
                    } else {
                        lemma_pow3_pos(j2);
                        assert(i as int == d * pow3_spec(j2));
                        assert((i as int / pow3_spec(j2)) % 3 == d) by (nonlinear_arith)
                            requires
                                i as int == d * pow3_spec(j2),
                                pow3_spec(j2) >= 1,
                                0 <= d < 3,
                        ;
                    }
                }
            }
            i = i + 1;
        }

        // Each serpent takes the option whose worst case is best; assemble
        // the profile of those choices and hand back its score vector.
        let mut return_board: usize = 0;
        let mut j: usize = 0;
        while j < num_snakes
            invariant
                0 <= j <= num_snakes,
                num_snakes == self@.snakes.len() <= 12,
                self@.snakes_ok(),
                iterations == pow3_spec(num_snakes as int),
                result_boards@.len() == iterations,
                worst@.len() == 3 * num_snakes,
                forall|m: int| 0 <= m < worst@.len() ==> -1 <= #[trigger] worst@[m] < iterations,
                forall|j2: int, d: int|
                    0 <= j2 < num_snakes && 0 <= d < 3 && iterations > d * pow3_spec(j2)
                        ==> #[trigger] worst@[j2 * 3 + d] != -1,
                forall|p: int|
                    0 <= p < iterations ==> (#[trigger] result_boards@[p])@.len()
                        == self@.max_snakes,
                forall|p: int|
                    0 <= p < iterations ==> (#[trigger] result_boards@[p])@ == profile_result(
                        self@,
                        mf,
                        cur,
                        maxl,
                        p,
                    ),
                forall|j2: int, d: int|
                    #![trigger worst@[j2 * 3 + d]]
                    0 <= j2 < num_snakes && 0 <= d < 3 ==> worst@[j2 * 3 + d] as int
                        == worst_profile(self@, mf, cur, maxl, j2, d, iterations as int),
                mf == ruleset@.minimum_food,
                cur == current_level as int,
                maxl == max_level as int,
                cur < maxl,
                return_board < pow3_spec(j as int),
                return_board as int == chosen_profile(self@, mf, cur, maxl, j as int),
            decreases num_snakes - j,
        {
            proof {
                lemma_pow3_mono(j as int + 1, num_snakes as int);
                lemma_pow3_bound(j as int);
                lemma_pow3_bound(j as int + 1);
                assert forall|d: int| 0 <= d < 3 implies iterations > #[trigger] (d * pow3_spec(
                    j as int,
                )) by {
                    assert(d * pow3_spec(j as int) <= 2 * pow3_spec(j as int))
                        by (nonlinear_arith)
                        requires
                            0 <= d < 3,
                            pow3_spec(j as int) >= 1,
                    ;
                    assert(3 * pow3_spec(j as int) == pow3_spec(j as int + 1));
                }
                assert(self@.snakes[j as int].id < self@.max_snakes);
            }
            let p = pow3(j);
            let id = self.snakes[j].get_id() as usize;
            let mut best_direction: usize = 0;
            let mut d: usize = 1;
            while d < 3
                invariant
                    1 <= d <= 3,
                    best_direction < 3,
                    0 <= j < num_snakes,
                    num_snakes == self@.snakes.len() <= 12,
                    iterations == pow3_spec(num_snakes as int),
                    result_boards@.len() == iterations,
                    worst@.len() == 3 * num_snakes,
                    forall|m: int|
                        0 <= m < worst@.len() ==> -1 <= #[trigger] worst@[m] < iterations,
                    forall|d2: int|
                        0 <= d2 < 3 ==> #[trigger] worst@[j as int * 3 + d2] != -1,
                    forall|pp: int|
                        0 <= pp < iterations ==> (#[trigger] result_boards@[pp])@.len()
                            == self@.max_snakes,
                    forall|pp: int|
                        0 <= pp < iterations ==> (#[trigger] result_boards@[pp])@
                            == profile_result(self@, mf, cur, maxl, pp),
                    forall|j2: int, d2: int|
                        #![trigger worst@[j2 * 3 + d2]]
                        0 <= j2 < num_snakes && 0 <= d2 < 3 ==> worst@[j2 * 3 + d2] as int
                            == worst_profile(self@, mf, cur, maxl, j2, d2, iterations as int),
                    mf == ruleset@.minimum_food,
                    cur == current_level as int,
                    maxl == max_level as int,
                    cur < maxl,
                    id as int == self@.snakes[j as int].id as int,
                    best_direction as int == best_option(self@, mf, cur, maxl, j as int, d as int),
                    id < self@.max_snakes,
                decreases 3 - d,
            {
                let wd = worst[j * 3 + d] as usize;
                let wb = worst[j * 3 + best_direction] as usize;
                proof {
                    assert(wd as int == worst_profile(
                        self@,
                        mf,
                        cur,
                        maxl,
                        j as int,
                        d as int,
                        iterations as int,
                    ));
                    assert(wb as int == worst_profile(
                        self@,
                        mf,
                        cur,
                        maxl,
                        j as int,
                        best_direction as int,
                        iterations as int,
                    ));
                    assert(result_boards@[wd as int]@ == profile_result(
                        self@,
                        mf,
                        cur,
                        maxl,
                        wd as int,
                    ));
                    assert(result_boards@[wb as int]@ == profile_result(
                        self@,
                        mf,
                        cur,
                        maxl,
                        wb as int,
                    ));
                    assert(option_value(self@, mf, cur, maxl, j as int, d as int)
                        == profile_result(self@, mf, cur, maxl, wd as int)[id as int]);
                    assert(option_value(self@, mf, cur, maxl, j as int, best_direction as int)
                        == profile_result(self@, mf, cur, maxl, wb as int)[id as int]);
                }
                if result_boards[wd][id] > result_boards[wb][id] {
                    best_direction = d;
                }
                d = d + 1;
            }
            proof {
                assert(return_board + best_direction * pow3_spec(j as int) < pow3_spec(
                    j as int + 1,
                )) by (nonlinear_arith)
                    requires
                        return_board < pow3_spec(j as int),
                        best_direction < 3,
                        pow3_spec(j as int + 1) == 3 * pow3_spec(j as int),
                        pow3_spec(j as int) >= 1,
                ;
                lemma_pow3_mono(j as int + 1, num_snakes as int);
                lemma_pow3_bound(j as int);
            }
            return_board = return_board + best_direction * p;
            proof {
                assert(best_direction as int == best_option(self@, mf, cur, maxl, j as int, 3));
                assert(return_board as int == chosen_profile(self@, mf, cur, maxl, j + 1));
            }
            j = j + 1;
        }

        proof {
            lemma_pow3_mono(j as int, num_snakes as int);
            assert(return_board as int == chosen_profile(
                self@,
                mf,
                cur,
                maxl,
                num_snakes as int,
            ));
        }
        let chosen = result_boards.swap_remove(return_board);
        proof {
            assert(chosen@ == profile_result(self@, mf, cur, maxl, return_board as int));
            assert(chosen@ == minimax_spec(self@, mf, cur, maxl));
        }
        chosen
    }
}

} // verus!
