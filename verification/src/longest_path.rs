use vstd::prelude::*;

use crate::battlesnake::SnakeView;
use crate::board::{Board, BoardView};
use crate::constants::YOU_ID;
use crate::coordinate::Coordinate;

verus! {

/// True when `v` holds `c`.
pub(crate) fn coord_list_contains(v: &Vec<Coordinate>, c: Coordinate) -> (r: bool)
    ensures
        r == v@.contains(c),
{
    let mut k: usize = 0;
    while k < v.len()
        invariant
            0 <= k <= v@.len(),
            forall|j: int| 0 <= j < k ==> v@[j] != c,
        decreases v@.len() - k,
    {
        if v[k] == c {
            proof {
                assert(v@[k as int] == c);
            }
            return true;
        }
        k = k + 1;
    }
    false
}

/// The neighbour of `pos` in direction `d`, in the fixed order down, up,
/// right, left.
pub open spec fn step_towards(pos: Coordinate, d: int) -> Coordinate {
    if d == 0 {
        pos.down_spec()
    } else if d == 1 {
        pos.up_spec()
    } else if d == 2 {
        pos.right_spec()
    } else {
        pos.left_spec()
    }
}

/// The verdict of walking onto a tile of serpent `s`, scanning the body from
/// segment `k` on: at the first segment equal to `pos`, the walk is blocked
/// (worth `current_area`) when the segment outlives the walk so far, and an
/// escape (worth `max_area`) when the segment will have vacated — the
/// searching serpent's own eaten food delays its tail by as many ticks.
/// `None` when no segment from `k` on lies on `pos`.
pub open spec fn body_verdict(
    s: SnakeView,
    pos: Coordinate,
    current_area: int,
    max_area: int,
    food_eaten: int,
    k: int,
) -> Option<int>
    decreases s.body.len() - k,
{
    if k < 0 || k >= s.body.len() {
        None
    } else if s.body[k] == pos {
        let slack = if s.id == YOU_ID {
            current_area - food_eaten
        } else {
            current_area
        };
        if s.length - k - 1 > slack {
            Some(current_area)
        } else {
            Some(max_area)
        }
    } else {
        body_verdict(s, pos, current_area, max_area, food_eaten, k + 1)
    }
}

/// The verdict of the first serpent from `i` on with a segment on `pos`;
/// `None` when the tile is on no body at all.
pub open spec fn snakes_verdict(
    bv: BoardView,
    pos: Coordinate,
    current_area: int,
    max_area: int,
    food_eaten: int,
    i: int,
) -> Option<int>
    decreases bv.snakes.len() - i,
{
    if i < 0 || i >= bv.snakes.len() {
        None
    } else {
        match body_verdict(bv.snakes[i], pos, current_area, max_area, food_eaten, 0) {
            Some(v) => Some(v),
            None => snakes_verdict(bv, pos, current_area, max_area, food_eaten, i + 1),
        }
    }
}

/// The value of the longest walk continuing onto `pos`: the walked length so
/// far at the cap, off the grid or on a visited tile; the body verdict on an
/// occupied tile; otherwise one more than the best of the four directions
/// onward.
pub open spec fn walk_spec(
    bv: BoardView,
    pos: Coordinate,
    current_area: int,
    max_area: int,
    gone: Seq<Coordinate>,
    food_eaten: int,
) -> int
    decreases max_area - current_area, 0int, 0int,
{
    if current_area >= max_area {
        current_area
    } else if !bv.in_bounds(pos) {
        current_area
    } else if gone.contains(pos) {
        current_area
    } else {
        let fe = if bv.food.contains(pos) {
            food_eaten + 1
        } else {
            food_eaten
        };
        match snakes_verdict(bv, pos, current_area, max_area, fe, 0) {
            Some(v) => v,
            None => walk_onward(bv, pos, current_area + 1, max_area, gone.push(pos), fe, 0),
        }
    }
}

/// The best of the walks leaving `pos` in directions `d..4`, but at least
/// the walked length itself.
pub open spec fn walk_onward(
    bv: BoardView,
    pos: Coordinate,
    current_area: int,
    max_area: int,
    gone: Seq<Coordinate>,
    food_eaten: int,
    d: int,
) -> int
    decreases max_area - current_area, 1int, 4 - d,
{
    if d < 0 || d >= 4 || current_area > max_area {
        current_area
    } else {
        let child = walk_spec(bv, step_towards(pos, d), current_area, max_area, gone, food_eaten);
        let rest = walk_onward(bv, pos, current_area, max_area, gone, food_eaten, d + 1);
        if child > rest {
            child
        } else {
            rest
        }
    }
}

/// The walk value never drops below the walked length nor exceeds the cap.
pub proof fn lemma_walk_bounds(
    bv: BoardView,
    pos: Coordinate,
    current_area: int,
    max_area: int,
    gone: Seq<Coordinate>,
    food_eaten: int,
)
    requires
        current_area <= max_area,
    ensures
        current_area <= walk_spec(bv, pos, current_area, max_area, gone, food_eaten) <= max_area,
    decreases max_area - current_area, 0int, 0int,
{
    if current_area < max_area && bv.in_bounds(pos) && !gone.contains(pos) {
        let fe = if bv.food.contains(pos) {
            food_eaten + 1
        } else {
            food_eaten
        };
        match snakes_verdict(bv, pos, current_area, max_area, fe, 0) {
            Some(v) => {
                lemma_verdict_bounds(bv, pos, current_area, max_area, fe, 0);
            },
            None => {
                lemma_onward_bounds(bv, pos, current_area + 1, max_area, gone.push(pos), fe, 0);
            },
        }
    }
}

/// Bounds for the direction fold.
pub proof fn lemma_onward_bounds(
    bv: BoardView,
    pos: Coordinate,
    current_area: int,
    max_area: int,
    gone: Seq<Coordinate>,
    food_eaten: int,
    d: int,
)
    requires
        current_area <= max_area,
    ensures
        current_area <= walk_onward(bv, pos, current_area, max_area, gone, food_eaten, d)
            <= max_area,
    decreases max_area - current_area, 1int, 4 - d,
{
    if 0 <= d < 4 {
        lemma_walk_bounds(bv, step_towards(pos, d), current_area, max_area, gone, food_eaten);
        lemma_onward_bounds(bv, pos, current_area, max_area, gone, food_eaten, d + 1);
    }
}

/// A body verdict is either the walked length or the cap.
pub proof fn lemma_verdict_bounds(
    bv: BoardView,
    pos: Coordinate,
    current_area: int,
    max_area: int,
    food_eaten: int,
    i: int,
)
    ensures
        match snakes_verdict(bv, pos, current_area, max_area, food_eaten, i) {
            Some(v) => v == current_area || v == max_area,
            None => true,
        },
    decreases bv.snakes.len() - i,
{
    if 0 <= i < bv.snakes.len() {
        lemma_body_verdict_bounds(bv.snakes[i], pos, current_area, max_area, food_eaten, 0);
        lemma_verdict_bounds(bv, pos, current_area, max_area, food_eaten, i + 1);
    }
}

proof fn lemma_body_verdict_bounds(
    s: SnakeView,
    pos: Coordinate,
    current_area: int,
    max_area: int,
    food_eaten: int,
    k: int,
)
    ensures
        match body_verdict(s, pos, current_area, max_area, food_eaten, k) {
            Some(v) => v == current_area || v == max_area,
            None => true,
        },
    decreases s.body.len() - k,
{
    if 0 <= k < s.body.len() && s.body[k] != pos {
        lemma_body_verdict_bounds(s, pos, current_area, max_area, food_eaten, k + 1);
    }
}

impl Board {
    /// The length of the longest self-avoiding walk from `pos`, capped at
    /// `max_area`, exactly as `walk_spec` values it. `current_area` is the
    /// length walked so far, `gone` the tiles of the walk, and `food_eaten`
    /// how many food tiles the walk has consumed: eating delays the tail
    /// retreat of the searching serpent, so a tail-chase needs that much
    /// more slack. A walk that reaches the cap, or catches a vacating tail,
    /// counts as an escape and returns `max_area`; a blocked or exhausted
    /// walk returns the tiles it covered.
    #[verifier::rlimit(100)]
    pub fn longest_path(
        &self,
        pos: Coordinate,
        current_area: i32,
        max_area: i32,
        gone: &mut Vec<Coordinate>,
        food_eaten: usize,
    ) -> (r: i32)
        requires
            self@.dims_ok(),
            self@.snakes_ok(),
            0 <= current_area <= max_area,
            old(gone)@.len() == current_area,
            food_eaten + max_area - current_area < usize::MAX,
        ensures
            r == walk_spec(
                self@,
                pos,
                current_area as int,
                max_area as int,
                old(gone)@,
                food_eaten as int,
            ),
            current_area <= r <= max_area,
            final(gone)@.len() >= old(gone)@.len(),
            final(gone)@.take(old(gone)@.len() as int) == old(gone)@,
        decreases max_area - current_area,
    {
        // Cap reached.
        if current_area >= max_area {
            proof {
                assert(gone@.take(gone@.len() as int) =~= gone@);
            }
            return current_area;
        }

        // Off the grid.
        if self.is_out_of_bounds(pos) {
            proof {
                assert(gone@.take(gone@.len() as int) =~= gone@);
            }
            return current_area;
        }

        // Already walked.
        if coord_list_contains(gone, pos) {
            proof {
                assert(gone@.take(gone@.len() as int) =~= gone@);
            }
            return current_area;
        }

        // Walking onto food delays the searching serpent's tail.
        let mut food_count = food_eaten;
        if coord_list_contains(&self.food, pos) {
            food_count = food_count + 1;
        }
        let ghost fe = food_count as int;

        // A tile under a serpent body blocks the walk unless that segment
        // will have vacated by the time the walk arrives: then the walk
        // escapes by chasing the tail.
        let mut si: usize = 0;
        while si < self.snakes.len()
            invariant
                0 <= si <= self@.snakes.len(),
                self@.snakes_ok(),
                0 <= current_area < max_area,
                self@.in_bounds(pos),
                !old(gone)@.contains(pos),
                gone@ == old(gone)@,
                fe == food_count as int,
                fe == food_eaten + (if self@.food.contains(pos) {
                    1int
                } else {
                    0int
                }),
                snakes_verdict(self@, pos, current_area as int, max_area as int, fe, 0)
                    == snakes_verdict(self@, pos, current_area as int, max_area as int, fe, si as int),
            decreases self@.snakes.len() - si,
        {
            let snake = &self.snakes[si];
            proof {
                assert(snake@ == self@.snakes[si as int]);
                assert(self@.snakes[si as int].wf());
            }
            let mut bi: usize = 0;
            while bi < snake.body.len()
                invariant
                    0 <= bi <= snake.body@.len(),
                    snake@ == self@.snakes[si as int],
                    si < self@.snakes.len(),
                    self@.snakes[si as int].wf(),
                    0 <= current_area < max_area,
                    self@.in_bounds(pos),
                    !old(gone)@.contains(pos),
                    gone@ == old(gone)@,
                    fe == food_count as int,
                    fe == food_eaten + (if self@.food.contains(pos) {
                        1int
                    } else {
                        0int
                    }),
                    body_verdict(snake@, pos, current_area as int, max_area as int, fe, 0)
                        == body_verdict(
                        snake@,
                        pos,
                        current_area as int,
                        max_area as int,
                        fe,
                        bi as int,
                    ),
                    snakes_verdict(self@, pos, current_area as int, max_area as int, fe, 0)
                        == snakes_verdict(
                        self@,
                        pos,
                        current_area as int,
                        max_area as int,
                        fe,
                        si as int,
                    ),
                decreases snake.body@.len() - bi,
            {
                if pos == snake.body[bi] {
                    let remaining = snake.get_length() - bi - 1;
                    let slack = if snake.get_id() == YOU_ID {
                        current_area as i128 - food_count as i128
                    } else {
                        current_area as i128
                    };
                    let blocked = remaining as i128 > slack;
                    proof {
                        assert(gone@.take(gone@.len() as int) =~= gone@);
                        let sv = snake@;
                        let spec_slack: int = if sv.id == YOU_ID {
                            current_area - fe
                        } else {
                            current_area as int
                        };
                        let v: int = if sv.length - bi - 1 > spec_slack {
                            current_area as int
                        } else {
                            max_area as int
                        };
                        assert(body_verdict(sv, pos, current_area as int, max_area as int, fe, bi as int)
                            == Some(v));
                        assert(body_verdict(sv, pos, current_area as int, max_area as int, fe, 0)
                            == Some(v));
                        assert(snakes_verdict(
                            self@,
                            pos,
                            current_area as int,
                            max_area as int,
                            fe,
                            si as int,
                        ) == Some(v));
                        assert(snakes_verdict(self@, pos, current_area as int, max_area as int, fe, 0)
                            == Some(v));
                        assert(walk_spec(
                            self@,
                            pos,
                            current_area as int,
                            max_area as int,
                            old(gone)@,
                            food_eaten as int,
                        ) == v);
                        assert(snake@.wf());
                        assert(remaining as int == sv.length - bi - 1);
                        assert(slack as int == spec_slack);
                        assert(blocked == (sv.length - bi - 1 > spec_slack));
                        assert(v == (if blocked {
                            current_area as int
                        } else {
                            max_area as int
                        }));
                    }
                    if blocked {
                        return current_area;
                    } else {
                        return max_area;
                    }
                }
                bi = bi + 1;
            }
            si = si + 1;
        }

        proof {
            assert(self@.width <= 1_000_000_000 && self@.height <= 1_000_000_000)
                by (nonlinear_arith)
                requires
                    1 <= self@.width,
                    1 <= self@.height,
                    self@.width * self@.height <= 1_000_000_000,
            ;
            assert(snakes_verdict(self@, pos, current_area as int, max_area as int, fe, 0)
                is None);
        }

        // Walk onto the tile and try all four directions, keeping the best.
        let next_area = current_area + 1;
        gone.push(pos);
        let ghost g2 = gone@;
        proof {
            assert(g2 == old(gone)@.push(pos));
            lemma_onward_bounds(self@, pos, next_area as int, max_area as int, g2, fe, 0);
        }

        let mut largest_area = next_area;
        let adjacent = pos.get_adjacent();
        let mut d: usize = 0;
        while d < 4
            invariant
                0 <= d <= 4,
                self@.dims_ok(),
                self@.snakes_ok(),
                0 <= current_area < max_area,
                next_area == current_area + 1,
                next_area <= largest_area <= max_area,
                gone@.len() >= next_area,
                gone@.take(next_area as int) == g2,
                g2 == old(gone)@.push(pos),
                g2.len() == next_area,
                fe == food_count as int,
                fe == food_eaten + (if self@.food.contains(pos) {
                    1int
                } else {
                    0int
                }),
                snakes_verdict(self@, pos, current_area as int, max_area as int, fe, 0) is None,
                food_count + max_area - next_area < usize::MAX,
                self@.in_bounds(pos),
                !old(gone)@.contains(pos),
                adjacent[0] == pos.down_spec(),
                adjacent[1] == pos.up_spec(),
                adjacent[2] == pos.right_spec(),
                adjacent[3] == pos.left_spec(),
                walk_onward(self@, pos, next_area as int, max_area as int, g2, fe, 0) == (
                if largest_area as int > walk_onward(
                    self@,
                    pos,
                    next_area as int,
                    max_area as int,
                    g2,
                    fe,
                    d as int,
                ) {
                    largest_area as int
                } else {
                    walk_onward(self@, pos, next_area as int, max_area as int, g2, fe, d as int)
                }),
            decreases 4 - d,
        {
            // Drop the tiles of abandoned branches; keep the walk here.
            gone.truncate(next_area as usize);
            proof {
                assert(gone@ =~= g2);
                assert(step_towards(pos, d as int) == adjacent[d as int]);
            }
            let new_area = self.longest_path(adjacent[d], next_area, max_area, gone, food_count);
            proof {
                lemma_walk_bounds(
                    self@,
                    step_towards(pos, d as int),
                    next_area as int,
                    max_area as int,
                    g2,
                    fe,
                );
                lemma_onward_bounds(
                    self@,
                    pos,
                    next_area as int,
                    max_area as int,
                    g2,
                    fe,
                    d + 1,
                );
            }
            if new_area >= max_area {
                proof {
                    assert(gone@.take(old(gone)@.len() as int) =~= old(gone)@);
                    let w0 = walk_onward(self@, pos, next_area as int, max_area as int, g2, fe, 0);
                    let wd = walk_onward(
                        self@,
                        pos,
                        next_area as int,
                        max_area as int,
                        g2,
                        fe,
                        d as int,
                    );
                    let wd1 = walk_onward(
                        self@,
                        pos,
                        next_area as int,
                        max_area as int,
                        g2,
                        fe,
                        d + 1,
                    );
                    let child = walk_spec(
                        self@,
                        step_towards(pos, d as int),
                        next_area as int,
                        max_area as int,
                        g2,
                        fe,
                    );
                    assert(child == new_area as int);
                    assert(child == max_area as int);
                    assert(wd == (if child > wd1 {
                        child
                    } else {
                        wd1
                    }));
                    assert(wd == max_area as int);
                    assert(w0 == max_area as int);
                    assert(walk_spec(
                        self@,
                        pos,
                        current_area as int,
                        max_area as int,
                        old(gone)@,
                        food_eaten as int,
                    ) == w0);
                }
                return new_area;
            }
            if new_area > largest_area {
                largest_area = new_area;
            }
            d = d + 1;
        }

        proof {
            assert(gone@.take(old(gone)@.len() as int) =~= old(gone)@);
            let w0 = walk_onward(self@, pos, next_area as int, max_area as int, g2, fe, 0);
            let w4 = walk_onward(self@, pos, next_area as int, max_area as int, g2, fe, 4);
            assert(w4 == next_area as int);
            assert(w0 == largest_area as int);
            assert(walk_spec(
                self@,
                pos,
                current_area as int,
                max_area as int,
                old(gone)@,
                food_eaten as int,
            ) == w0);
        }
        largest_area
    }
}

} // verus!
