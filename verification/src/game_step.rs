use vstd::prelude::*;

use crate::battlesnake::SnakeView;
use crate::board::{Board, BoardView};
use crate::coordinate::Coordinate;
use crate::ruleset::Ruleset;

verus! {

broadcast use
    vstd::seq_lib::group_filter_ensures,
    vstd::seq_lib::group_to_multiset_ensures,
    vstd::multiset::group_multiset_axioms;

/// Some serpent in `ss` has its head exactly on `c`.
pub open spec fn any_head_on(ss: Seq<SnakeView>, c: Coordinate) -> bool {
    exists|i: int| 0 <= i < ss.len() && ss[i].head == c
}

/// Every serpent whose head sits on a food tile eats it. A tile under several
/// heads feeds all of them.
pub open spec fn fed_snakes(ss: Seq<SnakeView>, food: Seq<Coordinate>) -> Seq<SnakeView> {
    ss.map_values(
        |s: SnakeView|
            if food.contains(s.head) {
                s.fed()
            } else {
                s
            },
    )
}

/// The serpent is neither starved nor off the grid.
pub open spec fn survives_alone(s: SnakeView, width: int, height: int, minimum_food: int) -> bool {
    &&& s.health >= minimum_food
    &&& 0 <= s.head.x < width
    &&& 0 <= s.head.y < height
}

/// The serpent is one of those of `ss0`, either untouched or just fed.
pub open spec fn from_old(s: SnakeView, ss0: Seq<SnakeView>) -> bool {
    exists|j: int| #![trigger ss0[j]] 0 <= j < ss0.len() && (s == ss0[j] || s == ss0[j].fed())
}

/// The serpent is eliminated by a collision against some serpent in `ss`:
/// a lost or tied head-to-head, or its head inside a body. `ss` includes the
/// serpent itself, so running into one's own body counts.
pub open spec fn doomed(s: SnakeView, ss: Seq<SnakeView>) -> bool {
    exists|j: int|
        0 <= j < ss.len() && (s.lost_headon_spec(ss[j]) || s.body_collision_spec(ss[j]))
}

/// Of the first `p` fed serpents, those that survive starvation and walls.
pub open spec fn alive_prefix(
    fed: Seq<SnakeView>,
    p: int,
    width: int,
    height: int,
    minimum_food: int,
) -> Seq<SnakeView> {
    fed.take(p).filter(|s: SnakeView| survives_alone(s, width, height, minimum_food))
}

/// Of the first `t` surviving serpents, those not eliminated by a collision
/// against any serpent in `alive`.
pub open spec fn keep_prefix(alive: Seq<SnakeView>, t: int) -> Seq<SnakeView> {
    alive.take(t).filter(|s: SnakeView| !doomed(s, alive))
}

/// The serpents left after one tick: feed, then remove the starved and the
/// out-of-bounds, then resolve all collisions simultaneously.
pub open spec fn step_snakes(bv: BoardView, minimum_food: int) -> Seq<SnakeView> {
    let fed = fed_snakes(bv.snakes, bv.food);
    let alive = alive_prefix(fed, fed.len() as int, bv.width, bv.height, minimum_food);
    keep_prefix(alive, alive.len() as int)
}

/// Of the first `k` food tiles of `food`, those under no head of `ss`.
pub open spec fn food_prefix(food: Seq<Coordinate>, ss: Seq<SnakeView>, k: int) -> Seq<
    Coordinate,
> {
    food.take(k).filter(|c: Coordinate| !any_head_on(ss, c))
}

/// The food left after one tick, keeping the order it was listed in.
pub open spec fn step_food(bv: BoardView) -> Seq<Coordinate> {
    food_prefix(bv.food, bv.snakes, bv.food.len() as int)
}

/// The food list exactly as the tick leaves it: each tile from `i` on is
/// consumed by unordered swap-remove when a head sits on it, the last tile
/// taking its slot, and kept otherwise.
pub open spec fn feed_food(food: Seq<Coordinate>, ss: Seq<SnakeView>, i: int) -> Seq<Coordinate>
    decreases 2 * food.len() - i,
{
    if i < 0 || i >= food.len() {
        food
    } else if any_head_on(ss, food[i]) {
        feed_food(food.update(i, food.last()).drop_last(), ss, i)
    } else {
        feed_food(food, ss, i + 1)
    }
}

/// One step of `alive_prefix`: taking one more serpent either appends it or
/// leaves the survivors unchanged.
proof fn lemma_alive_prefix_step(fed: Seq<SnakeView>, p: int, w: int, h: int, mf: int)
    requires
        0 <= p < fed.len(),
    ensures
        alive_prefix(fed, p + 1, w, h, mf) == if survives_alone(fed[p], w, h, mf) {
            alive_prefix(fed, p, w, h, mf).push(fed[p])
        } else {
            alive_prefix(fed, p, w, h, mf)
        },
{
    reveal(Seq::filter);
    let s1 = fed.take(p + 1);
    assert(s1.drop_last() =~= fed.take(p));
    assert(s1.last() == fed[p]);
}

/// Every survivor is one of the fed serpents.
proof fn lemma_alive_prefix_subset(fed: Seq<SnakeView>, p: int, w: int, h: int, mf: int)
    requires
        0 <= p <= fed.len(),
    ensures
        forall|i: int|
            0 <= i < alive_prefix(fed, p, w, h, mf).len() ==> exists|k: int|
                0 <= k < p && fed[k] == #[trigger] alive_prefix(fed, p, w, h, mf)[i],
        alive_prefix(fed, p, w, h, mf).len() <= p,
    decreases p,
{
    if p > 0 {
        lemma_alive_prefix_subset(fed, p - 1, w, h, mf);
        lemma_alive_prefix_step(fed, p - 1, w, h, mf);
    } else {
        assert(fed.take(0) =~= Seq::<SnakeView>::empty());
        assert(alive_prefix(fed, 0, w, h, mf).len() == 0);
    }
}

/// Survivors of serpents with pairwise distinct ids keep distinct ids.
proof fn lemma_alive_prefix_distinct(fed: Seq<SnakeView>, p: int, w: int, h: int, mf: int)
    requires
        0 <= p <= fed.len(),
        forall|i: int, j: int|
            0 <= i < fed.len() && 0 <= j < fed.len() && i != j ==> #[trigger] fed[i].id
                != #[trigger] fed[j].id,
    ensures
        forall|i: int, j: int|
            0 <= i < alive_prefix(fed, p, w, h, mf).len() && 0 <= j < alive_prefix(
                fed,
                p,
                w,
                h,
                mf,
            ).len() && i != j ==> #[trigger] alive_prefix(fed, p, w, h, mf)[i].id
                != #[trigger] alive_prefix(fed, p, w, h, mf)[j].id,
    decreases p,
{
    if p > 0 {
        lemma_alive_prefix_distinct(fed, p - 1, w, h, mf);
        lemma_alive_prefix_step(fed, p - 1, w, h, mf);
        lemma_alive_prefix_subset(fed, p - 1, w, h, mf);
        let prev = alive_prefix(fed, p - 1, w, h, mf);
        let cur = alive_prefix(fed, p, w, h, mf);
        if survives_alone(fed[p - 1], w, h, mf) {
            assert forall|i: int, j: int|
                0 <= i < cur.len() && 0 <= j < cur.len() && i != j implies #[trigger] cur[i].id
                != #[trigger] cur[j].id by {
                if i < prev.len() && j < prev.len() {
                } else {
                    let inner = if i < prev.len() {
                        i
                    } else {
                        j
                    };
                    let k = choose|k: int| 0 <= k < p - 1 && fed[k] == prev[inner];
                    assert(fed[k].id != fed[p - 1].id);
                }
            }
        }
    }
}

/// One step of `keep_prefix`.
proof fn lemma_keep_prefix_step(alive: Seq<SnakeView>, t: int)
    requires
        0 <= t < alive.len(),
    ensures
        keep_prefix(alive, t + 1) == if !doomed(alive[t], alive) {
            keep_prefix(alive, t).push(alive[t])
        } else {
            keep_prefix(alive, t)
        },
{
    reveal(Seq::filter);
    let s1 = alive.take(t + 1);
    assert(s1.drop_last() =~= alive.take(t));
    assert(s1.last() == alive[t]);
}

/// Every kept serpent is one of the survivors.
proof fn lemma_keep_prefix_subset(alive: Seq<SnakeView>, t: int)
    requires
        0 <= t <= alive.len(),
    ensures
        forall|i: int|
            0 <= i < keep_prefix(alive, t).len() ==> exists|k: int|
                0 <= k < t && alive[k] == #[trigger] keep_prefix(alive, t)[i],
        keep_prefix(alive, t).len() <= t,
    decreases t,
{
    if t > 0 {
        lemma_keep_prefix_subset(alive, t - 1);
        lemma_keep_prefix_step(alive, t - 1);
    } else {
        assert(alive.take(0) =~= Seq::<SnakeView>::empty());
        assert(keep_prefix(alive, 0).len() == 0);
    }
}

/// One step of `food_prefix`.
proof fn lemma_food_prefix_step(food: Seq<Coordinate>, ss: Seq<SnakeView>, k: int)
    requires
        0 <= k < food.len(),
    ensures
        food_prefix(food, ss, k + 1) == if !any_head_on(ss, food[k]) {
            food_prefix(food, ss, k).push(food[k])
        } else {
            food_prefix(food, ss, k)
        },
{
    reveal(Seq::filter);
    let s1 = food.take(k + 1);
    assert(s1.drop_last() =~= food.take(k));
    assert(s1.last() == food[k]);
}

/// `food_prefix` keeps, of each tile value, exactly the copies under no head.
proof fn lemma_food_prefix_count(food: Seq<Coordinate>, ss: Seq<SnakeView>, k: int, c: Coordinate)
    requires
        0 <= k <= food.len(),
    ensures
        food_prefix(food, ss, k).to_multiset().count(c) == if !any_head_on(ss, c) {
            food.take(k).to_multiset().count(c)
        } else {
            0
        },
    decreases k,
{
    if k > 0 {
        lemma_food_prefix_count(food, ss, k - 1, c);
        lemma_food_prefix_step(food, ss, k - 1);
        assert(food.take(k) =~= food.take(k - 1).push(food[k - 1]));
        assert(food.take(k).to_multiset() =~= food.take(k - 1).to_multiset().insert(food[k - 1]));
        if !any_head_on(ss, food[k - 1]) {
            assert(food_prefix(food, ss, k).to_multiset() =~= food_prefix(
                food,
                ss,
                k - 1,
            ).to_multiset().insert(food[k - 1]));
        }
    } else {
        assert(food.take(0) =~= Seq::<Coordinate>::empty());
        assert(food_prefix(food, ss, 0).len() == 0);
        assert(food_prefix(food, ss, 0).to_multiset() =~= Seq::<Coordinate>::empty().to_multiset());
    }
}

impl Board {
    /// Advance the board one tick under the rules: feed every serpent whose
    /// head sits on food and consume those tiles; remove serpents that
    /// starved below `minimum_food` or left the grid; then remove every
    /// serpent that lost a head-to-head or ran into a body, all marks taken
    /// simultaneously; finally count the turn.
    #[verifier::rlimit(100)]
    pub fn game_step(&mut self, ruleset: &Ruleset)
        requires
            old(self)@.dims_ok(),
            old(self)@.snakes_ok(),
            old(self)@.food_ok(),
            forall|i: int|
                0 <= i < old(self)@.snakes.len() ==> (#[trigger] old(self)@.snakes[i]).length
                    < usize::MAX,
            old(self)@.turn < i32::MAX,
        ensures
            final(self)@.snakes == step_snakes(old(self)@, ruleset@.minimum_food),
            final(self)@.food == feed_food(old(self)@.food, old(self)@.snakes, 0),
            final(self)@.food.to_multiset() == step_food(old(self)@).to_multiset(),
            (forall|j: int|
                0 <= j < old(self)@.food.len() ==> !any_head_on(
                    old(self)@.snakes,
                    #[trigger] old(self)@.food[j],
                )) ==> final(self)@.food == old(self)@.food,
            final(self)@.turn == old(self)@.turn + 1,
            final(self)@.width == old(self)@.width,
            final(self)@.height == old(self)@.height,
            final(self)@.hazards == old(self)@.hazards,
            final(self)@.max_snakes == old(self)@.max_snakes,
            final(self)@.dims_ok(),
            final(self)@.snakes_ok(),
            final(self)@.food_ok(),
            forall|i: int|
                0 <= i < final(self)@.snakes.len() ==> survives_alone(
                    #[trigger] final(self)@.snakes[i],
                    old(self)@.width,
                    old(self)@.height,
                    ruleset@.minimum_food,
                ),
            forall|i: int|
                0 <= i < final(self)@.snakes.len() ==> from_old(
                    #[trigger] final(self)@.snakes[i],
                    old(self)@.snakes,
                ),
    {
        let ghost bv0 = old(self)@;
        let ghost ss0 = bv0.snakes;

        // Feed: every head on a food tile eats it; the tile is consumed once,
        // by unordered swap-remove.
        let ghost mut removed: Seq<Coordinate> = Seq::empty();
        let mut i: usize = 0;
        while i < self.food.len()
            invariant
                self@.width == bv0.width,
                self@.height == bv0.height,
                self@.hazards == bv0.hazards,
                self@.max_snakes == bv0.max_snakes,
                self@.turn == bv0.turn,
                0 <= i <= self@.food.len(),
                forall|j: int| 0 <= j < i ==> !any_head_on(ss0, #[trigger] self@.food[j]),
                self@.food.to_multiset().add(removed.to_multiset()) == bv0.food.to_multiset(),
                forall|c: Coordinate| #[trigger] removed.contains(c) ==> any_head_on(ss0, c),
                forall|c: Coordinate| #[trigger] removed.contains(c) ==> !self@.food.contains(c),
                forall|j: int|
                    0 <= j < self@.food.len() ==> bv0.food.contains(#[trigger] self@.food[j]),
                forall|a: int, b: int|
                    0 <= a < self@.food.len() && 0 <= b < self@.food.len() && a != b
                        ==> #[trigger] self@.food[a] != #[trigger] self@.food[b],
                removed.len() == 0 ==> self@.food == bv0.food,
                feed_food(self@.food, ss0, i as int) == feed_food(bv0.food, ss0, 0),
                self@.snakes.len() == ss0.len(),
                forall|t: int|
                    0 <= t < ss0.len() ==> #[trigger] self@.snakes[t] == (if removed.contains(
                        ss0[t].head,
                    ) {
                        ss0[t].fed()
                    } else {
                        ss0[t]
                    }),
                bv0.snakes_ok(),
                bv0.food_ok(),
                ss0 == bv0.snakes,
                forall|t: int| 0 <= t < ss0.len() ==> (#[trigger] ss0[t]).length < usize::MAX,
            decreases self@.food.len() - i,
        {
            let mut food_eaten = false;
            let foodi = self.food[i];
            let ghost food_at_i = self@.food;
            let ghost removed_at_i = removed;
            let mut j: usize = 0;
            while j < self.snakes.len()
                invariant
                    0 <= j <= self@.snakes.len(),
                    0 <= i < self@.food.len(),
                    foodi == self@.food[i as int],
                    self@.snakes.len() == ss0.len(),
                    self@.food.to_multiset().add(removed.to_multiset()) == bv0.food.to_multiset(),
                    forall|c: Coordinate| #[trigger] removed.contains(c) ==> any_head_on(ss0, c),
                    forall|c: Coordinate| #[trigger] removed.contains(c) ==> !self@.food.contains(
                        c,
                    ),
                    forall|jj: int| 0 <= jj < i ==> !any_head_on(ss0, #[trigger] self@.food[jj]),
                    forall|jj: int|
                        0 <= jj < self@.food.len() ==> bv0.food.contains(#[trigger] self@.food[jj]),
                    forall|a: int, b: int|
                        0 <= a < self@.food.len() && 0 <= b < self@.food.len() && a != b
                            ==> #[trigger] self@.food[a] != #[trigger] self@.food[b],
                    removed.len() == 0 ==> self@.food == bv0.food,
                    feed_food(self@.food, ss0, i as int) == feed_food(bv0.food, ss0, 0),
                    forall|t: int|
                        0 <= t < ss0.len() ==> #[trigger] self@.snakes[t] == (if removed.contains(
                            ss0[t].head,
                        ) || (t < j && ss0[t].head == foodi) {
                            ss0[t].fed()
                        } else {
                            ss0[t]
                        }),
                    food_eaten == exists|t: int| 0 <= t < j && (#[trigger] ss0[t]).head == foodi,
                    self@.width == bv0.width,
                    self@.height == bv0.height,
                    self@.hazards == bv0.hazards,
                    self@.max_snakes == bv0.max_snakes,
                    self@.turn == bv0.turn,
                    bv0.snakes_ok(),
                    ss0 == bv0.snakes,
                    self@.food == food_at_i,
                    removed == removed_at_i,
                    forall|t: int| 0 <= t < ss0.len() ==> (#[trigger] ss0[t]).length < usize::MAX,
                decreases self@.snakes.len() - j,
            {
                let ghost snakes_pre = self@.snakes;
                proof {
                    let jj = j as int;
                    assert(bv0.snakes[jj].wf());
                    assert(bv0.snakes[jj].length < usize::MAX);
                    assert(ss0[jj].fed().head == ss0[jj].head);
                    assert(self@.snakes[jj].head == ss0[jj].head);
                }
                if self.snakes[j].get_head() == foodi {
                    proof {
                        let jj = j as int;
                        if removed.contains(ss0[jj].head) {
                            assert(self@.food[i as int] == foodi);
                            assert(self@.food.contains(foodi));
                            assert(false);
                        }
                        assert(self@.snakes[jj] == ss0[jj]);
                        assert(ss0[jj].wf());
                    }
                    food_eaten = true;
                    self.snakes[j].eat_food();
                    proof {
                        let jj = j as int;
                        assert(self@.snakes =~= snakes_pre.update(jj, ss0[jj].fed()));
                        assert forall|t: int| 0 <= t < ss0.len() implies #[trigger] self@.snakes[t]
                            == (if removed.contains(ss0[t].head) || (t < j + 1 && ss0[t].head
                            == foodi) {
                            ss0[t].fed()
                        } else {
                            ss0[t]
                        }) by {
                            if t != jj {
                                assert(self@.snakes[t] == snakes_pre[t]);
                            }
                        }
                    }
                }
                j = j + 1;
            }
            if food_eaten {
                let ghost food_pre = self@.food;
                self.food.swap_remove(i);
                proof {
                    let fi = i as int;
                    let n = food_pre.len() as int;
                    assert(self@.food =~= food_pre.update(fi, food_pre.last()).drop_last());
                    assert(self@.food.to_multiset() =~= food_pre.to_multiset().remove(
                        food_pre[fi],
                    )) by {
                        assert(food_pre.remove(fi).to_multiset() =~= food_pre.to_multiset().remove(
                            food_pre[fi],
                        ));
                        assert(self@.food.to_multiset() =~= food_pre.remove(fi).to_multiset()) by {
                            if fi == n - 1 {
                                assert(self@.food =~= food_pre.remove(fi));
                            } else {
                                let a = self@.food;
                                let b = food_pre.remove(fi);
                                // Both lists hold the same tiles: `a` has the
                                // last entry moved into slot `fi`, `b` keeps
                                // the order of the list before the removal.
                                let pre = food_pre.subrange(0, fi);
                                let mid = food_pre.subrange(fi + 1, n - 1);
                                let lastv = seq![food_pre[n - 1]];
                                assert(a =~= pre + lastv + mid);
                                assert(b =~= pre + mid + lastv);
                                vstd::seq_lib::lemma_multiset_commutative(pre + lastv, mid);
                                vstd::seq_lib::lemma_multiset_commutative(pre + mid, lastv);
                                vstd::seq_lib::lemma_multiset_commutative(pre, lastv);
                                vstd::seq_lib::lemma_multiset_commutative(pre, mid);
                                assert(a.to_multiset() =~= b.to_multiset());
                            }
                        }
                    }
                    let ghost removed_pre = removed;
                    removed = removed.push(foodi);
                    assert(removed.to_multiset() =~= removed_pre.to_multiset().insert(foodi));
                    assert(food_pre[fi] == foodi);
                    assert(self@.food.to_multiset().add(removed.to_multiset())
                        =~= bv0.food.to_multiset()) by {
                        assert(food_pre.to_multiset().count(foodi) > 0);
                    }
                    assert(any_head_on(ss0, foodi));
                    assert forall|c: Coordinate| #[trigger] removed.contains(c)
                        implies any_head_on(ss0, c) by {
                        let k = choose|k: int| 0 <= k < removed.len() && removed[k] == c;
                        if k < removed.len() - 1 {
                            assert(removed_pre[k] == c);
                            assert(removed_pre.contains(c));
                        }
                    }
                    assert forall|c: Coordinate| #[trigger] removed.contains(c)
                        implies !self@.food.contains(c) by {
                        if self@.food.contains(c) {
                            let m = choose|m: int|
                                0 <= m < self@.food.len() && self@.food[m] == c;
                            let mo = if m == fi {
                                n - 1
                            } else {
                                m
                            };
                            assert(food_pre[mo] == c);
                            let k = choose|k: int| 0 <= k < removed.len() && removed[k] == c;
                            if k < removed.len() - 1 {
                                assert(removed_pre[k] == c);
                                assert(removed_pre.contains(c));
                                assert(!food_pre.contains(c));
                                assert(food_pre.contains(food_pre[mo]));
                            } else {
                                // The just-consumed tile would still be
                                // present, although the list held it once.
                                assert(c == foodi);
                                assert(mo != fi && food_pre[mo] == food_pre[fi]);
                            }
                        }
                    }
                    assert forall|a: int, b: int|
                        0 <= a < self@.food.len() && 0 <= b < self@.food.len() && a
                            != b implies #[trigger] self@.food[a] != #[trigger] self@.food[b] by {
                        let ao = if a == fi {
                            n - 1
                        } else {
                            a
                        };
                        let bo = if b == fi {
                            n - 1
                        } else {
                            b
                        };
                        assert(self@.food[a] == food_pre[ao] && self@.food[b] == food_pre[bo]);
                    }
                    assert forall|jj: int|
                        0 <= jj < self@.food.len() implies bv0.food.contains(
                        #[trigger] self@.food[jj],
                    ) by {
                        let jo = if jj == fi {
                            n - 1
                        } else {
                            jj
                        };
                        assert(self@.food[jj] == food_pre[jo]);
                        assert(food_pre.contains(food_pre[jo]));
                    }
                    assert forall|jj: int| 0 <= jj < i implies !any_head_on(
                        ss0,
                        #[trigger] self@.food[jj],
                    ) by {
                        assert(self@.food[jj] == food_pre[jj]);
                    }
                    assert forall|t: int| 0 <= t < ss0.len() implies #[trigger] self@.snakes[t]
                        == (if removed.contains(ss0[t].head) {
                        ss0[t].fed()
                    } else {
                        ss0[t]
                    }) by {
                        if removed.contains(ss0[t].head) {
                            let k = choose|k: int|
                                0 <= k < removed.len() && removed[k] == ss0[t].head;
                            if k < removed.len() - 1 {
                                assert(removed_pre[k] == ss0[t].head);
                                assert(removed_pre.contains(ss0[t].head));
                            } else {
                                assert(ss0[t].head == foodi);
                            }
                        } else {
                            if removed_pre.contains(ss0[t].head) {
                                let k = choose|k: int|
                                    0 <= k < removed_pre.len() && removed_pre[k] == ss0[t].head;
                                assert(removed[k] == ss0[t].head);
                            }
                            assert(removed[removed.len() - 1] == foodi);
                            assert(removed.contains(foodi));
                            assert(ss0[t].head != foodi);
                        }
                    }
                    // One consumed tile unfolds one swap-remove of the spec.
                    assert(any_head_on(ss0, food_pre[fi]));
                    assert(feed_food(food_pre, ss0, fi) == feed_food(
                        food_pre.update(fi, food_pre.last()).drop_last(),
                        ss0,
                        fi,
                    ));
                    assert(self@.food == food_pre.update(fi, food_pre.last()).drop_last());
                }
            } else {
                proof {
                    assert(!any_head_on(ss0, self@.food[i as int]));
                    assert(feed_food(self@.food, ss0, i as int) == feed_food(
                        self@.food,
                        ss0,
                        i + 1,
                    ));
                }
                i = i + 1;
            }
        }

        proof {
            assert(feed_food(self@.food, ss0, i as int) == self@.food);
            // Every tile was visited: the fed serpents and remaining food are
            // exactly as the one-tick rules say.
            assert(self@.snakes =~= fed_snakes(ss0, bv0.food)) by {
                assert forall|t: int| 0 <= t < ss0.len() implies #[trigger] self@.snakes[t] == (
                if bv0.food.contains(ss0[t].head) {
                    ss0[t].fed()
                } else {
                    ss0[t]
                }) by {
                    if bv0.food.contains(ss0[t].head) {
                        if !removed.contains(ss0[t].head) {
                            assert(removed.to_multiset().count(ss0[t].head) == 0);
                            assert(bv0.food.to_multiset().count(ss0[t].head) > 0);
                            assert(self@.food.to_multiset().count(ss0[t].head) > 0);
                            assert(self@.food.contains(ss0[t].head));
                            let m = choose|m: int|
                                0 <= m < self@.food.len() && self@.food[m] == ss0[t].head;
                            assert(!any_head_on(ss0, self@.food[m]));
                            assert(false);
                        }
                    } else {
                        if removed.contains(ss0[t].head) {
                            assert(removed.to_multiset().count(ss0[t].head) > 0);
                            assert(bv0.food.to_multiset().count(ss0[t].head) > 0);
                            assert(bv0.food.contains(ss0[t].head));
                            assert(false);
                        }
                    }
                }
            }
            assert(self@.food.to_multiset() =~= step_food(bv0).to_multiset()) by {
                assert forall|c: Coordinate|
                    self@.food.to_multiset().count(c) == step_food(bv0).to_multiset().count(
                        c,
                    ) by {
                    lemma_food_prefix_count(bv0.food, ss0, bv0.food.len() as int, c);
                    assert(bv0.food.take(bv0.food.len() as int) =~= bv0.food);
                    lemma_distinct_count(bv0.food, c);
                    if !any_head_on(ss0, c) {
                        if removed.contains(c) {
                            assert(false);
                        }
                        assert(removed.to_multiset().count(c) == 0);
                    } else {
                        if self@.food.to_multiset().count(c) > 0 {
                            assert(self@.food.contains(c));
                            let m = choose|m: int|
                                0 <= m < self@.food.len() && self@.food[m] == c;
                            assert(!any_head_on(ss0, self@.food[m]));
                            assert(false);
                        }
                    }
                }
            }
            // If no tile sat under a head, nothing was consumed.
            if forall|j: int|
                0 <= j < bv0.food.len() ==> !any_head_on(ss0, #[trigger] bv0.food[j]) {
                if removed.len() > 0 {
                    assert(removed.contains(removed[0]));
                    assert(removed.to_multiset().count(removed[0]) > 0);
                    assert(bv0.food.to_multiset().count(removed[0]) > 0);
                    assert(bv0.food.contains(removed[0]));
                    let k = choose|k: int| 0 <= k < bv0.food.len() && bv0.food[k] == removed[0];
                    assert(!any_head_on(ss0, bv0.food[k]));
                    assert(false);
                }
            }
        }

        // Starvation and bounds: remove every serpent below the health
        // threshold or with its head off the grid.
        let ghost fed = self@.snakes;
        let ghost w = bv0.width;
        let ghost h = bv0.height;
        let ghost mf = ruleset@.minimum_food;
        let ghost food_done = self@.food;
        let minimum_food = ruleset.get_minimum_food();
        let mut i: usize = 0;
        let ghost mut processed: int = 0;
        while i < self.snakes.len()
            invariant
                0 <= processed <= fed.len(),
                self@.snakes == alive_prefix(fed, processed, w, h, mf) + fed.skip(processed),
                i as int == alive_prefix(fed, processed, w, h, mf).len(),
                self@.width == bv0.width,
                self@.height == bv0.height,
                self@.hazards == bv0.hazards,
                self@.max_snakes == bv0.max_snakes,
                self@.turn == bv0.turn,
                self@.food == food_done,
                self@.dims_ok(),
                minimum_food as int == mf,
                w == bv0.width,
                h == bv0.height,
            decreases fed.len() - processed,
        {
            proof {
                lemma_alive_prefix_subset(fed, processed, w, h, mf);
                assert(self@.snakes[i as int] == fed[processed]);
                lemma_alive_prefix_step(fed, processed, w, h, mf);
            }
            let snake = &self.snakes[i];
            proof {
                assert(snake@ == self@.snakes[i as int]);
            }
            let x = snake.get_head().get_x();
            let y = snake.get_head().get_y();
            let starved_or_out = snake.get_health() < minimum_food || x < 0 || x > self.width - 1
                || y < 0 || y > self.height - 1;
            proof {
                assert(starved_or_out == !survives_alone(fed[processed], w, h, mf));
            }
            if starved_or_out {
                let ghost sv_pre = self@.snakes;
                self.snakes.remove(i);
                proof {
                    processed = processed + 1;
                    let p0 = processed - 1;
                    let ii = i as int;
                    assert(self@.snakes =~= sv_pre.remove(ii));
                    let ap = alive_prefix(fed, processed, w, h, mf);
                    assert(ap == alive_prefix(fed, p0, w, h, mf));
                    assert forall|ww: int|
                        0 <= ww < sv_pre.remove(ii).len() implies sv_pre.remove(ii)[ww] == (ap
                        + fed.skip(processed))[ww] by {
                        if ww >= ii {
                            assert(sv_pre.remove(ii)[ww] == sv_pre[ww + 1]);
                            assert(sv_pre[ww + 1] == fed.skip(p0)[ww + 1 - ii]);
                            assert(fed.skip(p0)[ww + 1 - ii] == fed[p0 + (ww + 1 - ii)]);
                            assert((ap + fed.skip(processed))[ww] == fed.skip(processed)[ww - ii]);
                            assert(fed.skip(processed)[ww - ii] == fed[processed + (ww - ii)]);
                        }
                    }
                    assert(self@.snakes =~= ap + fed.skip(processed));
                }
            } else {
                i = i + 1;
                proof {
                    processed = processed + 1;
                    assert(self@.snakes =~= alive_prefix(fed, processed, w, h, mf) + fed.skip(
                        processed,
                    ));
                }
            }
        }
        let ghost alive = alive_prefix(fed, fed.len() as int, w, h, mf);
        proof {
            assert(processed == fed.len());
            assert(fed.skip(processed) =~= Seq::<SnakeView>::empty());
            assert(self@.snakes =~= alive);
            assert(self@.snakes == alive);
            // Ids never repeat among the survivors.
            assert(fed.len() == ss0.len());
            assert forall|t: int| 0 <= t < fed.len() implies (#[trigger] fed[t]).id
                == ss0[t].id by {
                assert(fed[t] == ss0[t] || fed[t] == ss0[t].fed());
            }
            lemma_alive_prefix_distinct(fed, fed.len() as int, w, h, mf);
        }

        // Collisions: collect every id eliminated against any remaining
        // serpent, itself included, then drop them all in one pass.
        let mut to_remove: Vec<u8> = Vec::new();
        let n = self.snakes.len();
        let mut a: usize = 0;
        while a < n
            invariant
                0 <= a <= n,
                n == self@.snakes.len(),
                self@.snakes == alive,
                forall|t: int|
                    0 <= t < a ==> (doomed(#[trigger] alive[t], alive) <==> to_remove@.contains(
                        alive[t].id,
                    )),
                forall|id: u8| #[trigger]
                    to_remove@.contains(id) ==> exists|t: int|
                        0 <= t < a && (#[trigger] alive[t]).id == id && doomed(alive[t], alive),
                forall|t: int, u: int|
                    0 <= t < alive.len() && 0 <= u < alive.len() && t != u ==> #[trigger] alive[
                        t].id != #[trigger] alive[u].id,
            decreases n - a,
        {
            let mut hit = false;
            let mut b: usize = 0;
            while b < n
                invariant
                    0 <= b <= n,
                    0 <= a < n,
                    n == self@.snakes.len(),
                    self@.snakes == alive,
                    hit == exists|t: int|
                        0 <= t < b && ((#[trigger] alive[a as int]).lost_headon_spec(alive[t])
                            || alive[a as int].body_collision_spec(alive[t])),
                decreases n - b,
            {
                let clash = self.snakes[a].lost_headon(&self.snakes[b])
                    || self.snakes[a].body_collision_with(&self.snakes[b]);
                if clash && !hit {
                    hit = true;
                }
                proof {
                    if clash {
                        assert(alive[a as int].lost_headon_spec(alive[b as int]) || alive[
                        a as int].body_collision_spec(alive[b as int]));
                    }
                }
                b = b + 1;
            }
            proof {
                assert(hit == doomed(alive[a as int], alive));
            }
            let ghost listed_pre = to_remove@;
            if hit {
                to_remove.push(self.snakes[a].get_id());
            }
            proof {
                if hit {
                    assert(to_remove@ =~= listed_pre.push(alive[a as int].id));
                    assert forall|id: u8| #[trigger] to_remove@.contains(id) implies exists|t: int|
                        0 <= t < a + 1 && (#[trigger] alive[t]).id == id && doomed(
                            alive[t],
                            alive,
                        ) by {
                        let k = choose|k: int| 0 <= k < to_remove@.len() && to_remove@[k] == id;
                        if k < to_remove@.len() - 1 {
                            assert(listed_pre[k] == id);
                            assert(listed_pre.contains(id));
                        } else {
                            assert(alive[a as int].id == id && doomed(alive[a as int], alive));
                        }
                    }
                    assert forall|t: int| 0 <= t < a + 1 implies (doomed(
                        #[trigger] alive[t],
                        alive,
                    ) <==> to_remove@.contains(alive[t].id)) by {
                        if t < a {
                            if to_remove@.contains(alive[t].id) && !listed_pre.contains(
                                alive[t].id,
                            ) {
                                let k = choose|k: int|
                                    0 <= k < to_remove@.len() && to_remove@[k] == alive[t].id;
                                assert(k == to_remove@.len() - 1);
                                assert(alive[t].id == alive[a as int].id);
                            }
                            if listed_pre.contains(alive[t].id) {
                                let k = choose|k: int|
                                    0 <= k < listed_pre.len() && listed_pre[k] == alive[t].id;
                                assert(to_remove@[k] == alive[t].id);
                            }
                        } else {
                            assert(to_remove@[to_remove@.len() - 1] == alive[t].id);
                        }
                    }
                } else {
                    assert forall|t: int| 0 <= t < a + 1 implies (doomed(
                        #[trigger] alive[t],
                        alive,
                    ) <==> to_remove@.contains(alive[t].id)) by {
                        if t == a {
                            if to_remove@.contains(alive[t].id) {
                                let k = choose|k: int|
                                    0 <= k < a && (#[trigger] alive[k]).id == alive[t].id
                                        && doomed(alive[k], alive);
                            }
                        }
                    }
                }
            }
            a = a + 1;
        }

        let mut kept: Vec<crate::battlesnake::Battlesnake> = Vec::new();
        let mut t: usize = 0;
        while t < n
            invariant
                0 <= t <= n,
                n == self@.snakes.len(),
                self@.snakes == alive,
                crate::board::snakes_view(kept@) == keep_prefix(alive, t as int),
                forall|ww: int, u: int|
                    0 <= ww < alive.len() && 0 <= u < alive.len() && ww != u ==> #[trigger] alive[
                        ww].id != #[trigger] alive[u].id,
                forall|ww: int|
                    0 <= ww < alive.len() ==> (doomed(#[trigger] alive[ww], alive)
                        <==> to_remove@.contains(alive[ww].id)),
            decreases n - t,
        {
            proof {
                lemma_keep_prefix_step(alive, t as int);
            }
            let mut listed = false;
            let mut r: usize = 0;
            let id_t = self.snakes[t].get_id();
            while r < to_remove.len()
                invariant
                    0 <= r <= to_remove@.len(),
                    id_t == alive[t as int].id,
                    0 <= t < alive.len(),
                    self@.snakes == alive,
                    listed == exists|ww: int| 0 <= ww < r && to_remove@[ww] == id_t,
                decreases to_remove@.len() - r,
            {
                if to_remove[r] == id_t {
                    listed = true;
                }
                r = r + 1;
            }
            proof {
                if listed {
                    let k = choose|ww: int| 0 <= ww < to_remove@.len() && to_remove@[ww] == id_t;
                    assert(to_remove@.contains(id_t));
                }
                if to_remove@.contains(id_t) {
                    let k = choose|ww: int| 0 <= ww < to_remove@.len() && to_remove@[ww] == id_t;
                    assert(listed);
                }
                assert(listed == doomed(alive[t as int], alive));
            }
            let ghost kept_pre = kept@;
            if !listed {
                kept.push(self.snakes[t].clone());
            }
            proof {
                if !listed {
                    assert(kept@.len() == kept_pre.len() + 1);
                    assert(kept@[kept_pre.len() as int]@ == alive[t as int]);
                    assert(crate::board::snakes_view(kept@) =~= crate::board::snakes_view(
                        kept_pre,
                    ).push(alive[t as int]));
                } else {
                    assert(crate::board::snakes_view(kept@) =~= crate::board::snakes_view(
                        kept_pre,
                    ));
                }
            }
            t = t + 1;
        }
        self.snakes = kept;
        self.increment_turn();

        proof {
            assert(alive.take(n as int) =~= alive);
            assert(self@.snakes == keep_prefix(alive, alive.len() as int));
            assert(self@.snakes == step_snakes(bv0, ruleset@.minimum_food));
            lemma_keep_prefix_subset(alive, alive.len() as int);
            lemma_alive_prefix_subset(fed, fed.len() as int, w, h, mf);
            // Survival, provenance, and the board invariants carry over.
            assert forall|ww: int| 0 <= ww < self@.snakes.len() implies survives_alone(
                #[trigger] self@.snakes[ww],
                bv0.width,
                bv0.height,
                ruleset@.minimum_food,
            ) by {
                let k = choose|k: int|
                    0 <= k < alive.len() && alive[k] == self@.snakes[ww];
                lemma_alive_prefix_step(fed, 0, w, h, mf);
                assert(alive[k] == alive_prefix(fed, fed.len() as int, w, h, mf)[k]);
                alive_prefix_pred(fed, fed.len() as int, w, h, mf, k);
            }
            assert forall|ww: int| 0 <= ww < self@.snakes.len() implies from_old(
                #[trigger] self@.snakes[ww],
                old(self)@.snakes,
            ) by {
                let nn = alive.len() as int;
                assert(self@.snakes[ww] == keep_prefix(alive, nn)[ww]);
                let k = choose|k: int| 0 <= k < nn && alive[k] == keep_prefix(alive, nn)[ww];
                let fl = fed.len() as int;
                assert(alive_prefix(fed, fl, w, h, mf)[k] == alive[k]);
                let m = choose|m: int|
                    0 <= m < fl && fed[m] == alive_prefix(fed, fl, w, h, mf)[k];
                assert(fed == fed_snakes(ss0, bv0.food));
                assert(fed[m] == ss0[m] || fed[m] == ss0[m].fed());
                assert(self@.snakes[ww] == fed[m]);
                assert(old(self)@.snakes[m] == ss0[m]);
            }
            assert(self@.snakes_ok()) by {
                lemma_filter_keep_distinct(alive, alive.len() as int);
                assert forall|ww: int| 0 <= ww < self@.snakes.len() implies (
                #[trigger] self@.snakes[ww]).wf() && self@.snakes[ww].id < self@.max_snakes by {
                    let k = choose|k: int|
                        0 <= k < alive.len() && alive[k] == self@.snakes[ww];
                    let m = choose|m: int| 0 <= m < fed.len() && fed[m] == alive[k];
                    assert(ss0[m].wf());
                    assert(ss0[m].fed().wf());
                    assert(ss0[m].fed().id == ss0[m].id);
                }
            }
            assert(self@.food_ok()) by {
                assert forall|ww: int| 0 <= ww < self@.food.len() implies self@.in_bounds(
                    #[trigger] self@.food[ww],
                ) by {
                    assert(bv0.food.contains(self@.food[ww]));
                    let k = choose|k: int| 0 <= k < bv0.food.len() && bv0.food[k] == self@.food[ww];
                    assert(bv0.in_bounds(bv0.food[k]));
                }
            }
        }
    }
}

/// An entry of `alive_prefix` passed the survival test.
proof fn alive_prefix_pred(fed: Seq<SnakeView>, p: int, w: int, h: int, mf: int, k: int)
    requires
        0 <= p <= fed.len(),
        0 <= k < alive_prefix(fed, p, w, h, mf).len(),
    ensures
        survives_alone(alive_prefix(fed, p, w, h, mf)[k], w, h, mf),
    decreases p,
{
    if p > 0 {
        lemma_alive_prefix_step(fed, p - 1, w, h, mf);
        if k < alive_prefix(fed, p - 1, w, h, mf).len() {
            alive_prefix_pred(fed, p - 1, w, h, mf, k);
        }
    }
}

/// Survivors with pairwise distinct ids stay distinct after the collision
/// pass.
proof fn lemma_filter_keep_distinct(alive: Seq<SnakeView>, t: int)
    requires
        0 <= t <= alive.len(),
        forall|i: int, j: int|
            0 <= i < alive.len() && 0 <= j < alive.len() && i != j ==> #[trigger] alive[i].id
                != #[trigger] alive[j].id,
    ensures
        forall|i: int, j: int|
            0 <= i < keep_prefix(alive, t).len() && 0 <= j < keep_prefix(alive, t).len() && i != j
                ==> #[trigger] keep_prefix(alive, t)[i].id != #[trigger] keep_prefix(alive, t)[j].id,
    decreases t,
{
    if t > 0 {
        lemma_filter_keep_distinct(alive, t - 1);
        lemma_keep_prefix_step(alive, t - 1);
        lemma_keep_prefix_subset(alive, t - 1);
        let prev = keep_prefix(alive, t - 1);
        let cur = keep_prefix(alive, t);
        if !doomed(alive[t - 1], alive) {
            assert forall|i: int, j: int|
                0 <= i < cur.len() && 0 <= j < cur.len() && i != j implies #[trigger] cur[i].id
                != #[trigger] cur[j].id by {
                if i < prev.len() && j < prev.len() {
                } else {
                    let inner = if i < prev.len() {
                        i
                    } else {
                        j
                    };
                    let k = choose|k: int| 0 <= k < t - 1 && alive[k] == prev[inner];
                    assert(alive[k].id != alive[t - 1].id);
                }
            }
        }
    }
}

/// A tick of a board with no serpents and no food changes nothing: the
/// serpent and food lists stay empty, so only the turn counter moves.
pub proof fn lemma_step_idle(bv: BoardView, minimum_food: int)
    requires
        bv.snakes.len() == 0,
        bv.food.len() == 0,
    ensures
        step_snakes(bv, minimum_food) == Seq::<SnakeView>::empty(),
        step_food(bv) == Seq::<Coordinate>::empty(),
{
    reveal(Seq::filter);
    let fed = fed_snakes(bv.snakes, bv.food);
    assert(fed =~= Seq::<SnakeView>::empty());
    assert(fed.take(0) =~= Seq::<SnakeView>::empty());
    let alive = alive_prefix(fed, 0, bv.width, bv.height, minimum_food);
    assert(alive =~= Seq::<SnakeView>::empty());
    assert(alive.take(0) =~= Seq::<SnakeView>::empty());
    assert(step_snakes(bv, minimum_food) =~= Seq::<SnakeView>::empty());
    assert(bv.food.take(0) =~= Seq::<Coordinate>::empty());
    assert(step_food(bv) =~= Seq::<Coordinate>::empty());
}

/// A sequence of pairwise distinct elements holds each value at most once.
proof fn lemma_distinct_count(cs: Seq<Coordinate>, c: Coordinate)
    requires
        forall|i: int, j: int|
            0 <= i < cs.len() && 0 <= j < cs.len() && i != j ==> #[trigger] cs[i] != #[trigger] cs[j],
    ensures
        cs.to_multiset().count(c) <= 1,
    decreases cs.len(),
{
    if cs.len() > 0 {
        let dl = cs.drop_last();
        lemma_distinct_count(dl, c);
        assert(cs =~= dl.push(cs.last()));
        assert(cs.to_multiset() =~= dl.to_multiset().insert(cs.last()));
        if cs.last() == c {
            if dl.to_multiset().count(c) > 0 {
                assert(dl.contains(c));
                let k = choose|k: int| 0 <= k < dl.len() && dl[k] == c;
                assert(cs[k] == cs[cs.len() - 1]);
            }
        }
    }
}

} // verus!
