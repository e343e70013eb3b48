use vstd::prelude::*;

use crate::battlesnake::SnakeView;
use crate::board::{Board, BoardView};
use crate::coordinate::Coordinate;
use crate::longest_path::step_towards;
use crate::evaluate::is_live_id;
use crate::ruleset::Ruleset;

verus! {

/// The claim lattice of one tile during area control: free, claimed by one
/// serpent, or written off. A tile never returns to an earlier state.
#[derive(Clone, Copy, Debug, PartialEq, Eq, Structural)]
pub enum TileStatus {
    Empty,
    Gone,
    Taken(u8),
}

pub open spec fn is_empty_tile(t: TileStatus) -> bool {
    t == TileStatus::Empty
}

pub open spec fn is_gone_tile(t: TileStatus) -> bool {
    t == TileStatus::Gone
}

/// How many tiles of the grid are still free.
pub open spec fn count_empty(g: Seq<TileStatus>) -> int
    decreases g.len(),
{
    if g.len() == 0 {
        0
    } else {
        count_empty(g.drop_last()) + if is_empty_tile(g.last()) {
            1int
        } else {
            0int
        }
    }
}

/// How many tiles of the grid are written off.
pub open spec fn count_gone(g: Seq<TileStatus>) -> int
    decreases g.len(),
{
    if g.len() == 0 {
        0
    } else {
        count_gone(g.drop_last()) + if is_gone_tile(g.last()) {
            1int
        } else {
            0int
        }
    }
}

/// The sum of a list of tile counts.
pub open spec fn sum_seq(s: Seq<i32>) -> int
    decreases s.len(),
{
    if s.len() == 0 {
        0
    } else {
        sum_seq(s.drop_last()) + s.last()
    }
}

pub proof fn lemma_count_empty_bounds(g: Seq<TileStatus>)
    ensures
        0 <= count_empty(g) <= g.len(),
        0 <= count_gone(g) <= g.len(),
        count_empty(g) + count_gone(g) <= g.len(),
    decreases g.len(),
{
    if g.len() > 0 {
        lemma_count_empty_bounds(g.drop_last());
    }
}

/// A cell's own state bounds the census.
pub proof fn lemma_count_cell(g: Seq<TileStatus>, i: int)
    requires
        0 <= i < g.len(),
    ensures
        is_empty_tile(g[i]) ==> count_empty(g) >= 1,
        !is_empty_tile(g[i]) ==> count_empty(g) <= g.len() - 1,
        is_gone_tile(g[i]) ==> count_gone(g) >= 1,
        !is_gone_tile(g[i]) ==> count_gone(g) <= g.len() - 1,
    decreases g.len(),
{
    lemma_count_empty_bounds(g);
    if g.len() > 0 {
        lemma_count_empty_bounds(g.drop_last());
        if i < g.len() - 1 {
            lemma_count_cell(g.drop_last(), i);
        }
    }
}

pub proof fn lemma_count_empty_update(g: Seq<TileStatus>, i: int, v: TileStatus)
    requires
        0 <= i < g.len(),
    ensures
        count_empty(g.update(i, v)) == count_empty(g) + (if is_empty_tile(v) {
            1int
        } else {
            0int
        }) - (if is_empty_tile(g[i]) {
            1int
        } else {
            0int
        }),
        count_gone(g.update(i, v)) == count_gone(g) + (if is_gone_tile(v) {
            1int
        } else {
            0int
        }) - (if is_gone_tile(g[i]) {
            1int
        } else {
            0int
        }),
    decreases g.len(),
{
    let gu = g.update(i, v);
    if i == g.len() - 1 {
        assert(gu.drop_last() =~= g.drop_last());
        assert(gu.last() == v);
    } else {
        assert(gu.drop_last() =~= g.drop_last().update(i, v));
        assert(gu.last() == g.last());
        lemma_count_empty_update(g.drop_last(), i, v);
    }
}

pub proof fn lemma_sum_seq_update(s: Seq<i32>, i: int, v: i32)
    requires
        0 <= i < s.len(),
    ensures
        sum_seq(s.update(i, v)) == sum_seq(s) + v - s[i],
    decreases s.len(),
{
    let su = s.update(i, v);
    if i == s.len() - 1 {
        assert(su.drop_last() =~= s.drop_last());
        assert(su.last() == v);
    } else {
        assert(su.drop_last() =~= s.drop_last().update(i, v));
        assert(su.last() == s.last());
        lemma_sum_seq_update(s.drop_last(), i, v);
    }
}

/// Cells of the row-major grid are distinct for distinct on-grid tiles.
pub proof fn lemma_grid_index(w: int, h: int, x: int, y: int)
    requires
        1 <= w,
        1 <= h,
        0 <= x < w,
        0 <= y < h,
    ensures
        0 <= w * y,
        0 <= w * y + x < w * h,
{
    assert(0 <= w * y && 0 <= w * y + x < w * h) by (nonlinear_arith)
        requires
            1 <= w,
            1 <= h,
            0 <= x < w,
            0 <= y < h,
    ;
}

/// The segment at `k` blocks the spread at seeding time: the head, or any
/// segment other than the vacating tail.
pub open spec fn blocker_index(s: SnakeView, k: int) -> bool {
    0 <= k < s.body.len() && (k == 0 || k < s.body.len() - 1)
}

/// No two blocking segments share a tile: how every reachable game position
/// lays its serpents out.
pub open spec fn blockers_disjoint(bv: BoardView) -> bool {
    forall|i: int, k: int, i2: int, k2: int|
        0 <= i < bv.snakes.len() && 0 <= i2 < bv.snakes.len() && blocker_index(bv.snakes[i], k)
            && blocker_index(bv.snakes[i2], k2) && (i != i2 || k != k2)
            ==> #[trigger] bv.snakes[i].body[k] != #[trigger] bv.snakes[i2].body[k2]
}

/// How many interior segments the first `i` serpents carry: each body minus
/// its head and its tail.
pub open spec fn interior_total(ss: Seq<SnakeView>, i: int) -> int
    decreases i,
{
    if i <= 0 {
        0
    } else {
        interior_total(ss, i - 1) + (if ss[i - 1].body.len() >= 2 {
            ss[i - 1].body.len() - 2
        } else {
            0int
        })
    }
}

/// Every written-off cell of the seeded grid is some serpent's interior
/// segment, among the first `si` serpents and, within serpent `si` itself,
/// the first `ki` segments.
pub open spec fn gone_from_interior(
    bv: BoardView,
    grid: Seq<TileStatus>,
    si: int,
    ki: int,
) -> bool {
    forall|ci: int|
        0 <= ci < grid.len() && is_gone_tile(#[trigger] grid[ci]) ==> exists|t: int, k: int|
            #![trigger bv.snakes[t].body[k]]
            0 <= t < bv.snakes.len() && 1 <= k < bv.snakes[t].body.len() - 1 && (t < si || (t == si
                && k < ki)) && bv.width * bv.snakes[t].body[k].y + bv.snakes[t].body[k].x == ci
}


/// The row-major grid cell of a tile.
pub open spec fn cell_of(w: int, c: Coordinate) -> int {
    w * c.y + c.x
}

pub open spec fn empty_grid(n: int) -> Seq<TileStatus> {
    Seq::new(n as nat, |i: int| TileStatus::Empty)
}

pub open spec fn zero_counts(n: int) -> Seq<i32> {
    Seq::new(n as nat, |i: int| 0i32)
}

/// The grid after serpent `s` writes off its interior segments from `k` on.
pub open spec fn mark_interiors(grid: Seq<TileStatus>, s: SnakeView, w: int, k: int) -> Seq<
    TileStatus,
>
    decreases s.body.len() - k,
{
    if k < 1 || k >= s.body.len() - 1 {
        grid
    } else {
        let c = cell_of(w, s.body[k]);
        let g2 = if 0 <= c < grid.len() {
            grid.update(c, TileStatus::Gone)
        } else {
            grid
        };
        mark_interiors(g2, s, w, k + 1)
    }
}

/// The grid after the serpents from `i` on claim their head tiles and write
/// off their interiors, in board order.
pub open spec fn seed_grid(grid: Seq<TileStatus>, ss: Seq<SnakeView>, w: int, i: int) -> Seq<
    TileStatus,
>
    decreases ss.len() - i,
{
    if i < 0 || i >= ss.len() {
        grid
    } else {
        let c = cell_of(w, ss[i].head);
        let g1 = if 0 <= c < grid.len() {
            grid.update(c, TileStatus::Taken(ss[i].id))
        } else {
            grid
        };
        seed_grid(mark_interiors(g1, ss[i], w, 1), ss, w, i + 1)
    }
}

/// The slot where a serpent of length `lv` enters the worklist: before the
/// first entry of strictly smaller length.
pub open spec fn ins_pos(ss: Seq<SnakeView>, order: Seq<usize>, lv: int, p: int) -> int
    decreases order.len() - p,
{
    if p < 0 || p >= order.len() {
        order.len() as int
    } else if ss[order[p] as int].length < lv {
        p
    } else {
        ins_pos(ss, order, lv, p + 1)
    }
}

/// The longest-first worklist over the first `t` serpents, ties kept in
/// board order.
pub open spec fn sort_spec(ss: Seq<SnakeView>, t: int) -> Seq<usize>
    decreases t,
{
    if t <= 0 {
        Seq::empty()
    } else {
        let prev = sort_spec(ss, t - 1);
        prev.insert(ins_pos(ss, prev, ss[t - 1].length, 0), (t - 1) as usize)
    }
}

/// The seeded queue: one entry per serpent, in worklist order.
pub open spec fn seed_queue(ss: Seq<SnakeView>, order: Seq<usize>, t: int) -> Seq<(u8, Coordinate)>
    decreases t,
{
    if t <= 0 {
        Seq::empty()
    } else {
        seed_queue(ss, order, t - 1).push(
            (ss[order[t - 1] as int].id, ss[order[t - 1] as int].head),
        )
    }
}

/// The length of the serpent carrying `id`; with distinct ids the choice is
/// the one such serpent.
pub open spec fn length_of(ss: Seq<SnakeView>, id: u8) -> int {
    ss[choose|i: int| 0 <= i < ss.len() && (#[trigger] ss[i]).id == id].length
}

/// The spread from one popped entry over the four neighbours from `d` on:
/// a free tile is claimed and enqueued, a tile already claimed by an equally
/// long other serpent is written off and returned, everything else is left.
pub open spec fn visit_dirs(
    ss: Seq<SnakeView>,
    w: int,
    h: int,
    grid: Seq<TileStatus>,
    queue: Seq<(u8, Coordinate)>,
    areas: Seq<i32>,
    id: u8,
    pos: Coordinate,
    d: int,
) -> (Seq<TileStatus>, Seq<(u8, Coordinate)>, Seq<i32>)
    decreases 4 - d,
{
    if d < 0 || d >= 4 {
        (grid, queue, areas)
    } else {
        let npos = step_towards(pos, d);
        let c = cell_of(w, npos);
        if 0 <= npos.x < w && 0 <= npos.y < h && 0 <= c < grid.len() {
            match grid[c] {
                TileStatus::Empty => visit_dirs(
                    ss,
                    w,
                    h,
                    grid.update(c, TileStatus::Taken(id)),
                    queue.push((id, npos)),
                    areas.update(id as int, (areas[id as int] + 1) as i32),
                    id,
                    pos,
                    d + 1,
                ),
                TileStatus::Gone => visit_dirs(ss, w, h, grid, queue, areas, id, pos, d + 1),
                TileStatus::Taken(other) => {
                    if id != other && length_of(ss, id) == length_of(ss, other) {
                        visit_dirs(
                            ss,
                            w,
                            h,
                            grid.update(c, TileStatus::Gone),
                            queue,
                            areas.update(other as int, (areas[other as int] - 1) as i32),
                            id,
                            pos,
                            d + 1,
                        )
                    } else {
                        visit_dirs(ss, w, h, grid, queue, areas, id, pos, d + 1)
                    }
                },
            }
        } else {
            visit_dirs(ss, w, h, grid, queue, areas, id, pos, d + 1)
        }
    }
}

/// Spreading from one entry never grows the claim measure: every enqueue
/// takes a free tile.
proof fn lemma_visit_measure(
    ss: Seq<SnakeView>,
    w: int,
    h: int,
    grid: Seq<TileStatus>,
    queue: Seq<(u8, Coordinate)>,
    areas: Seq<i32>,
    id: u8,
    pos: Coordinate,
    d: int,
)
    ensures
        ({
            let (g2, q2, a2) = visit_dirs(ss, w, h, grid, queue, areas, id, pos, d);
            &&& q2.len() + 5 * count_empty(g2) <= queue.len() + 5 * count_empty(grid)
            &&& 0 <= count_empty(g2)
        }),
    decreases 4 - d,
{
    lemma_count_empty_bounds(grid);
    if 0 <= d < 4 {
        let npos = step_towards(pos, d);
        let c = cell_of(w, npos);
        if 0 <= npos.x < w && 0 <= npos.y < h && 0 <= c < grid.len() {
            match grid[c] {
                TileStatus::Empty => {
                    lemma_count_cell(grid, c);
                    lemma_count_empty_update(grid, c, TileStatus::Taken(id));
                    lemma_visit_measure(
                        ss,
                        w,
                        h,
                        grid.update(c, TileStatus::Taken(id)),
                        queue.push((id, npos)),
                        areas.update(id as int, (areas[id as int] + 1) as i32),
                        id,
                        pos,
                        d + 1,
                    );
                },
                TileStatus::Gone => {
                    lemma_visit_measure(ss, w, h, grid, queue, areas, id, pos, d + 1);
                },
                TileStatus::Taken(other) => {
                    if id != other && length_of(ss, id) == length_of(ss, other) {
                        lemma_count_empty_update(grid, c, TileStatus::Gone);
                        lemma_visit_measure(
                            ss,
                            w,
                            h,
                            grid.update(c, TileStatus::Gone),
                            queue,
                            areas.update(other as int, (areas[other as int] - 1) as i32),
                            id,
                            pos,
                            d + 1,
                        );
                    } else {
                        lemma_visit_measure(ss, w, h, grid, queue, areas, id, pos, d + 1);
                    }
                },
            }
        } else {
            lemma_visit_measure(ss, w, h, grid, queue, areas, id, pos, d + 1);
        }
    } else {
        lemma_count_empty_bounds(grid);
    }
}

/// The claim, run to exhaustion: pop, spread unless the entry's own tile was
/// written off, repeat until the worklist drains.
pub open spec fn bfs_run(
    ss: Seq<SnakeView>,
    w: int,
    h: int,
    grid: Seq<TileStatus>,
    queue: Seq<(u8, Coordinate)>,
    areas: Seq<i32>,
) -> Seq<i32>
    decreases queue.len() + 5 * count_empty(grid)
        via bfs_run_decreases
{
    if queue.len() == 0 {
        areas
    } else {
        let entry = queue[0];
        let rest = queue.drop_first();
        let c = cell_of(w, entry.1);
        if 0 <= c < grid.len() && grid[c] == TileStatus::Gone {
            bfs_run(ss, w, h, grid, rest, areas)
        } else {
            let (g2, q2, a2) = visit_dirs(ss, w, h, grid, rest, areas, entry.0, entry.1, 0);
            bfs_run(ss, w, h, g2, q2, a2)
        }
    }
}

#[via_fn]
proof fn bfs_run_decreases(
    ss: Seq<SnakeView>,
    w: int,
    h: int,
    grid: Seq<TileStatus>,
    queue: Seq<(u8, Coordinate)>,
    areas: Seq<i32>,
) {
    lemma_count_empty_bounds(grid);
    if queue.len() > 0 {
        let entry = queue[0];
        let rest = queue.drop_first();
        lemma_visit_measure(ss, w, h, grid, rest, areas, entry.0, entry.1, 0);
    }
}

/// With distinct ids, the serpent found under an id has the id's length.
proof fn lemma_length_of_is(ss: Seq<SnakeView>, id: u8, s: SnakeView)
    requires
        forall|i: int, j: int|
            0 <= i < ss.len() && 0 <= j < ss.len() && i != j ==> #[trigger] ss[i].id
                != #[trigger] ss[j].id,
        exists|i: int| 0 <= i < ss.len() && (#[trigger] ss[i]).id == id && s == ss[i],
    ensures
        length_of(ss, id) == s.length,
{
    let i1 = choose|i: int| 0 <= i < ss.len() && (#[trigger] ss[i]).id == id && s == ss[i];
    let i2 = choose|i: int| 0 <= i < ss.len() && (#[trigger] ss[i]).id == id;
    assert(ss[i1].id == ss[i2].id);
}

/// The whole area-control analysis as a value: seed the grid from the
/// serpents in board order, queue the sources longest-first, run the spread.
pub open spec fn area_claim(bv: BoardView) -> Seq<i32> {
    let n = bv.width * bv.height;
    let grid0 = seed_grid(empty_grid(n), bv.snakes, bv.width, 0);
    let order = sort_spec(bv.snakes, bv.snakes.len() as int);
    let queue0 = seed_queue(bv.snakes, order, bv.snakes.len() as int);
    bfs_run(bv.snakes, bv.width, bv.height, grid0, queue0, zero_counts(bv.max_snakes))
}

impl Board {
    /// Multi-source claim of the grid: every serpent's head spreads out one
    /// tile a turn, longest serpents first; body segments that will not
    /// vacate block the spread, and a tile reached by two equally long
    /// serpents at once is written off for both. Returns the number of tiles
    /// each id claims, indexed by id. The claimed tiles all started free, so
    /// their total never exceeds the free tiles of the grid.
    #[verifier::rlimit(100)]
    pub fn area_controlled(&self) -> (r: Vec<i32>)
        requires
            self@.dims_ok(),
            self@.snakes_ok(),
            self@.grounded(),
        ensures
            r@ == area_claim(self@),
            r@.len() == self@.max_snakes,
            forall|k: int| 0 <= k < r@.len() && !is_live_id(self@, k) ==> r@[k] == 0,
            sum_seq(r@) <= self@.width * self@.height,
            blockers_disjoint(self@) ==> sum_seq(r@) + interior_total(
                self@.snakes,
                self@.snakes.len() as int,
            ) <= self@.width * self@.height,
            forall|k: int|
                0 <= k < r@.len() ==> -(self@.width * self@.height) <= #[trigger] r@[k]
                    <= self@.width * self@.height,
    {
        let ghost disj = blockers_disjoint(self@);
        let ghost w = self@.width;
        let ghost h = self@.height;
        proof {
            assert(w <= 1_000_000_000 && h <= 1_000_000_000) by (nonlinear_arith)
                requires
                    1 <= w,
                    1 <= h,
                    w * h <= 1_000_000_000,
            ;
        }
        let n = (self.height * self.width) as usize;

        let mut areas: Vec<i32> = Vec::new();
        let mut z: usize = 0;
        while z < self.max_snakes
            invariant
                areas@.len() == z <= self@.max_snakes,
                forall|k: int| 0 <= k < z ==> areas@[k] == 0,
                sum_seq(areas@) == 0,
            decreases self@.max_snakes - z,
        {
            let ghost a_pre = areas@;
            areas.push(0);
            proof {
                assert(areas@.drop_last() =~= a_pre);
            }
            z = z + 1;
        }

        let mut grid: Vec<TileStatus> = Vec::new();
        let mut z2: usize = 0;
        while z2 < n
            invariant
                grid@.len() == z2 <= n,
                count_empty(grid@) == z2,
                count_gone(grid@) == 0,
                forall|ci: int| 0 <= ci < z2 ==> #[trigger] grid@[ci] == TileStatus::Empty,
            decreases n - z2,
        {
            let ghost g_pre = grid@;
            grid.push(TileStatus::Empty);
            proof {
                assert(grid@.drop_last() =~= g_pre);
            }
            z2 = z2 + 1;
        }

        proof {
            assert(grid@ =~= empty_grid(n as int));
            assert(areas@ =~= zero_counts(self@.max_snakes));
        }

        // Mark the grid: heads claim their own tiles; segments that will
        // still be there next tick are written off, tails are not.
        let mut si: usize = 0;
        while si < self.snakes.len()
            invariant
                0 <= si <= self@.snakes.len(),
                self@.dims_ok(),
                self@.snakes_ok(),
                self@.grounded(),
                w == self@.width,
                h == self@.height,
                n == w * h,
                grid@.len() == n,
                forall|ci: int|
                    0 <= ci < grid@.len() ==> ((#[trigger] grid@[ci]) matches TileStatus::Taken(
                        idt,
                    ) ==> is_live_id(self@, idt as int)),
                disj == blockers_disjoint(self@),
                disj ==> count_gone(grid@) == interior_total(self@.snakes, si as int),
                disj ==> gone_from_interior(self@, grid@, si as int, 1),
                seed_grid(grid@, self@.snakes, w, si as int) == seed_grid(
                    empty_grid(n as int),
                    self@.snakes,
                    w,
                    0,
                ),
            decreases self@.snakes.len() - si,
        {
            let snake = &self.snakes[si];
            proof {
                assert(snake@ == self@.snakes[si as int]);
                assert(self@.snakes[si as int].wf());
                assert(self@.in_bounds(self@.snakes[si as int].body[0]));
                assert(is_live_id(self@, self@.snakes[si as int].id as int));
            }
            let id = snake.get_id();
            let head = snake.get_head();
            proof {
                lemma_grid_index(w, h, head.x as int, head.y as int);
            }
            let gi = (self.width * head.get_y() + head.get_x()) as usize;
            let ghost grid_pre = grid@;
            grid[gi] = TileStatus::Taken(id);
            proof {
                if disj {
                    let sii = si as int;
                    let hc = self@.snakes[sii].body[0];
                    if is_gone_tile(grid_pre[gi as int]) {
                        let (t, k) = choose|t: int, k: int|
                            #![trigger self@.snakes[t].body[k]]
                            0 <= t < self@.snakes.len() && 1 <= k < self@.snakes[t].body.len() - 1
                                && (t < sii || (t == sii && k < 1)) && self@.width
                                * self@.snakes[t].body[k].y + self@.snakes[t].body[k].x
                                == gi as int;
                        assert(self@.in_bounds(self@.snakes[t].body[k]));
                        lemma_grid_index_injective(
                            w,
                            self@.snakes[t].body[k].x as int,
                            self@.snakes[t].body[k].y as int,
                            hc.x as int,
                            hc.y as int,
                        );
                        assert(self@.snakes[t].body[k] == hc);
                        assert(blocker_index(self@.snakes[t], k));
                        assert(blocker_index(self@.snakes[sii], 0));
                        assert(false);
                    }
                    lemma_count_empty_update(grid_pre, gi as int, TileStatus::Taken(id));
                    assert(count_gone(grid@) == count_gone(grid_pre));
                    assert(gone_from_interior(self@, grid@, sii, 1)) by {
                        assert forall|ci: int|
                            0 <= ci < grid@.len() && is_gone_tile(
                                #[trigger] grid@[ci],
                            ) implies exists|t: int, k: int|
                            #![trigger self@.snakes[t].body[k]]
                            0 <= t < self@.snakes.len() && 1 <= k < self@.snakes[t].body.len() - 1
                                && (t < sii || (t == sii && k < 1)) && self@.width
                                * self@.snakes[t].body[k].y + self@.snakes[t].body[k].x == ci by {
                            assert(ci != gi as int);
                            assert(is_gone_tile(grid_pre[ci]));
                        }
                    }
                }
            }
            proof {
                assert(cell_of(w, self@.snakes[si as int].head) == gi as int);
                assert(seed_grid(grid_pre, self@.snakes, w, si as int) == seed_grid(
                    mark_interiors(grid@, self@.snakes[si as int], w, 1),
                    self@.snakes,
                    w,
                    si + 1,
                ));
            }

            let blen = snake.body.len();
            if blen >= 1 {
                let mut k: usize = 1;
                while k < blen - 1
                    invariant
                        1 <= k,
                        k <= blen - 1 || blen <= 1,
                        blen <= 1 ==> k == 1,
                        blen == snake.body@.len(),
                        snake@ == self@.snakes[si as int],
                        si < self@.snakes.len(),
                        self@.dims_ok(),
                        self@.snakes_ok(),
                        self@.grounded(),
                        w == self@.width,
                        h == self@.height,
                        n == w * h,
                        grid@.len() == n,
                        forall|ci: int|
                            0 <= ci < grid@.len() ==> ((#[trigger] grid@[ci])
                                matches TileStatus::Taken(idt) ==> is_live_id(self@, idt as int)),
                        disj == blockers_disjoint(self@),
                        disj ==> count_gone(grid@) == interior_total(self@.snakes, si as int) + (k
                            - 1),
                        disj ==> gone_from_interior(self@, grid@, si as int, k as int),
                        seed_grid(
                            mark_interiors(grid@, self@.snakes[si as int], w, k as int),
                            self@.snakes,
                            w,
                            si + 1,
                        ) == seed_grid(empty_grid(n as int), self@.snakes, w, 0),
                    decreases blen - k,
                {
                    let pos = snake.body[k];
                    proof {
                        assert(self@.in_bounds(self@.snakes[si as int].body[k as int]));
                        lemma_grid_index(w, h, pos.x as int, pos.y as int);
                    }
                    let gk = (self.width * pos.get_y() + pos.get_x()) as usize;
                    let ghost grid_mid = grid@;
                    grid[gk] = TileStatus::Gone;
                    proof {
                        assert(cell_of(w, self@.snakes[si as int].body[k as int]) == gk as int);
                        assert(mark_interiors(grid_mid, self@.snakes[si as int], w, k as int)
                            == mark_interiors(grid@, self@.snakes[si as int], w, k + 1));
                        if disj {
                            let sii = si as int;
                            let kk = k as int;
                            let cur = self@.snakes[sii].body[kk];
                            if is_gone_tile(grid_mid[gk as int]) {
                                let (t, k2) = choose|t: int, k2: int|
                                    #![trigger self@.snakes[t].body[k2]]
                                    0 <= t < self@.snakes.len() && 1 <= k2 < self@.snakes[t].body.len() - 1 && (t < sii || (t == sii && k2 < kk))
                                        && self@.width * self@.snakes[t].body[k2].y
                                        + self@.snakes[t].body[k2].x == gk as int;
                                assert(self@.in_bounds(self@.snakes[t].body[k2]));
                                lemma_grid_index_injective(
                                    w,
                                    self@.snakes[t].body[k2].x as int,
                                    self@.snakes[t].body[k2].y as int,
                                    cur.x as int,
                                    cur.y as int,
                                );
                                assert(self@.snakes[t].body[k2] == cur);
                                assert(blocker_index(self@.snakes[t], k2));
                                assert(blocker_index(self@.snakes[sii], kk));
                                assert(false);
                            }
                            lemma_count_empty_update(grid_mid, gk as int, TileStatus::Gone);
                            assert(count_gone(grid@) == count_gone(grid_mid) + 1);
                            assert(gone_from_interior(self@, grid@, sii, kk + 1)) by {
                                assert forall|ci: int|
                                    0 <= ci < grid@.len() && is_gone_tile(
                                        #[trigger] grid@[ci],
                                    ) implies exists|t: int, k2: int|
                                    #![trigger self@.snakes[t].body[k2]]
                                    0 <= t < self@.snakes.len() && 1 <= k2 < self@.snakes[t].body.len() - 1 && (t < sii || (t == sii && k2 < kk + 1))
                                        && self@.width * self@.snakes[t].body[k2].y
                                        + self@.snakes[t].body[k2].x == ci by {
                                    if ci == gk as int {
                                        assert(1 <= kk < self@.snakes[sii].body.len() - 1);
                                        assert(self@.width * self@.snakes[sii].body[kk].y
                                            + self@.snakes[sii].body[kk].x == ci);
                                    } else {
                                        assert(is_gone_tile(grid_mid[ci]));
                                    }
                                }
                            }
                        }
                    }
                    k = k + 1;
                }
            }
            proof {
                assert(mark_interiors(grid@, self@.snakes[si as int], w, (if blen >= 2 {
                    blen - 1
                } else {
                    1
                }) as int) == grid@);
                assert(seed_grid(grid@, self@.snakes, w, si + 1) == seed_grid(
                    empty_grid(n as int),
                    self@.snakes,
                    w,
                    0,
                ));
                if disj {
                    let sii = si as int;
                    assert(blen == self@.snakes[sii].body.len());
                    assert(interior_total(self@.snakes, sii + 1) == interior_total(
                        self@.snakes,
                        sii,
                    ) + (if self@.snakes[sii].body.len() >= 2 {
                        self@.snakes[sii].body.len() - 2
                    } else {
                        0int
                    }));
                    assert(count_gone(grid@) == interior_total(self@.snakes, sii + 1));
                    assert(gone_from_interior(self@, grid@, sii + 1, 1)) by {
                        assert forall|ci: int|
                            0 <= ci < grid@.len() && is_gone_tile(
                                #[trigger] grid@[ci],
                            ) implies exists|t: int, k2: int|
                            #![trigger self@.snakes[t].body[k2]]
                            0 <= t < self@.snakes.len() && 1 <= k2 < self@.snakes[t].body.len() - 1
                                && (t < sii + 1 || (t == sii + 1 && k2 < 1)) && self@.width
                                * self@.snakes[t].body[k2].y + self@.snakes[t].body[k2].x
                                == ci by {
                        }
                    }
                }
            }
            si = si + 1;
        }

        // Longer serpents must spread first: the equal-length tiebreak of the
        // claim is only consistent when the worklist is visited in
        // non-increasing length order, so the sources are sorted before
        // seeding the queue.
        let n_snakes = self.snakes.len();
        let mut order: Vec<usize> = Vec::new();
        let mut t: usize = 0;
        while t < n_snakes
            invariant
                0 <= t <= n_snakes,
                n_snakes == self@.snakes.len(),
                order@.len() == t,
                forall|a: int| 0 <= a < order@.len() ==> #[trigger] order@[a] < t,
                forall|a: int, b: int|
                    0 <= a < order@.len() && 0 <= b < order@.len() && a != b ==> #[trigger] order@[a]
                        != #[trigger] order@[b],
                forall|a: int, b: int|
                    0 <= a < b < order@.len() ==> self@.snakes[#[trigger] order@[a] as int].length
                        >= self@.snakes[#[trigger] order@[b] as int].length,
                order@ == sort_spec(self@.snakes, t as int),
            decreases n_snakes - t,
        {
            let new_len = self.snakes[t].get_length();
            let mut p: usize = 0;
            let mut found = false;
            while p < order.len() && !found
                invariant
                    0 <= p <= order@.len(),
                    order@.len() == t < n_snakes,
                    n_snakes == self@.snakes.len(),
                    new_len == self@.snakes[t as int].length,
                    forall|a: int| 0 <= a < order@.len() ==> #[trigger] order@[a] < t,
                    forall|a: int|
                        0 <= a < p ==> self@.snakes[#[trigger] order@[a] as int].length
                            >= new_len as int,
                    found ==> p < order@.len() && self@.snakes[order@[p as int] as int].length
                        < new_len as int,
                    !found ==> ins_pos(self@.snakes, order@, new_len as int, 0) == ins_pos(
                        self@.snakes,
                        order@,
                        new_len as int,
                        p as int,
                    ),
                    found ==> ins_pos(self@.snakes, order@, new_len as int, 0) == p as int,
                decreases order@.len() - p + (if found {
                    0int
                } else {
                    1int
                }),
            {
                let oi = order[p];
                if self.snakes[oi].get_length() < new_len {
                    found = true;
                } else {
                    p = p + 1;
                }
            }
            proof {
                assert(ins_pos(self@.snakes, order@, new_len as int, 0) == p as int);
            }
            let ghost order_pre = order@;
            order.insert(p, t);
            proof {
                assert(order@ == order_pre.insert(p as int, t));
                assert(order@ == sort_spec(self@.snakes, t + 1));
                assert forall|a: int, b: int|
                    0 <= a < b < order@.len() implies self@.snakes[
                #[trigger] order@[a] as int].length >= self@.snakes[
                #[trigger] order@[b] as int].length by {
                    let pa = if a < p {
                        a
                    } else {
                        a - 1
                    };
                    let pb = if b < p {
                        b
                    } else {
                        b - 1
                    };
                    if a == p {
                        assert(order@[b] == order_pre[b - 1]);
                    } else if b == p {
                        assert(order@[a] == order_pre[a]);
                    } else {
                        assert(order@[a] == order_pre[pa] && order@[b] == order_pre[pb]);
                    }
                }
            }
            t = t + 1;
        }

        let mut queue: std::collections::VecDeque<(u8, Coordinate)> =
            std::collections::VecDeque::new();
        let mut t2: usize = 0;
        while t2 < n_snakes
            invariant
                0 <= t2 <= n_snakes,
                n_snakes == self@.snakes.len(),
                self@.snakes_ok(),
                self@.grounded(),
                order@.len() == n_snakes,
                order@ == sort_spec(self@.snakes, n_snakes as int),
                forall|a: int| 0 <= a < order@.len() ==> #[trigger] order@[a] < n_snakes,
                forall|qi: int|
                    0 <= qi < queue@.len() ==> is_live_id(self@, (#[trigger] queue@[qi]).0 as int)
                        && self@.in_bounds(queue@[qi].1),
                queue@ == seed_queue(self@.snakes, order@, t2 as int),
            decreases n_snakes - t2,
        {
            let si2 = order[t2];
            let source = &self.snakes[si2];
            proof {
                assert(source@ == self@.snakes[si2 as int]);
                assert(self@.snakes[si2 as int].wf());
                assert(self@.in_bounds(self@.snakes[si2 as int].body[0]));
                assert(is_live_id(self@, self@.snakes[si2 as int].id as int));
            }
            let ghost q_pre = queue@;
            queue.push_back((source.get_id(), source.get_head()));
            proof {
                assert(queue@ == q_pre.push(
                    (self@.snakes[si2 as int].id, self@.snakes[si2 as int].head),
                ));
                assert(queue@ == seed_queue(self@.snakes, order@, t2 + 1));
            }
            t2 = t2 + 1;
        }

        let ghost e0 = count_empty(grid@);
        proof {
            assert(grid@ == seed_grid(empty_grid(n as int), self@.snakes, w, 0));
            assert(queue@ == seed_queue(
                self@.snakes,
                sort_spec(self@.snakes, n_snakes as int),
                n_snakes as int,
            ));
            assert(bfs_run(self@.snakes, w, h, grid@, queue@, areas@) == area_claim(self@));
            lemma_count_empty_bounds(grid@);
            if disj {
                assert(count_gone(grid@) == interior_total(
                    self@.snakes,
                    self@.snakes.len() as int,
                ));
                assert(e0 + interior_total(self@.snakes, self@.snakes.len() as int) <= n);
            }
        }

        // Spread: each claim takes a free tile; an equal-length contention
        // writes the tile off and returns it.
        while queue.len() > 0
            invariant
                self@.dims_ok(),
                self@.snakes_ok(),
                self@.grounded(),
                w == self@.width,
                h == self@.height,
                n == w * h,
                grid@.len() == n,
                areas@.len() == self@.max_snakes,
                0 <= e0 <= n,
                disj == blockers_disjoint(self@),
                disj ==> e0 + interior_total(self@.snakes, self@.snakes.len() as int) <= n,
                forall|qi: int|
                    0 <= qi < queue@.len() ==> is_live_id(self@, (#[trigger] queue@[qi]).0 as int)
                        && self@.in_bounds(queue@[qi].1),
                forall|ci: int|
                    0 <= ci < grid@.len() ==> ((#[trigger] grid@[ci]) matches TileStatus::Taken(
                        idt,
                    ) ==> is_live_id(self@, idt as int)),
                sum_seq(areas@) <= e0 - count_empty(grid@),
                0 <= count_empty(grid@) <= e0,
                0 <= count_gone(grid@) <= n,
                forall|k: int|
                    0 <= k < areas@.len() ==> -count_gone(grid@) <= #[trigger] areas@[k] <= e0
                        - count_empty(grid@),
                forall|k: int| 0 <= k < areas@.len() && !is_live_id(self@, k) ==> areas@[k] == 0,
                bfs_run(self@.snakes, w, h, grid@, queue@, areas@) == area_claim(self@),
            decreases queue@.len() + 5 * count_empty(grid@),
        {
            let ghost q_whole = queue@;
            let popped = queue.pop_front().unwrap();
            let current_snake_id = popped.0;
            let current_pos = popped.1;
            proof {
                assert(is_live_id(self@, current_snake_id as int));
                assert(self@.in_bounds(current_pos));
                lemma_grid_index(w, h, current_pos.x as int, current_pos.y as int);
                assert(w <= 1_000_000_000 && h <= 1_000_000_000) by (nonlinear_arith)
                    requires
                        1 <= w,
                        1 <= h,
                        w * h <= 1_000_000_000,
                ;
            }
            let gc = (self.width * current_pos.get_y() + current_pos.get_x()) as usize;
            let at_cur = grid[gc];
            let ghost m_bound = queue@.len() + 5 * count_empty(grid@);
            proof {
                assert(q_whole[0] == (current_snake_id, current_pos));
                assert(queue@ == q_whole.drop_first());
                assert(gc as int == cell_of(w, current_pos));
            }
            if !(at_cur == TileStatus::Gone) {
                let ghost grid_pop = grid@;
                let ghost queue_pop = queue@;
                let ghost areas_pop = areas@;
                proof {
                    // The pre-pop worklist unfolds into one spread step.
                    assert(bfs_run(self@.snakes, w, h, grid_pop, q_whole, areas_pop) == ({
                        let (g2, q2, a2) = visit_dirs(
                            self@.snakes,
                            w,
                            h,
                            grid_pop,
                            queue_pop,
                            areas_pop,
                            current_snake_id,
                            current_pos,
                            0,
                        );
                        bfs_run(self@.snakes, w, h, g2, q2, a2)
                    }));
                }
                let adjacent = current_pos.get_adjacent();
                let mut d: usize = 0;
                while d < 4
                    invariant
                        0 <= d <= 4,
                        self@.dims_ok(),
                        self@.snakes_ok(),
                        self@.grounded(),
                        w == self@.width,
                        h == self@.height,
                        n == w * h,
                        grid@.len() == n,
                        areas@.len() == self@.max_snakes,
                        0 <= e0 <= n,
                        is_live_id(self@, current_snake_id as int),
                        self@.in_bounds(current_pos),
                        forall|qi: int|
                            0 <= qi < queue@.len() ==> is_live_id(
                                self@,
                                (#[trigger] queue@[qi]).0 as int,
                            ) && self@.in_bounds(queue@[qi].1),
                        forall|ci: int|
                            0 <= ci < grid@.len() ==> ((#[trigger] grid@[ci])
                                matches TileStatus::Taken(idt) ==> is_live_id(self@, idt as int)),
                        sum_seq(areas@) <= e0 - count_empty(grid@),
                        0 <= count_empty(grid@) <= e0,
                        0 <= count_gone(grid@) <= n,
                        forall|k: int|
                            0 <= k < areas@.len() ==> -count_gone(grid@) <= #[trigger] areas@[k]
                                <= e0 - count_empty(grid@),
                        forall|k: int|
                            0 <= k < areas@.len() && !is_live_id(self@, k) ==> areas@[k] == 0,
                        queue@.len() + 5 * count_empty(grid@) <= m_bound,
                        adjacent[0] == current_pos.down_spec(),
                        adjacent[1] == current_pos.up_spec(),
                        adjacent[2] == current_pos.right_spec(),
                        adjacent[3] == current_pos.left_spec(),
                        visit_dirs(
                            self@.snakes,
                            w,
                            h,
                            grid@,
                            queue@,
                            areas@,
                            current_snake_id,
                            current_pos,
                            d as int,
                        ) == visit_dirs(
                            self@.snakes,
                            w,
                            h,
                            grid_pop,
                            queue_pop,
                            areas_pop,
                            current_snake_id,
                            current_pos,
                            0,
                        ),
                        bfs_run(
                            self@.snakes,
                            w,
                            h,
                            visit_dirs(
                                self@.snakes,
                                w,
                                h,
                                grid_pop,
                                queue_pop,
                                areas_pop,
                                current_snake_id,
                                current_pos,
                                0,
                            ).0,
                            visit_dirs(
                                self@.snakes,
                                w,
                                h,
                                grid_pop,
                                queue_pop,
                                areas_pop,
                                current_snake_id,
                                current_pos,
                                0,
                            ).1,
                            visit_dirs(
                                self@.snakes,
                                w,
                                h,
                                grid_pop,
                                queue_pop,
                                areas_pop,
                                current_snake_id,
                                current_pos,
                                0,
                            ).2,
                        ) == area_claim(self@),
                    decreases 4 - d,
                {
                    let ghost st_grid = grid@;
                    let ghost st_queue = queue@;
                    let ghost st_areas = areas@;
                    let npos = adjacent[d];
                    if !self.is_out_of_bounds(npos) {
                        proof {
                            lemma_grid_index(w, h, npos.x as int, npos.y as int);
                        }
                        let gv = (self.width * npos.get_y() + npos.get_x()) as usize;
                        let at_n = grid[gv];
                        match at_n {
                            TileStatus::Empty => {
                                proof {
                                    lemma_count_cell(grid@, gv as int);
                                    lemma_count_empty_update(
                                        grid@,
                                        gv as int,
                                        TileStatus::Taken(current_snake_id),
                                    );
                                }
                                grid[gv] = TileStatus::Taken(current_snake_id);
                                queue.push_back((current_snake_id, npos));
                                let idu = current_snake_id as usize;
                                proof {
                                    let wit = choose|i: int|
                                        0 <= i < self@.snakes.len() && (#[trigger] self@.snakes[
                                        i]).id == current_snake_id;
                                    assert(self@.snakes[wit].id < self@.max_snakes);
                                    assert(idu < areas@.len());
                                }
                                let a = areas[idu];
                                let ghost areas_pre = areas@;
                                areas[idu] = a + 1;
                                proof {
                                    assert(areas@ =~= areas_pre.update(
                                        idu as int,
                                        areas@[idu as int],
                                    ));
                                    lemma_sum_seq_update(areas_pre, idu as int, areas@[idu as int]);
                                }
                            },
                            TileStatus::Gone => {},
                            TileStatus::Taken(other_snake_id) => {
                                if current_snake_id != other_snake_id {
                                    let cs = self.get_snake(current_snake_id);
                                    let os = self.get_snake(other_snake_id);
                                    proof {
                                        assert(grid@[gv as int] matches TileStatus::Taken(idt)
                                            && idt == other_snake_id);
                                        assert(is_live_id(self@, other_snake_id as int));
                                    }
                                    match (cs, os) {
                                        (Some(csn), Some(osn)) => {
                                            proof {
                                                lemma_length_of_is(
                                                    self@.snakes,
                                                    current_snake_id,
                                                    csn@,
                                                );
                                                lemma_length_of_is(
                                                    self@.snakes,
                                                    other_snake_id,
                                                    osn@,
                                                );
                                            }
                                            if csn.get_length() == osn.get_length() {
                                                proof {
                                                    assert(length_of(
                                                        self@.snakes,
                                                        current_snake_id,
                                                    ) == length_of(self@.snakes, other_snake_id));
                                                    lemma_count_cell(grid@, gv as int);
                                                    lemma_count_empty_update(
                                                        grid@,
                                                        gv as int,
                                                        TileStatus::Gone,
                                                    );
                                                }
                                                grid[gv] = TileStatus::Gone;
                                                let ido = other_snake_id as usize;
                                                proof {
                                                    let wit = choose|i: int|
                                                        0 <= i < self@.snakes.len() && (
                                                        #[trigger] self@.snakes[i]).id
                                                            == other_snake_id;
                                                    assert(self@.snakes[wit].id
                                                        < self@.max_snakes);
                                                    assert(ido < areas@.len());
                                                }
                                                let a = areas[ido];
                                                let ghost areas_pre = areas@;
                                                areas[ido] = a - 1;
                                                proof {
                                                    assert(areas@ =~= areas_pre.update(
                                                        ido as int,
                                                        areas@[ido as int],
                                                    ));
                                                    lemma_sum_seq_update(
                                                        areas_pre,
                                                        ido as int,
                                                        areas@[ido as int],
                                                    );
                                                }
                                            } else {
                                                proof {
                                                    assert(length_of(
                                                        self@.snakes,
                                                        current_snake_id,
                                                    ) != length_of(self@.snakes, other_snake_id));
                                                }
                                            }
                                        },
                                        _ => {
                                            proof {
                                                assert(false);
                                            }
                                        },
                                    }
                                }
                            },
                        }
                    }
                    proof {
                        let ss = self@.snakes;
                        let dd = d as int;
                        let np = step_towards(current_pos, dd);
                        assert(np == adjacent[dd]);
                        if 0 <= np.x < w && 0 <= np.y < h {
                            lemma_grid_index(w, h, np.x as int, np.y as int);
                            let c = cell_of(w, np);
                            assert(0 <= c < st_grid.len());
                            match st_grid[c] {
                                TileStatus::Empty => {
                                    assert(grid@ == st_grid.update(
                                        c,
                                        TileStatus::Taken(current_snake_id),
                                    ));
                                    assert(queue@ == st_queue.push((current_snake_id, np)));
                                    assert(areas@ == st_areas.update(
                                        current_snake_id as int,
                                        (st_areas[current_snake_id as int] + 1) as i32,
                                    ));
                                },
                                TileStatus::Gone => {
                                    assert(grid@ == st_grid && queue@ == st_queue && areas@
                                        == st_areas);
                                },
                                TileStatus::Taken(other) => {
                                    if current_snake_id != other && length_of(
                                        ss,
                                        current_snake_id,
                                    ) == length_of(ss, other) {
                                        assert(grid@ == st_grid.update(c, TileStatus::Gone));
                                        assert(queue@ == st_queue);
                                        assert(areas@ == st_areas.update(
                                            other as int,
                                            (st_areas[other as int] - 1) as i32,
                                        ));
                                    } else {
                                        assert(grid@ == st_grid && queue@ == st_queue && areas@
                                            == st_areas);
                                    }
                                },
                            }
                        } else {
                            assert(grid@ == st_grid && queue@ == st_queue && areas@ == st_areas);
                        }
                        assert(visit_dirs(
                            ss,
                            w,
                            h,
                            st_grid,
                            st_queue,
                            st_areas,
                            current_snake_id,
                            current_pos,
                            dd,
                        ) == visit_dirs(
                            ss,
                            w,
                            h,
                            grid@,
                            queue@,
                            areas@,
                            current_snake_id,
                            current_pos,
                            dd + 1,
                        ));
                    }
                    d = d + 1;
                }
                proof {
                    // All four directions done: the states coincide, and the
                    // pre-pop worklist value carries to the new state.
                    assert(visit_dirs(
                        self@.snakes,
                        w,
                        h,
                        grid@,
                        queue@,
                        areas@,
                        current_snake_id,
                        current_pos,
                        4,
                    ) == (grid@, queue@, areas@));
                    assert(bfs_run(self@.snakes, w, h, grid@, queue@, areas@) == area_claim(
                        self@,
                    ));
                }
            } else {
                proof {
                    // A written-off entry spreads nowhere: the worklist value
                    // is unchanged by skipping it.
                    assert(bfs_run(self@.snakes, w, h, grid@, q_whole, areas@) == bfs_run(
                        self@.snakes,
                        w,
                        h,
                        grid@,
                        queue@,
                        areas@,
                    ));
                }
            }
        }
        proof {
            lemma_count_empty_bounds(grid@);
            assert(areas@ == area_claim(self@));
        }
        areas
    }
}

/// Powers of three, for numbering joint move profiles.
pub open spec fn pow3_spec(n: int) -> int
    decreases n,
{
    if n <= 0 {
        1
    } else {
        3 * pow3_spec(n - 1)
    }
}

pub proof fn lemma_pow3_pos(n: int)
    requires
        0 <= n,
    ensures
        1 <= pow3_spec(n),
    decreases n,
{
    if n > 0 {
        lemma_pow3_pos(n - 1);
    }
}

pub proof fn lemma_pow3_bound(n: int)
    requires
        0 <= n <= 12,
    ensures
        1 <= pow3_spec(n) <= 531441,
    decreases 12 - n,
{
    lemma_pow3_pos(n);
    if n == 12 {
        reveal_with_fuel(pow3_spec, 13);
        assert(pow3_spec(12) == 531441);
    } else {
        lemma_pow3_bound(n + 1);
        assert(pow3_spec(n + 1) == 3 * pow3_spec(n));
    }
}

pub(crate) fn pow3(n: usize) -> (r: usize)
    requires
        n <= 12,
    ensures
        r == pow3_spec(n as int),
        1 <= r <= 531441,
{
    proof {
        lemma_pow3_bound(n as int);
    }
    let mut r: usize = 1;
    let mut k: usize = 0;
    while k < n
        invariant
            0 <= k <= n <= 12,
            r == pow3_spec(k as int),
            1 <= r <= 531441,
        decreases n - k,
    {
        proof {
            lemma_pow3_bound(k + 1);
        }
        r = r * 3;
        k = k + 1;
    }
    r
}

/// Direction `d` is one of the three the serpent can actually take: some
/// option maps to it. The fourth direction would reverse into the neck.
pub open spec fn own_option_dir(s: SnakeView, d: int) -> bool {
    exists|opt: usize| opt < 3 && (#[trigger] s.direction_spec(opt)) as int == d
}

/// Every serpent of the board can take each of its three options, and the
/// joint enumeration of one tick fits the machine.
pub open spec fn searchable(bv: crate::board::BoardView) -> bool {
    &&& bv.dims_ok()
    &&& bv.snakes_ok()
    &&& bv.food_ok()
    &&& bv.grounded()
    &&& bv.max_snakes >= 1
    &&& bv.snakes.len() <= crate::constants::MAX_LIVE_SNAKES
    &&& bv.turn < i32::MAX
    &&& forall|i: int| 0 <= i < bv.snakes.len() ==> (#[trigger] bv.snakes[i]).body.len() >= 2
    &&& forall|i: int| 0 <= i < bv.snakes.len() ==> (#[trigger] bv.snakes[i]).length < usize::MAX
    &&& forall|i: int| 0 <= i < bv.snakes.len() ==> (#[trigger] bv.snakes[i]).health > i32::MIN
}


/// The absolute direction the agent (the serpent with the agent's id) takes
/// in joint profile `p`.
pub open spec fn agent_profile_dir(bv: BoardView, p: int) -> int {
    let a = choose|i: int|
        0 <= i < bv.snakes.len() && (#[trigger] bv.snakes[i]).id == crate::constants::YOU_ID;
    bv.snakes[a].direction_spec(((p / pow3_spec(a)) % 3) as usize) as int
}

/// The agent's worst claimed area over the first `upto` joint profiles in
/// which it moves in direction `d`; `None` while no such profile has been
/// seen.
pub open spec fn worst_area(bv: BoardView, mf: int, d: int, upto: int) -> Option<i32>
    decreases upto,
{
    if upto <= 0 {
        None
    } else {
        let prev = worst_area(bv, mf, d, upto - 1);
        let p = upto - 1;
        if agent_profile_dir(bv, p) == d {
            let v = area_claim(crate::simulate::successor(bv, p, mf))[0];
            match prev {
                None => Some(v),
                Some(m) => if v < m {
                    Some(v)
                } else {
                    Some(m)
                },
            }
        } else {
            prev
        }
    }
}

/// The value the worst-case analysis reports for direction `d`: the minimum
/// claimed area over the profiles taking it, or 0 where none does.
pub open spec fn worst_area_value(bv: BoardView, mf: int, d: int) -> i32 {
    match worst_area(bv, mf, d, pow3_spec(bv.snakes.len() as int)) {
        Some(m) => m,
        None => 0,
    }
}

impl Board {
    /// The worst-case area control per root direction: every joint move
    /// profile of the live serpents is simulated one tick, the agent's
    /// claimed area measured, and for each of the agent's four directions
    /// the minimum over all profiles where it plays that direction is kept.
    /// A direction outside the agent's three legal options stays 0.
    #[verifier::rlimit(100)]
    pub fn calculate_areas(&self, ruleset: &Ruleset) -> (r: [i32; 4])
        requires
            searchable(self@),
        ensures
            is_live_id(self@, crate::constants::YOU_ID as int) ==> forall|d: int|
                0 <= d < 4 ==> #[trigger] r@[d] == worst_area_value(
                    self@,
                    ruleset@.minimum_food,
                    d,
                ),
            forall|d: int|
                0 <= d < 4 ==> -(self@.width * self@.height) <= #[trigger] r@[d] <= self@.width
                    * self@.height,
            forall|a: int, d: int|
                #![trigger self@.snakes[a], r@[d]]
                0 <= a < self@.snakes.len() && self@.snakes[a].id == crate::constants::YOU_ID && 0
                    <= d < 4 && !own_option_dir(self@.snakes[a], d) ==> r@[d] == 0,
    {
        let ghost mf = ruleset@.minimum_food;
        let num_snakes = self.snakes.len();
        let iterations = pow3(num_snakes);

        let mut min0: i32 = 0;
        let mut min1: i32 = 0;
        let mut min2: i32 = 0;
        let mut min3: i32 = 0;
        let mut has0 = false;
        let mut has1 = false;
        let mut has2 = false;
        let mut has3 = false;

        let ghost wh = self@.width * self@.height;
        let mut i: usize = 0;
        while i < iterations
            invariant
                0 <= i <= iterations,
                searchable(self@),
                num_snakes == self@.snakes.len(),
                wh == self@.width * self@.height,
                mf == ruleset@.minimum_food,
                iterations == pow3_spec(num_snakes as int),
                is_live_id(self@, crate::constants::YOU_ID as int) ==> worst_area(
                    self@,
                    mf,
                    0,
                    i as int,
                ) == (if has0 {
                    Some(min0)
                } else {
                    None::<i32>
                }) && worst_area(self@, mf, 1, i as int) == (if has1 {
                    Some(min1)
                } else {
                    None::<i32>
                }) && worst_area(self@, mf, 2, i as int) == (if has2 {
                    Some(min2)
                } else {
                    None::<i32>
                }) && worst_area(self@, mf, 3, i as int) == (if has3 {
                    Some(min3)
                } else {
                    None::<i32>
                }),
                has0 ==> -wh <= min0 <= wh,
                has1 ==> -wh <= min1 <= wh,
                has2 ==> -wh <= min2 <= wh,
                has3 ==> -wh <= min3 <= wh,
                !has0 ==> min0 == 0,
                !has1 ==> min1 == 0,
                !has2 ==> min2 == 0,
                !has3 ==> min3 == 0,
                has0 ==> forall|a: int|
                    0 <= a < self@.snakes.len() && (#[trigger] self@.snakes[a]).id
                        == crate::constants::YOU_ID ==> own_option_dir(self@.snakes[a], 0),
                has1 ==> forall|a: int|
                    0 <= a < self@.snakes.len() && (#[trigger] self@.snakes[a]).id
                        == crate::constants::YOU_ID ==> own_option_dir(self@.snakes[a], 1),
                has2 ==> forall|a: int|
                    0 <= a < self@.snakes.len() && (#[trigger] self@.snakes[a]).id
                        == crate::constants::YOU_ID ==> own_option_dir(self@.snakes[a], 2),
                has3 ==> forall|a: int|
                    0 <= a < self@.snakes.len() && (#[trigger] self@.snakes[a]).id
                        == crate::constants::YOU_ID ==> own_option_dir(self@.snakes[a], 3),
            decreases iterations - i,
        {
            let mut new_board = self.clone();
            let mut direction: usize = 0;

            let mut j: usize = 0;
            while j < num_snakes
                invariant
                    0 <= j <= num_snakes,
                    searchable(self@),
                    num_snakes == self@.snakes.len(),
                    direction < 4,
                    new_board@.width == self@.width,
                    new_board@.height == self@.height,
                    new_board@.food == self@.food,
                    new_board@.hazards == self@.hazards,
                    new_board@.max_snakes == self@.max_snakes,
                    new_board@.turn == self@.turn,
                    new_board@.snakes.len() == self@.snakes.len(),
                    forall|t: int|
                        j <= t < num_snakes ==> #[trigger] new_board@.snakes[t] == self@.snakes[t],
                    forall|t: int|
                        #![trigger self@.snakes[t]]
                        0 <= t < j && self@.snakes[t].id == crate::constants::YOU_ID
                            ==> own_option_dir(self@.snakes[t], direction as int),
                    (exists|t: int|
                        0 <= t < j && (#[trigger] self@.snakes[t]).id
                            == crate::constants::YOU_ID) ==> direction as int == agent_profile_dir(
                        self@,
                        i as int,
                    ),
                    forall|t: int|
                        0 <= t < j ==> #[trigger] new_board@.snakes[t] == self@.snakes[t].moved_to(
                            self@.snakes[t].option_spec(
                                (((i as int) / pow3_spec(t)) % 3) as usize,
                            ),
                        ),
                decreases num_snakes - j,
            {
                proof {
                    assert(new_board@.snakes[j as int] == self@.snakes[j as int]);
                    assert(self@.snakes[j as int].wf());
                    assert(self@.in_bounds(self@.snakes[j as int].body[0]));
                    assert(self@.width <= 1_000_000_000 && self@.height <= 1_000_000_000)
                        by (nonlinear_arith)
                        requires
                            1 <= self@.width,
                            1 <= self@.height,
                            self@.width * self@.height <= 1_000_000_000,
                    ;
                }
                let p = pow3(j);
                let opt_index = (i / p) % 3;
                let snake = &new_board.snakes[j];
                if snake.get_id() == crate::constants::YOU_ID {
                    direction = snake.get_direction(opt_index);
                    proof {
                        assert(self@.snakes[j as int].direction_spec(opt_index)
                            == direction as usize);
                        assert(own_option_dir(self@.snakes[j as int], direction as int));
                        let a = choose|ii: int|
                            0 <= ii < self@.snakes.len() && (#[trigger] self@.snakes[ii]).id
                                == crate::constants::YOU_ID;
                        assert(self@.snakes[a].id == self@.snakes[j as int].id);
                        assert(a == j as int);
                        assert(direction as int == agent_profile_dir(self@, i as int));
                        assert forall|t: int|
                            #![trigger self@.snakes[t]]
                            0 <= t < j + 1 && self@.snakes[t].id == crate::constants::YOU_ID
                                implies own_option_dir(
                            self@.snakes[t],
                            direction as int,
                        ) by {
                            if t < j {
                                assert(self@.snakes[t].id != self@.snakes[j as int].id);
                            }
                        }
                    }
                }
                let pos = new_board.snakes[j].get_option(opt_index);
                let ghost pre_snakes = new_board@.snakes;
                new_board.snakes[j].move_to(pos);
                proof {
                    let jj = j as int;
                    let opt = (((i as int) / pow3_spec(jj)) % 3) as usize;
                    assert(opt_index == opt);
                    assert(new_board@.snakes =~= pre_snakes.update(
                        jj,
                        pre_snakes[jj].moved_to(pos),
                    ));
                    assert(pre_snakes[jj] == self@.snakes[jj]);
                    assert(pos == self@.snakes[jj].option_spec(opt));
                }
                j = j + 1;
            }

            proof {
                assert forall|t: int| 0 <= t < new_board@.snakes.len() implies (
                #[trigger] new_board@.snakes[t]).wf() && new_board@.snakes[t].id
                    < new_board@.max_snakes && new_board@.snakes[t].length < usize::MAX by {
                    assert(self@.snakes[t].wf());
                }
                assert(new_board@.snakes_ok());
            }
            let ghost moved = new_board@;
            new_board.game_step(ruleset);
            proof {
                assert forall|t: int, k: int|
                    0 <= t < new_board@.snakes.len() && 0 <= k
                        < new_board@.snakes[t].body.len() implies new_board@.in_bounds(
                    #[trigger] new_board@.snakes[t].body[k],
                ) by {
                    assert(crate::game_step::from_old(new_board@.snakes[t], moved.snakes));
                    let j2 = choose|j2: int|
                        #![trigger moved.snakes[j2]]
                        0 <= j2 < moved.snakes.len() && (new_board@.snakes[t] == moved.snakes[j2]
                            || new_board@.snakes[t] == moved.snakes[j2].fed());
                    let orig = self@.snakes[j2];
                    assert(orig.wf());
                    assert(new_board@.snakes[t].wf());
                    assert(crate::game_step::survives_alone(
                        new_board@.snakes[t],
                        moved.width,
                        moved.height,
                        ruleset@.minimum_food,
                    ));
                    let mb = moved.snakes[j2].body;
                    assert(forall|k2: int|
                        1 <= k2 < mb.len() ==> #[trigger] mb[k2] == orig.body[k2 - 1]);
                    if k == 0 {
                        assert(new_board@.snakes[t].body[0] == new_board@.snakes[t].head);
                    } else {
                        if new_board@.snakes[t] == moved.snakes[j2] {
                            assert(self@.in_bounds(orig.body[k - 1]));
                        } else {
                            if k < mb.len() {
                                if k >= 1 {
                                    assert(self@.in_bounds(orig.body[k - 1]));
                                }
                            } else {
                                assert(new_board@.snakes[t].body[k] == mb.last());
                                if mb.len() >= 2 {
                                    assert(mb.last() == orig.body[mb.len() - 2]);
                                    assert(self@.in_bounds(orig.body[mb.len() - 2]));
                                } else {
                                    assert(mb.last() == new_board@.snakes[t].head
                                        || new_board@.snakes[t] == moved.snakes[j2].fed());
                                    assert(mb.last() == moved.snakes[j2].head);
                                    assert(moved.snakes[j2].head == new_board@.snakes[t].head);
                                }
                            }
                        }
                    }
                }
                assert(new_board@.grounded());
                let ghost succ_moved = (BoardView {
                    snakes: Seq::new(
                        self@.snakes.len(),
                        |jj: int| self@.snakes[jj].moved_to(
                            self@.snakes[jj].option_spec(
                                (((i as int) / pow3_spec(jj)) % 3) as usize,
                            ),
                        ),
                    ),
                    ..self@
                });
                assert(moved =~= succ_moved);
                assert(new_board@ =~= crate::simulate::successor(self@, i as int, mf));
            }
            let areas = new_board.area_controlled();
            let you_area = areas[0];
            proof {
                assert(areas@[0] <= new_board@.width * new_board@.height);
                assert(-(new_board@.width * new_board@.height) <= areas@[0]);
                assert(areas@ == area_claim(new_board@));
                assert(you_area == area_claim(
                    crate::simulate::successor(self@, i as int, mf),
                )[0]);
            }

            let ghost pre_has = (has0, has1, has2, has3);
            let ghost pre_min = (min0, min1, min2, min3);
            if direction == 0 {
                if !has0 || you_area < min0 {
                    min0 = you_area;
                    has0 = true;
                }
            } else if direction == 1 {
                if !has1 || you_area < min1 {
                    min1 = you_area;
                    has1 = true;
                }
            } else if direction == 2 {
                if !has2 || you_area < min2 {
                    min2 = you_area;
                    has2 = true;
                }
            } else {
                if !has3 || you_area < min3 {
                    min3 = you_area;
                    has3 = true;
                }
            }
            proof {
                if is_live_id(self@, crate::constants::YOU_ID as int) {
                    assert(exists|t: int|
                        0 <= t < num_snakes && (#[trigger] self@.snakes[t]).id
                            == crate::constants::YOU_ID);
                    assert(direction as int == agent_profile_dir(self@, i as int));
                    assert(worst_area(self@, mf, 0, i + 1) == (if has0 {
                        Some(min0)
                    } else {
                        None::<i32>
                    }));
                    assert(worst_area(self@, mf, 1, i + 1) == (if has1 {
                        Some(min1)
                    } else {
                        None::<i32>
                    }));
                    assert(worst_area(self@, mf, 2, i + 1) == (if has2 {
                        Some(min2)
                    } else {
                        None::<i32>
                    }));
                    assert(worst_area(self@, mf, 3, i + 1) == (if has3 {
                        Some(min3)
                    } else {
                        None::<i32>
                    }));
                }
            }
            i = i + 1;
        }

        let result = [min0, min1, min2, min3];
        proof {
            if is_live_id(self@, crate::constants::YOU_ID as int) {
                assert(pow3_spec(self@.snakes.len() as int) == i as int);
                assert(worst_area(self@, mf, 0, i as int) == (if has0 {
                    Some(min0)
                } else {
                    None::<i32>
                }));
                assert(worst_area(self@, mf, 1, i as int) == (if has1 {
                    Some(min1)
                } else {
                    None::<i32>
                }));
                assert(worst_area(self@, mf, 2, i as int) == (if has2 {
                    Some(min2)
                } else {
                    None::<i32>
                }));
                assert(worst_area(self@, mf, 3, i as int) == (if has3 {
                    Some(min3)
                } else {
                    None::<i32>
                }));
                assert(worst_area_value(self@, mf, 0) == min0);
                assert(worst_area_value(self@, mf, 1) == min1);
                assert(worst_area_value(self@, mf, 2) == min2);
                assert(worst_area_value(self@, mf, 3) == min3);
            }
            assert(result@[0] == min0 && result@[1] == min1 && result@[2] == min2 && result@[3]
                == min3);
        }
        result
    }
}

/// Two distinct on-grid tiles land on distinct grid cells.
pub proof fn lemma_grid_index_injective(w: int, x1: int, y1: int, x2: int, y2: int)
    requires
        1 <= w,
        0 <= x1 < w,
        0 <= x2 < w,
        0 <= y1,
        0 <= y2,
        w * y1 + x1 == w * y2 + x2,
    ensures
        x1 == x2 && y1 == y2,
{
    assert(x1 == x2 && y1 == y2) by (nonlinear_arith)
        requires
            1 <= w,
            0 <= x1 < w,
            0 <= x2 < w,
            0 <= y1,
            0 <= y2,
            w * y1 + x1 == w * y2 + x2,
    ;
}

} // verus!
