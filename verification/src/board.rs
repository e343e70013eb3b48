use vstd::prelude::*;

use crate::battlesnake::{Battlesnake, SnakeView};
use crate::coordinate::{manhattan, Coordinate};

verus! {

/// The mathematical value of a board: every field as seen by contracts.
#[verifier::ext_equal]
pub ghost struct BoardView {
    pub height: int,
    pub width: int,
    pub food: Seq<Coordinate>,
    pub hazards: Seq<Coordinate>,
    pub snakes: Seq<SnakeView>,
    pub max_snakes: int,
    pub turn: int,
}

/// The views of a sequence of serpents.
pub open spec fn snakes_view(snakes: Seq<Battlesnake>) -> Seq<SnakeView> {
    snakes.map_values(|s: Battlesnake| s@)
}

impl BoardView {
    /// The tile lies on the grid.
    pub open spec fn in_bounds(self, c: Coordinate) -> bool {
        &&& 0 <= c.x < self.width
        &&& 0 <= c.y < self.height
    }

    /// The tile lies on the grid or at most one step off it, as a head does
    /// right after a move and before the tick resolves.
    pub open spec fn near_bounds(self, c: Coordinate) -> bool {
        &&& -1 <= c.x <= self.width
        &&& -1 <= c.y <= self.height
    }

    /// Grid dimensions are positive and small enough that every index and
    /// distance computation fits comfortably in a machine integer.
    pub open spec fn dims_ok(self) -> bool {
        &&& 1 <= self.width
        &&& 1 <= self.height
        &&& self.width * self.height <= 1_000_000_000
    }

    /// Every serpent is internally consistent, carries an id addressable in
    /// the per-id output slots, and no id occurs twice.
    pub open spec fn snakes_ok(self) -> bool {
        &&& forall|i: int|
            0 <= i < self.snakes.len() ==> (#[trigger] self.snakes[i]).wf()
        &&& forall|i: int|
            0 <= i < self.snakes.len() ==> (#[trigger] self.snakes[i]).id < self.max_snakes
        &&& forall|i: int, j: int|
            0 <= i < self.snakes.len() && 0 <= j < self.snakes.len() && i != j
                ==> #[trigger] self.snakes[i].id != #[trigger] self.snakes[j].id
    }

    /// Food tiles lie on the grid and no tile holds food twice.
    pub open spec fn food_ok(self) -> bool {
        &&& forall|i: int| 0 <= i < self.food.len() ==> self.in_bounds(#[trigger] self.food[i])
        &&& forall|i: int, j: int|
            0 <= i < self.food.len() && 0 <= j < self.food.len() && i != j
                ==> #[trigger] self.food[i] != #[trigger] self.food[j]
    }

    /// Every segment of every serpent lies on the grid.
    pub open spec fn grounded(self) -> bool {
        forall|i: int, k: int|
            0 <= i < self.snakes.len() && 0 <= k < self.snakes[i].body.len()
                ==> self.in_bounds(#[trigger] self.snakes[i].body[k])
    }

    /// The board invariant established at intake.
    pub open spec fn wf(self) -> bool {
        &&& self.dims_ok()
        &&& self.snakes_ok()
        &&& self.food_ok()
    }

    /// Some serpent covers tile `c` with a segment other than its own last
    /// one. Such a tile blocks movement: the last segment is about to vacate.
    pub open spec fn covered(self, c: Coordinate) -> bool {
        exists|i: int, k: int|
            0 <= i < self.snakes.len() && 0 <= k < self.snakes[i].body.len() - 1
                && self.snakes[i].body[k] == c
    }

    /// Some serpent covers tile `c` with any segment at all.
    pub open spec fn occupied(self, c: Coordinate) -> bool {
        exists|i: int, k: int|
            0 <= i < self.snakes.len() && 0 <= k < self.snakes[i].body.len()
                && self.snakes[i].body[k] == c
    }
}

/// Index of the tile closest to `pos` among the first `k` entries of `cs`,
/// the earliest entry winning ties: entry `k-1` replaces the best of the
/// prefix only when strictly closer.
pub open spec fn closest_idx(cs: Seq<Coordinate>, pos: Coordinate, k: int) -> int
    decreases k,
{
    if k <= 1 {
        0
    } else {
        let b = closest_idx(cs, pos, k - 1);
        if manhattan(pos, cs[k - 1]) < manhattan(pos, cs[b]) {
            k - 1
        } else {
            b
        }
    }
}

/// Distances between tiles on or just off the grid stay well inside `i32`.
pub proof fn lemma_distance_in_range(bv: BoardView, a: Coordinate, b: Coordinate)
    requires
        bv.dims_ok(),
        bv.near_bounds(a),
        bv.near_bounds(b),
    ensures
        i32::MIN <= a.x - b.x <= i32::MAX,
        i32::MIN <= a.y - b.y <= i32::MAX,
        a.x - b.x != i32::MIN,
        a.y - b.y != i32::MIN,
        0 <= manhattan(a, b) < i32::MAX,
{
    assert(bv.width + bv.height <= 1_000_000_001) by (nonlinear_arith)
        requires
            1 <= bv.width,
            1 <= bv.height,
            bv.width * bv.height <= 1_000_000_000,
    ;
}

/// `closest_idx` always lands in the prefix it examined.
pub proof fn lemma_closest_idx_range(cs: Seq<Coordinate>, pos: Coordinate, k: int)
    ensures
        0 <= closest_idx(cs, pos, k),
        closest_idx(cs, pos, k) < (if k < 1 { 1int } else { k }),
    decreases k,
{
    if k > 1 {
        lemma_closest_idx_range(cs, pos, k - 1);
    }
}

/// `closest_idx` looks only at the first `k` entries.
pub proof fn lemma_closest_idx_prefix(
    cs1: Seq<Coordinate>,
    cs2: Seq<Coordinate>,
    pos: Coordinate,
    k: int,
)
    requires
        forall|j: int| 0 <= j < k ==> #[trigger] cs1[j] == cs2[j],
    ensures
        closest_idx(cs1, pos, k) == closest_idx(cs2, pos, k),
    decreases k,
{
    if k > 1 {
        lemma_closest_idx_prefix(cs1, cs2, pos, k - 1);
        lemma_closest_idx_range(cs1, pos, k - 1);
    }
}

/// The chosen index is in range, attains the minimum distance over the
/// prefix, and every earlier entry is strictly farther.
pub proof fn lemma_closest_idx(cs: Seq<Coordinate>, pos: Coordinate, k: int)
    requires
        1 <= k <= cs.len(),
    ensures
        0 <= closest_idx(cs, pos, k) < k,
        forall|i: int|
            0 <= i < k ==> manhattan(pos, #[trigger] cs[i]) >= manhattan(
                pos,
                cs[closest_idx(cs, pos, k)],
            ),
        forall|i: int|
            0 <= i < closest_idx(cs, pos, k) ==> manhattan(pos, #[trigger] cs[i]) > manhattan(
                pos,
                cs[closest_idx(cs, pos, k)],
            ),
    decreases k,
{
    if k > 1 {
        lemma_closest_idx(cs, pos, k - 1);
    }
}

/// Reordering the food list never changes how close the closest food is:
/// the chosen tile of either list attains the one minimum distance.
pub proof fn lemma_closest_food_permutation(
    cs1: Seq<Coordinate>,
    cs2: Seq<Coordinate>,
    pos: Coordinate,
)
    requires
        cs1.to_multiset() == cs2.to_multiset(),
        cs1.len() > 0,
    ensures
        cs2.len() > 0,
        manhattan(pos, cs1[closest_idx(cs1, pos, cs1.len() as int)]) == manhattan(
            pos,
            cs2[closest_idx(cs2, pos, cs2.len() as int)],
        ),
{
    broadcast use vstd::seq_lib::group_to_multiset_ensures;

    assert(cs1.len() == cs1.to_multiset().len());
    assert(cs2.len() == cs2.to_multiset().len());
    assert(cs1.len() == cs2.len());
    lemma_closest_idx(cs1, pos, cs1.len() as int);
    lemma_closest_idx(cs2, pos, cs2.len() as int);
    let b1 = closest_idx(cs1, pos, cs1.len() as int);
    let b2 = closest_idx(cs2, pos, cs2.len() as int);
    assert(cs1.contains(cs1[b1]));
    assert(cs2.to_multiset().count(cs1[b1]) > 0);
    assert(cs2.contains(cs1[b1]));
    let k2 = choose|k: int| 0 <= k < cs2.len() && cs2[k] == cs1[b1];
    assert(manhattan(pos, cs2[b2]) <= manhattan(pos, cs1[b1]));
    assert(cs2.contains(cs2[b2]));
    assert(cs1.to_multiset().count(cs2[b2]) > 0);
    assert(cs1.contains(cs2[b2]));
    let k1 = choose|k: int| 0 <= k < cs1.len() && cs1[k] == cs2[b2];
    assert(manhattan(pos, cs1[b1]) <= manhattan(pos, cs2[b2]));
}

/// The heads of the serpents among the first `k` of `ss` that are weaker than
/// `cur`: a different id, and shorter than `cur` by at least `adv`.
pub open spec fn weaker(s: SnakeView, cur: SnakeView, adv: int) -> bool {
    &&& s.id != cur.id
    &&& s.length <= cur.length - adv
}

pub open spec fn weak_heads(ss: Seq<SnakeView>, cur: SnakeView, adv: int, k: int) -> Seq<
    Coordinate,
>
    decreases k,
{
    if k <= 0 {
        Seq::empty()
    } else if weaker(ss[k - 1], cur, adv) {
        weak_heads(ss, cur, adv, k - 1).push(ss[k - 1].head)
    } else {
        weak_heads(ss, cur, adv, k - 1)
    }
}

/// A tile a serpent can step onto: on the grid, and not blocked by a body
/// segment that will still be there next tick.
pub open spec fn tile_open(bv: BoardView, c: Coordinate) -> bool {
    bv.in_bounds(c) && !bv.covered(c)
}

/// How many of the four neighbours of the serpent's head are open.
pub open spec fn open_directions_spec(bv: BoardView, s: SnakeView) -> int {
    (if tile_open(bv, s.head.down_spec()) {
        1int
    } else {
        0int
    }) + (if tile_open(bv, s.head.up_spec()) {
        1int
    } else {
        0int
    }) + (if tile_open(bv, s.head.right_spec()) {
        1int
    } else {
        0int
    }) + (if tile_open(bv, s.head.left_spec()) {
        1int
    } else {
        0int
    })
}

/// Every candidate head is the head of one of the serpents.
pub proof fn lemma_weak_heads_subset(ss: Seq<SnakeView>, cur: SnakeView, adv: int, k: int)
    requires
        0 <= k <= ss.len(),
    ensures
        forall|i: int|
            0 <= i < weak_heads(ss, cur, adv, k).len() ==> exists|j: int|
                0 <= j < k && ss[j].head == #[trigger] weak_heads(ss, cur, adv, k)[i],
    decreases k,
{
    if k > 0 {
        lemma_weak_heads_subset(ss, cur, adv, k - 1);
        let prev = weak_heads(ss, cur, adv, k - 1);
        let curq = weak_heads(ss, cur, adv, k);
        if weaker(ss[k - 1], cur, adv) {
            assert(curq == prev.push(ss[k - 1].head));
            assert forall|i: int| 0 <= i < curq.len() implies exists|j: int|
                0 <= j < k && ss[j].head == #[trigger] curq[i] by {
                if i < prev.len() {
                    assert(curq[i] == prev[i]);
                } else {
                    assert(curq[i] == ss[k - 1].head);
                }
            }
        }
    }
}

/// The board: dimensions, food and hazard tiles, the live serpents, the
/// number of participants at game start, and the turn counter.
#[derive(Debug, PartialEq, Eq)]
pub struct Board {
    pub height: i32,
    pub width: i32,
    pub food: Vec<Coordinate>,
    pub hazards: Vec<Coordinate>,
    pub snakes: Vec<Battlesnake>,
    pub max_snakes: usize,
    pub turn: i32,
}

impl View for Board {
    type V = BoardView;

    open spec fn view(&self) -> BoardView {
        BoardView {
            height: self.height as int,
            width: self.width as int,
            food: self.food@,
            hazards: self.hazards@,
            snakes: snakes_view(self.snakes@),
            max_snakes: self.max_snakes as int,
            turn: self.turn as int,
        }
    }
}

impl Clone for Board {
    fn clone(&self) -> (r: Self)
        ensures
            r@ == self@,
    {
        let r = Board {
            height: self.height,
            width: self.width,
            food: self.food.clone(),
            hazards: self.hazards.clone(),
            snakes: self.snakes.clone(),
            max_snakes: self.max_snakes,
            turn: self.turn,
        };
        proof {
            assert(r.food@ =~= self.food@);
            assert(r.hazards@ =~= self.hazards@);
            assert(snakes_view(r.snakes@) =~= snakes_view(self.snakes@));
            assert(r@ =~= self@);
        }
        r
    }
}

impl Board {
    pub fn new(
        height: i32,
        width: i32,
        food: Vec<Coordinate>,
        hazards: Vec<Coordinate>,
        snakes: Vec<Battlesnake>,
        max_snakes: usize,
        turn: i32,
    ) -> (r: Board)
        ensures
            r@ == (BoardView {
                height: height as int,
                width: width as int,
                food: food@,
                hazards: hazards@,
                snakes: snakes_view(snakes@),
                max_snakes: max_snakes as int,
                turn: turn as int,
            }),
    {
        Board { height, width, food, hazards, snakes, max_snakes, turn }
    }

    pub fn get_height(&self) -> (r: i32)
        ensures
            r == self@.height,
    {
        self.height
    }

    pub fn get_width(&self) -> (r: i32)
        ensures
            r == self@.width,
    {
        self.width
    }

    pub fn get_food(&self) -> (r: &Vec<Coordinate>)
        ensures
            r@ == self@.food,
    {
        &self.food
    }

    pub fn get_food_mut(&mut self) -> (r: &mut Vec<Coordinate>)
        ensures
            *r == old(self).food,
            final(self)@ == (BoardView { food: final(r)@, ..old(self)@ }),
    {
        &mut self.food
    }

    pub fn get_hazards(&self) -> (r: &Vec<Coordinate>)
        ensures
            r@ == self@.hazards,
    {
        &self.hazards
    }

    pub fn get_hazards_mut(&mut self) -> (r: &mut Vec<Coordinate>)
        ensures
            *r == old(self).hazards,
            final(self)@ == (BoardView { hazards: final(r)@, ..old(self)@ }),
    {
        &mut self.hazards
    }

    pub fn get_snakes(&self) -> (r: &Vec<Battlesnake>)
        ensures
            r@ == self.snakes@,
            snakes_view(r@) == self@.snakes,
    {
        &self.snakes
    }

    pub fn get_snakes_mut(&mut self) -> (r: &mut Vec<Battlesnake>)
        ensures
            *r == old(self).snakes,
            final(self)@ == (BoardView { snakes: snakes_view(final(r)@), ..old(self)@ }),
    {
        &mut self.snakes
    }

    pub fn get_max_snakes(&self) -> (r: usize)
        ensures
            r == self@.max_snakes,
    {
        self.max_snakes
    }

    pub fn set_max_snakes(&mut self, max_snakes: usize)
        ensures
            final(self)@ == (BoardView { max_snakes: max_snakes as int, ..old(self)@ }),
    {
        self.max_snakes = max_snakes;
    }

    pub fn get_turn(&self) -> (r: i32)
        ensures
            r == self@.turn,
    {
        self.turn
    }

    pub fn set_turn(&mut self, turn: i32)
        ensures
            final(self)@ == (BoardView { turn: turn as int, ..old(self)@ }),
    {
        self.turn = turn;
    }

    pub fn increment_turn(&mut self)
        requires
            old(self)@.turn < i32::MAX,
        ensures
            final(self)@ == (BoardView { turn: old(self)@.turn + 1, ..old(self)@ }),
    {
        self.turn = self.turn + 1;
    }

    /// True when any serpent covers `pos` with any segment, the head included.
    pub fn body_collision(&self, pos: Coordinate) -> (r: bool)
        ensures
            r == self@.occupied(pos),
    {
        let mut i: usize = 0;
        while i < self.snakes.len()
            invariant
                0 <= i <= self.snakes@.len(),
                forall|a: int, k: int|
                    0 <= a < i && 0 <= k < self@.snakes[a].body.len()
                        ==> #[trigger] self@.snakes[a].body[k] != pos,
            decreases self.snakes@.len() - i,
        {
            let snake = &self.snakes[i];
            let mut k: usize = 0;
            while k < snake.body.len()
                invariant
                    0 <= k <= snake.body@.len(),
                    snake@ == self@.snakes[i as int],
                    i < self.snakes@.len(),
                    forall|j: int| 0 <= j < k ==> #[trigger] snake.body@[j] != pos,
                decreases snake.body@.len() - k,
            {
                if snake.body[k] == pos {
                    proof {
                        assert(self@.snakes[i as int].body[k as int] == pos);
                    }
                    return true;
                }
                k = k + 1;
            }
            i = i + 1;
        }
        false
    }

    /// The food tile closest to `pos` by Manhattan distance; among equally
    /// close tiles, the one listed first. `None` when the board has no food.
    pub fn find_closest_food(&self, pos: Coordinate) -> (r: Option<Coordinate>)
        requires
            self@.dims_ok(),
            self@.food_ok(),
            self@.near_bounds(pos),
        ensures
            r.is_some() <==> self@.food.len() > 0,
            self@.food.len() > 0 ==> r == Some(
                self@.food[closest_idx(self@.food, pos, self@.food.len() as int)],
            ),
    {
        if self.food.len() == 0 {
            return None;
        }
        let mut closest_food = self.food[0];
        proof {
            lemma_distance_in_range(self@, pos, closest_food);
        }
        let mut closest_distance = pos.distance_to(closest_food);
        let mut i: usize = 1;
        while i < self.food.len()
            invariant
                1 <= i <= self.food@.len(),
                self@.dims_ok(),
                self@.food_ok(),
                self@.near_bounds(pos),
                closest_food == self.food@[closest_idx(self.food@, pos, i as int)],
                closest_distance == manhattan(pos, closest_food),
            decreases self.food@.len() - i,
        {
            proof {
                lemma_closest_idx(self.food@, pos, i as int);
                assert(self@.in_bounds(self@.food[i as int]));
                lemma_distance_in_range(self@, pos, self@.food[i as int]);
            }
            let current_distance = pos.distance_to(self.food[i]);
            if current_distance < closest_distance {
                closest_distance = current_distance;
                closest_food = self.food[i];
            }
            i = i + 1;
        }
        Some(closest_food)
    }

    /// The head of the closest serpent that `current_snake` outweighs by at
    /// least `advantage`; among equally close heads, the one listed first.
    /// `None` when no such serpent lives.
    pub fn find_weaker_snake(&self, current_snake: &Battlesnake, advantage: i32) -> (r: Option<
        Coordinate,
    >)
        requires
            self@.dims_ok(),
            self@.grounded(),
            self@.snakes_ok(),
            self@.near_bounds(current_snake@.head),
        ensures
            ({
                let cands = weak_heads(
                    self@.snakes,
                    current_snake@,
                    advantage as int,
                    self@.snakes.len() as int,
                );
                &&& r.is_some() <==> cands.len() > 0
                &&& cands.len() > 0 ==> r == Some(
                    cands[closest_idx(cands, current_snake@.head, cands.len() as int)],
                )
            }),
    {
        let pos = current_snake.get_head();
        let mut closest_head: Option<Coordinate> = None;
        let mut closest_distance = i32::MAX;
        let mut i: usize = 0;

        while i < self.snakes.len()
            invariant
                0 <= i <= self.snakes@.len(),
                self@.dims_ok(),
                self@.grounded(),
                self@.snakes_ok(),
                self@.near_bounds(current_snake@.head),
                pos == current_snake@.head,
                ({
                    let cands = weak_heads(self@.snakes, current_snake@, advantage as int, i as int);
                    &&& closest_head.is_some() <==> cands.len() > 0
                    &&& cands.len() > 0 ==> {
                        let b = closest_idx(cands, pos, cands.len() as int);
                        &&& closest_head == Some(cands[b])
                        &&& closest_distance == manhattan(pos, cands[b])
                    }
                    &&& cands.len() == 0 ==> closest_distance == i32::MAX
                }),
            decreases self.snakes@.len() - i,
        {
            let ghost cands_old = weak_heads(
                self@.snakes,
                current_snake@,
                advantage as int,
                i as int,
            );
            let ghost cands_new = weak_heads(
                self@.snakes,
                current_snake@,
                advantage as int,
                i + 1,
            );
            let snake = &self.snakes[i];
            proof {
                assert(self@.snakes[i as int].wf());
                assert(self@.in_bounds(self@.snakes[i as int].body[0]));
                lemma_distance_in_range(self@, pos, self@.snakes[i as int].head);
            }
            let weak = snake.get_id() != current_snake.get_id() && snake.get_length() as i128
                <= current_snake.get_length() as i128 - advantage as i128;
            proof {
                assert(weak == weaker(self@.snakes[i as int], current_snake@, advantage as int));
                if weak {
                    assert(cands_new =~= cands_old.push(self@.snakes[i as int].head));
                    lemma_closest_idx_prefix(cands_old, cands_new, pos, cands_old.len() as int);
                    if cands_old.len() > 0 {
                        lemma_closest_idx(cands_old, pos, cands_old.len() as int);
                        lemma_closest_idx(cands_new, pos, cands_new.len() as int);
                    }
                } else {
                    assert(cands_new =~= cands_old);
                }
            }
            if weak {
                let current_distance = pos.distance_to(snake.get_head());
                if current_distance < closest_distance {
                    closest_distance = current_distance;
                    closest_head = Some(snake.get_head());
                }
            }
            i = i + 1;
        }

        closest_head
    }

    /// The serpent with id `snake_id`, or `None` when no live serpent has it.
    pub fn get_snake(&self, snake_id: u8) -> (r: Option<&Battlesnake>)
        ensures
            r.is_some() <==> (exists|i: int|
                0 <= i < self@.snakes.len() && (#[trigger] self@.snakes[i]).id == snake_id),
            match r {
                Some(s) => exists|i: int|
                    0 <= i < self@.snakes.len() && (#[trigger] self@.snakes[i]).id == snake_id
                        && s@ == self@.snakes[i],
                None => true,
            },
    {
        let mut i: usize = 0;
        while i < self.snakes.len()
            invariant
                0 <= i <= self.snakes@.len(),
                forall|j: int| 0 <= j < i ==> (#[trigger] self@.snakes[j]).id != snake_id,
            decreases self.snakes@.len() - i,
        {
            if self.snakes[i].get_id() == snake_id {
                proof {
                    assert(self@.snakes[i as int].id == snake_id);
                }
                return Some(&self.snakes[i]);
            }
            i = i + 1;
        }
        None
    }

    /// True when any serpent covers `pos` with a segment other than its own
    /// last one.
    pub fn tile_covered(&self, pos: Coordinate) -> (r: bool)
        ensures
            r == self@.covered(pos),
    {
        let mut i: usize = 0;
        while i < self.snakes.len()
            invariant
                0 <= i <= self.snakes@.len(),
                forall|a: int, k: int|
                    0 <= a < i && 0 <= k < self@.snakes[a].body.len() - 1
                        ==> #[trigger] self@.snakes[a].body[k] != pos,
            decreases self.snakes@.len() - i,
        {
            let snake = &self.snakes[i];
            let n = snake.body.len();
            if n > 0 {
                let mut k: usize = 0;
                while k < n - 1
                    invariant
                        0 <= k <= n,
                        n == snake.body@.len(),
                        1 <= n,
                        snake@ == self@.snakes[i as int],
                        i < self.snakes@.len(),
                        forall|j: int| 0 <= j < k ==> #[trigger] snake.body@[j] != pos,
                    decreases snake.body@.len() - k,
                {
                    if snake.body[k] == pos {
                        proof {
                            assert(self@.snakes[i as int].body[k as int] == pos);
                        }
                        return true;
                    }
                    k = k + 1;
                }
            }
            i = i + 1;
        }
        false
    }

    /// How many of the four neighbours of the serpent's head are on the grid
    /// and not blocked by a body segment that will still be there next tick.
    pub fn open_directions(&self, snake: &Battlesnake) -> (r: i32)
        requires
            self@.dims_ok(),
            self@.in_bounds(snake@.head),
        ensures
            r == open_directions_spec(self@, snake@),
            0 <= r <= 4,
    {
        let mut options: i32 = 0;
        let head = snake.get_head();

        let down = head.get_down();
        if !self.is_out_of_bounds(down) && !self.tile_covered(down) {
            options = options + 1;
        }
        let up = head.get_up();
        if !self.is_out_of_bounds(up) && !self.tile_covered(up) {
            options = options + 1;
        }
        let right = head.get_right();
        if !self.is_out_of_bounds(right) && !self.tile_covered(right) {
            options = options + 1;
        }
        let left = head.get_left();
        if !self.is_out_of_bounds(left) && !self.tile_covered(left) {
            options = options + 1;
        }

        options
    }

    /// True when `pos` lies on the outermost ring of the grid.
    pub fn is_against_wall(&self, pos: Coordinate) -> (r: bool)
        requires
            self@.dims_ok(),
        ensures
            r == (pos.x == 0 || pos.x == self@.width - 1 || pos.y == 0 || pos.y == self@.height
                - 1),
    {
        pos.get_x() == 0 || pos.get_x() == self.width - 1 || pos.get_y() == 0 || pos.get_y()
            == self.height - 1
    }

    /// True when `pos` lies off the grid.
    pub fn is_out_of_bounds(&self, pos: Coordinate) -> (r: bool)
        ensures
            r == !self@.in_bounds(pos),
    {
        pos.get_x() < 0 || pos.get_x() >= self.width || pos.get_y() < 0 || pos.get_y()
            >= self.height
    }
}

} // verus!
