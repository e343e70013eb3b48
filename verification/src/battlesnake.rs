use vstd::prelude::*;

use crate::constants::MAX_HEALTH;
use crate::coordinate::{adjacency_safe, Coordinate};

verus! {

/// The mathematical value of a serpent: every field as seen by contracts.
#[verifier::ext_equal]
pub ghost struct SnakeView {
    pub id: u8,
    pub health: int,
    pub body: Seq<Coordinate>,
    pub latency: int,
    pub head: Coordinate,
    pub length: int,
}

impl SnakeView {
    /// Structural invariant: the cached head and length agree with the body,
    /// and a serpent always has at least one segment.
    pub open spec fn wf(self) -> bool {
        &&& self.body.len() == self.length
        &&& self.length >= 1
        &&& self.head == self.body[0]
    }

    /// The serpent after advancing one tile: the tail vacates, `pos` becomes
    /// the new head, one point of health is spent.
    pub open spec fn moved_to(self, pos: Coordinate) -> SnakeView {
        SnakeView {
            body: seq![pos] + self.body.drop_last(),
            head: pos,
            health: self.health - 1,
            ..self
        }
    }

    /// The serpent after eating: full health, the tail duplicated, one longer.
    pub open spec fn fed(self) -> SnakeView {
        SnakeView {
            health: MAX_HEALTH as int,
            body: self.body.push(self.body.last()),
            length: self.length + 1,
            ..self
        }
    }

    /// The cardinal direction (down, up, right, left as 0..3) that option
    /// `direction` of this serpent stands for.
    pub open spec fn direction_spec(self, direction: usize) -> usize {
        let neck = self.body[1];
        if neck == self.head.down_spec() {
            if direction == 0 {
                1usize
            } else if direction == 1 {
                2usize
            } else {
                3usize
            }
        } else if neck == self.head.up_spec() {
            if direction == 0 {
                0usize
            } else if direction == 1 {
                2usize
            } else {
                3usize
            }
        } else if neck == self.head.right_spec() {
            if direction == 0 {
                0usize
            } else if direction == 1 {
                1usize
            } else {
                3usize
            }
        } else {
            if direction == 0 {
                0usize
            } else if direction == 1 {
                1usize
            } else {
                2usize
            }
        }
    }

    /// True when this serpent's head lies on a segment of `other`'s body other
    /// than `other`'s head.
    pub open spec fn body_collision_spec(self, other: SnakeView) -> bool {
        exists|k: int| 1 <= k < other.body.len() && other.body[k] == self.head
    }

    /// True when `self` loses a head-to-head meeting with `other`: distinct
    /// ids, coinciding heads, and `self` is not strictly longer. Equal lengths
    /// kill both sides.
    pub open spec fn lost_headon_spec(self, other: SnakeView) -> bool {
        &&& self.id != other.id
        &&& self.head == other.head
        &&& self.length <= other.length
    }

    /// The serpent's three legal next head positions: every neighbour of the
    /// head except the neck (the second body segment). The enumeration order
    /// depends on where the neck sits.
    pub open spec fn option_spec(self, direction: usize) -> Coordinate {
        let neck = self.body[1];
        if neck == self.head.down_spec() {
            if direction == 0 {
                self.head.up_spec()
            } else if direction == 1 {
                self.head.right_spec()
            } else {
                self.head.left_spec()
            }
        } else if neck == self.head.up_spec() {
            if direction == 0 {
                self.head.down_spec()
            } else if direction == 1 {
                self.head.right_spec()
            } else {
                self.head.left_spec()
            }
        } else if neck == self.head.right_spec() {
            if direction == 0 {
                self.head.down_spec()
            } else if direction == 1 {
                self.head.up_spec()
            } else {
                self.head.left_spec()
            }
        } else {
            if direction == 0 {
                self.head.down_spec()
            } else if direction == 1 {
                self.head.up_spec()
            } else {
                self.head.right_spec()
            }
        }
    }
}

/// One participant: identity, health and the ordered body, head first.
#[derive(Debug, PartialEq, Eq)]
pub struct Battlesnake {
    pub id: u8,
    pub health: i32,
    pub body: std::collections::VecDeque<Coordinate>,
    pub latency: i32,
    pub head: Coordinate,
    pub length: usize,
}

impl View for Battlesnake {
    type V = SnakeView;

    open spec fn view(&self) -> SnakeView {
        SnakeView {
            id: self.id,
            health: self.health as int,
            body: self.body@,
            latency: self.latency as int,
            head: self.head,
            length: self.length as int,
        }
    }
}

impl Clone for Battlesnake {
    fn clone(&self) -> (r: Self)
        ensures
            r@ == self@,
    {
        let r = Battlesnake {
            id: self.id,
            health: self.health,
            body: self.body.clone(),
            latency: self.latency,
            head: self.head,
            length: self.length,
        };
        proof {
            assert(r.body@ =~= self.body@);
            assert(r@ =~= self@);
        }
        r
    }
}

impl Battlesnake {
    pub open spec fn wf(&self) -> bool {
        self@.wf()
    }

    pub fn new(
        id: u8,
        health: i32,
        body: std::collections::VecDeque<Coordinate>,
        latency: i32,
        head: Coordinate,
        length: usize,
    ) -> (r: Battlesnake)
        ensures
            r@ == (SnakeView {
                id,
                health: health as int,
                body: body@,
                latency: latency as int,
                head,
                length: length as int,
            }),
    {
        Battlesnake { id, health, body, latency, head, length }
    }

    pub fn get_id(&self) -> (r: u8)
        ensures
            r == self@.id,
    {
        self.id
    }

    pub fn set_id(&mut self, id: u8)
        ensures
            final(self)@ == (SnakeView { id, ..old(self)@ }),
    {
        self.id = id;
    }

    pub fn get_health(&self) -> (r: i32)
        ensures
            r == self@.health,
    {
        self.health
    }

    pub fn set_health(&mut self, health: i32)
        ensures
            final(self)@ == (SnakeView { health: health as int, ..old(self)@ }),
    {
        self.health = health;
    }

    pub fn get_body(&self) -> (r: &std::collections::VecDeque<Coordinate>)
        ensures
            r@ == self@.body,
    {
        &self.body
    }

    pub fn get_body_mut(&mut self) -> (r: &mut std::collections::VecDeque<Coordinate>)
        ensures
            *r == old(self).body,
            final(self)@ == (SnakeView { body: final(r)@, ..old(self)@ }),
    {
        &mut self.body
    }

    pub fn set_latency(&mut self, latency: i32)
        ensures
            final(self)@ == (SnakeView { latency: latency as int, ..old(self)@ }),
    {
        self.latency = latency;
    }

    pub fn get_head(&self) -> (r: Coordinate)
        ensures
            r == self@.head,
    {
        self.head
    }

    pub fn set_head(&mut self, head: Coordinate)
        ensures
            final(self)@ == (SnakeView { head, ..old(self)@ }),
    {
        self.head = head;
    }

    pub fn get_length(&self) -> (r: usize)
        ensures
            r == self@.length,
    {
        self.length
    }

    pub fn set_length(&mut self, length: usize)
        ensures
            final(self)@ == (SnakeView { length: length as int, ..old(self)@ }),
    {
        self.length = length;
    }

    pub fn get_down(&self) -> (r: Coordinate)
        requires
            self@.head.y > i32::MIN,
        ensures
            r == self@.head.down_spec(),
    {
        self.head.get_down()
    }

    pub fn get_up(&self) -> (r: Coordinate)
        requires
            self@.head.y < i32::MAX,
        ensures
            r == self@.head.up_spec(),
    {
        self.head.get_up()
    }

    pub fn get_right(&self) -> (r: Coordinate)
        requires
            self@.head.x < i32::MAX,
        ensures
            r == self@.head.right_spec(),
    {
        self.head.get_right()
    }

    pub fn get_left(&self) -> (r: Coordinate)
        requires
            self@.head.x > i32::MIN,
        ensures
            r == self@.head.left_spec(),
    {
        self.head.get_left()
    }

    pub fn body_collision_with(&self, other: &Battlesnake) -> (r: bool)
        ensures
            r == self@.body_collision_spec(other@),
    {
        let mut k: usize = 1;
        while k < other.body.len()
            invariant
                1 <= k,
                forall|j: int| 1 <= j < k ==> other.body@[j] != self.head,
            decreases other.body@.len() - k,
        {
            if other.body[k] == self.head {
                proof {
                    assert(1 <= k < other@.body.len() && other@.body[k as int] == self@.head);
                    assert(self@.body_collision_spec(other@));
                }
                return true;
            }
            k = k + 1;
        }
        false
    }

    pub fn eat_food(&mut self)
        requires
            old(self)@.body.len() >= 1,
            old(self)@.length < usize::MAX,
        ensures
            final(self)@ == old(self)@.fed(),
    {
        self.health = MAX_HEALTH;
        let tail = self.body[self.body.len() - 1];
        self.body.push_back(tail);
        self.length = self.length + 1;
        proof {
            assert(self@ =~= old(self)@.fed());
        }
    }

    pub fn get_option(&self, direction: usize) -> (r: Coordinate)
        requires
            self@.body.len() >= 2,
            direction < 3,
            adjacency_safe(self@.head),
        ensures
            r == self@.option_spec(direction),
    {
        let second = self.body[1];

        if second == self.get_down() {
            match direction {
                0 => self.get_up(),
                1 => self.get_right(),
                _ => self.get_left(),
            }
        } else if second == self.get_up() {
            match direction {
                0 => self.get_down(),
                1 => self.get_right(),
                _ => self.get_left(),
            }
        } else if second == self.get_right() {
            match direction {
                0 => self.get_down(),
                1 => self.get_up(),
                _ => self.get_left(),
            }
        } else {
            match direction {
                0 => self.get_down(),
                1 => self.get_up(),
                _ => self.get_right(),
            }
        }
    }

    /// Which cardinal direction option `direction` stands for, numbered
    /// down, up, right, left.
    pub fn get_direction(&self, direction: usize) -> (r: usize)
        requires
            self@.body.len() >= 2,
            direction < 3,
            adjacency_safe(self@.head),
        ensures
            r == self@.direction_spec(direction),
            r < 4,
    {
        let second = self.body[1];

        if second == self.get_down() {
            match direction {
                0 => 1,
                1 => 2,
                _ => 3,
            }
        } else if second == self.get_up() {
            match direction {
                0 => 0,
                1 => 2,
                _ => 3,
            }
        } else if second == self.get_right() {
            match direction {
                0 => 0,
                1 => 1,
                _ => 3,
            }
        } else {
            match direction {
                0 => 0,
                1 => 1,
                _ => 2,
            }
        }
    }

    pub fn lost_headon(&self, other: &Battlesnake) -> (r: bool)
        ensures
            r == self@.lost_headon_spec(other@),
    {
        self.id != other.get_id() && self.head == other.get_head()
            && self.length <= other.get_length()
    }

    pub fn move_to(&mut self, pos: Coordinate)
        requires
            old(self)@.body.len() >= 1,
            old(self)@.health > i32::MIN,
        ensures
            final(self)@ == old(self)@.moved_to(pos),
    {
        self.body.pop_back();
        self.body.push_front(pos);
        self.head = pos;
        self.health = self.health - 1;
        proof {
            assert(self@.body =~= old(self)@.moved_to(pos).body);
            assert(self@ =~= old(self)@.moved_to(pos));
        }
    }
}

} // verus!
