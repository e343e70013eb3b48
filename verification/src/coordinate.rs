use vstd::prelude::*;

verus! {

/// A position on the grid. `x` grows to the right, `y` grows upward.
#[derive(Clone, Copy, Debug, Eq, PartialEq, Structural)]
pub struct Coordinate {
    pub x: i32,
    pub y: i32,
}

/// Manhattan distance between two coordinates, as a mathematical integer.
pub open spec fn manhattan(a: Coordinate, b: Coordinate) -> int {
    vstd::math::abs(a.x - b.x) as int + vstd::math::abs(a.y - b.y) as int
}

/// True when both neighbours of `c` on each axis stay representable,
/// so the four adjacent coordinates can be computed without overflow.
pub open spec fn adjacency_safe(c: Coordinate) -> bool {
    &&& i32::MIN < c.x < i32::MAX
    &&& i32::MIN < c.y < i32::MAX
}

impl Coordinate {
    pub fn new(x: i32, y: i32) -> (r: Coordinate)
        ensures
            r == (Coordinate { x, y }),
    {
        Coordinate { x, y }
    }

    pub fn get_x(&self) -> (r: i32)
        ensures
            r == self.x,
    {
        self.x
    }

    pub fn get_y(&self) -> (r: i32)
        ensures
            r == self.y,
    {
        self.y
    }

    /// Manhattan distance from `self` to `other`.
    pub fn distance_to(&self, other: Coordinate) -> (r: i32)
        requires
            i32::MIN <= self.x - other.x <= i32::MAX,
            i32::MIN <= self.y - other.y <= i32::MAX,
            self.x - other.x != i32::MIN,
            self.y - other.y != i32::MIN,
            manhattan(*self, other) <= i32::MAX,
        ensures
            r == manhattan(*self, other),
    {
        let dx = self.x - other.x;
        let dy = self.y - other.y;
        let ax = if dx < 0 { -dx } else { dx };
        let ay = if dy < 0 { -dy } else { dy };
        ax + ay
    }

    /// The four neighbours, in the fixed order down, up, right, left.
    pub fn get_adjacent(&self) -> (r: [Coordinate; 4])
        requires
            adjacency_safe(*self),
        ensures
            r[0] == self.down_spec(),
            r[1] == self.up_spec(),
            r[2] == self.right_spec(),
            r[3] == self.left_spec(),
    {
        [self.get_down(), self.get_up(), self.get_right(), self.get_left()]
    }

    pub open spec fn down_spec(&self) -> Coordinate {
        Coordinate { x: self.x, y: (self.y - 1) as i32 }
    }

    pub open spec fn up_spec(&self) -> Coordinate {
        Coordinate { x: self.x, y: (self.y + 1) as i32 }
    }

    pub open spec fn right_spec(&self) -> Coordinate {
        Coordinate { x: (self.x + 1) as i32, y: self.y }
    }

    pub open spec fn left_spec(&self) -> Coordinate {
        Coordinate { x: (self.x - 1) as i32, y: self.y }
    }

    pub fn get_down(&self) -> (r: Coordinate)
        requires
            self.y > i32::MIN,
        ensures
            r == self.down_spec(),
            r.x == self.x && r.y == self.y - 1,
    {
        Coordinate { x: self.x, y: self.y - 1 }
    }

    pub fn get_up(&self) -> (r: Coordinate)
        requires
            self.y < i32::MAX,
        ensures
            r == self.up_spec(),
            r.x == self.x && r.y == self.y + 1,
    {
        Coordinate { x: self.x, y: self.y + 1 }
    }

    pub fn get_right(&self) -> (r: Coordinate)
        requires
            self.x < i32::MAX,
        ensures
            r == self.right_spec(),
            r.x == self.x + 1 && r.y == self.y,
    {
        Coordinate { x: self.x + 1, y: self.y }
    }

    pub fn get_left(&self) -> (r: Coordinate)
        requires
            self.x > i32::MIN,
        ensures
            r == self.left_spec(),
            r.x == self.x - 1 && r.y == self.y,
    {
        Coordinate { x: self.x - 1, y: self.y }
    }
}

} // verus!
