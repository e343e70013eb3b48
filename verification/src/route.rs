use vstd::prelude::*;

verus! {

/// A search outcome summarised along one line of play: whether the agent
/// lives, for how many turns, the kills and the food on both sides, and
/// whether the agent ends up alone.
#[derive(Clone, Copy, Debug, PartialEq, Eq, Structural)]
pub struct Route {
    pub survival: bool,
    pub turns: i32,
    pub solo: bool,
    pub snakes_killed: i32,
    pub my_food: i32,
    pub opponent_food: i32,
}

/// How two routes compare: survival first, then turns survived, then kills,
/// then own food, then (inverted) opponent food, then being left alone.
pub open spec fn route_order(a: Route, b: Route) -> core::cmp::Ordering {
    if a.survival && !b.survival {
        core::cmp::Ordering::Greater
    } else if !a.survival && b.survival {
        core::cmp::Ordering::Less
    } else if a.turns > b.turns {
        core::cmp::Ordering::Greater
    } else if a.turns < b.turns {
        core::cmp::Ordering::Less
    } else if a.snakes_killed > b.snakes_killed {
        core::cmp::Ordering::Greater
    } else if a.snakes_killed < b.snakes_killed {
        core::cmp::Ordering::Less
    } else if a.my_food > b.my_food {
        core::cmp::Ordering::Greater
    } else if a.my_food < b.my_food {
        core::cmp::Ordering::Less
    } else if a.opponent_food < b.opponent_food {
        core::cmp::Ordering::Greater
    } else if a.opponent_food > b.opponent_food {
        core::cmp::Ordering::Less
    } else if a.solo && !b.solo {
        core::cmp::Ordering::Greater
    } else if !a.solo && b.solo {
        core::cmp::Ordering::Less
    } else {
        core::cmp::Ordering::Equal
    }
}

impl Route {
    pub fn new(
        survival: bool,
        turns: i32,
        solo: bool,
        snakes_killed: i32,
        my_food: i32,
        opponent_food: i32,
    ) -> (r: Route)
        ensures
            r == (Route { survival, turns, solo, snakes_killed, my_food, opponent_food }),
    {
        Route { survival, turns, solo, snakes_killed, my_food, opponent_food }
    }

    pub fn get_survival(&self) -> (r: bool)
        ensures
            r == self.survival,
    {
        self.survival
    }

    pub fn set_survival(&mut self, survival: bool)
        ensures
            *final(self) == (Route { survival, ..*old(self) }),
    {
        self.survival = survival;
    }

    pub fn increment_turns(&mut self)
        requires
            old(self).turns < i32::MAX,
        ensures
            *final(self) == (Route { turns: (old(self).turns + 1) as i32, ..*old(self) }),
    {
        self.turns = self.turns + 1;
    }

    pub fn set_solo(&mut self, solo: bool)
        ensures
            *final(self) == (Route { solo, ..*old(self) }),
    {
        self.solo = solo;
    }

    pub fn increment_snakes_killed(&mut self)
        requires
            old(self).snakes_killed < i32::MAX,
        ensures
            *final(self) == (Route {
                snakes_killed: (old(self).snakes_killed + 1) as i32,
                ..*old(self)
            }),
    {
        self.snakes_killed = self.snakes_killed + 1;
    }

    pub fn increment_my_food(&mut self)
        requires
            old(self).my_food < i32::MAX,
        ensures
            *final(self) == (Route { my_food: (old(self).my_food + 1) as i32, ..*old(self) }),
    {
        self.my_food = self.my_food + 1;
    }

    pub fn increment_opponent_food(&mut self)
        requires
            old(self).opponent_food < i32::MAX,
        ensures
            *final(self) == (Route {
                opponent_food: (old(self).opponent_food + 1) as i32,
                ..*old(self)
            }),
    {
        self.opponent_food = self.opponent_food + 1;
    }
}

impl PartialOrd for Route {
    fn partial_cmp(&self, other: &Route) -> (r: Option<core::cmp::Ordering>)
        ensures
            r == Some(route_order(*self, *other)),
    {
        if self.survival && !other.survival {
            Some(core::cmp::Ordering::Greater)
        } else if !self.survival && other.survival {
            Some(core::cmp::Ordering::Less)
        } else if self.turns > other.turns {
            Some(core::cmp::Ordering::Greater)
        } else if self.turns < other.turns {
            Some(core::cmp::Ordering::Less)
        } else if self.snakes_killed > other.snakes_killed {
            Some(core::cmp::Ordering::Greater)
        } else if self.snakes_killed < other.snakes_killed {
            Some(core::cmp::Ordering::Less)
        } else if self.my_food > other.my_food {
            Some(core::cmp::Ordering::Greater)
        } else if self.my_food < other.my_food {
            Some(core::cmp::Ordering::Less)
        } else if self.opponent_food < other.opponent_food {
            Some(core::cmp::Ordering::Greater)
        } else if self.opponent_food > other.opponent_food {
            Some(core::cmp::Ordering::Less)
        } else if self.solo && !other.solo {
            Some(core::cmp::Ordering::Greater)
        } else if !self.solo && other.solo {
            Some(core::cmp::Ordering::Less)
        } else {
            Some(core::cmp::Ordering::Equal)
        }
    }
}

impl vstd::std_specs::cmp::PartialOrdSpecImpl for Route {
    open spec fn obeys_partial_cmp_spec() -> bool {
        true
    }

    open spec fn partial_cmp_spec(&self, other: &Route) -> Option<core::cmp::Ordering> {
        Some(route_order(*self, *other))
    }
}

} // verus!
