use vstd::prelude::*;

verus! {

/// The mathematical value of a ruleset.
#[verifier::ext_equal]
pub ghost struct RulesetView {
    pub name: Seq<char>,
    pub version: Seq<char>,
    pub food_spawn_chance: int,
    pub minimum_food: int,
    pub hazard_damage_per_turn: int,
    pub shrink_every_n_turns: int,
    pub allow_body_collisions: bool,
    pub shared_elimination: bool,
    pub shared_health: bool,
    pub shared_length: bool,
}

/// Static per-game parameters. The simulator consults `minimum_food`; the
/// rest is record-keeping carried through from intake.
#[derive(Debug)]
pub struct Ruleset {
    pub name: String,
    pub version: String,
    pub food_spawn_chance: i32,
    pub minimum_food: i32,
    pub hazard_damage_per_turn: i32,
    pub shrink_every_n_turns: i32,
    pub allow_body_collisions: bool,
    pub shared_elimination: bool,
    pub shared_health: bool,
    pub shared_length: bool,
}

impl View for Ruleset {
    type V = RulesetView;

    open spec fn view(&self) -> RulesetView {
        RulesetView {
            name: self.name@,
            version: self.version@,
            food_spawn_chance: self.food_spawn_chance as int,
            minimum_food: self.minimum_food as int,
            hazard_damage_per_turn: self.hazard_damage_per_turn as int,
            shrink_every_n_turns: self.shrink_every_n_turns as int,
            allow_body_collisions: self.allow_body_collisions,
            shared_elimination: self.shared_elimination,
            shared_health: self.shared_health,
            shared_length: self.shared_length,
        }
    }
}

impl Clone for Ruleset {
    fn clone(&self) -> (r: Self)
        ensures
            r@ == self@,
    {
        let r = Ruleset {
            name: self.name.clone(),
            version: self.version.clone(),
            food_spawn_chance: self.food_spawn_chance,
            minimum_food: self.minimum_food,
            hazard_damage_per_turn: self.hazard_damage_per_turn,
            shrink_every_n_turns: self.shrink_every_n_turns,
            allow_body_collisions: self.allow_body_collisions,
            shared_elimination: self.shared_elimination,
            shared_health: self.shared_health,
            shared_length: self.shared_length,
        };
        proof {
            assert(r@ =~= self@);
        }
        r
    }
}

impl Ruleset {
    pub fn new(
        name: String,
        version: String,
        food_spawn_chance: i32,
        minimum_food: i32,
        hazard_damage_per_turn: i32,
        shrink_every_n_turns: i32,
        allow_body_collisions: bool,
        shared_elimination: bool,
        shared_health: bool,
        shared_length: bool,
    ) -> (r: Ruleset)
        ensures
            r@ == (RulesetView {
                name: name@,
                version: version@,
                food_spawn_chance: food_spawn_chance as int,
                minimum_food: minimum_food as int,
                hazard_damage_per_turn: hazard_damage_per_turn as int,
                shrink_every_n_turns: shrink_every_n_turns as int,
                allow_body_collisions,
                shared_elimination,
                shared_health,
                shared_length,
            }),
    {
        Ruleset {
            name,
            version,
            food_spawn_chance,
            minimum_food,
            hazard_damage_per_turn,
            shrink_every_n_turns,
            allow_body_collisions,
            shared_elimination,
            shared_health,
            shared_length,
        }
    }

    pub fn get_minimum_food(&self) -> (r: i32)
        ensures
            r == self@.minimum_food,
    {
        self.minimum_food
    }
}

} // verus!
