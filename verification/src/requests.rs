use vstd::prelude::*;
use vstd::string::StringSliceAdditionalSpecFns;

use crate::battlesnake::{Battlesnake, SnakeView};
use crate::board::{snakes_view, Board, BoardView};
use crate::coordinate::Coordinate;
use crate::game::{Game, GameView};
use crate::ruleset::{Ruleset, RulesetView};

verus! {

/// An ASCII decimal digit.
pub open spec fn is_ascii_digit(b: u8) -> bool {
    48 <= b <= 57
}

pub open spec fn all_ascii_digits(bs: Seq<u8>) -> bool {
    forall|i: int| 0 <= i < bs.len() ==> is_ascii_digit(#[trigger] bs[i])
}

/// The value of a string of decimal digits.
pub open spec fn digits_val(bs: Seq<u8>) -> int
    decreases bs.len(),
{
    if bs.len() == 0 {
        0
    } else {
        digits_val(bs.drop_last()) * 10 + (bs.last() - 48)
    }
}

/// What `str::parse::<i32>` accepts: an optional sign, then one or more
/// decimal digits, the whole value within `i32`.
pub open spec fn parse_i32_bytes(bs: Seq<u8>) -> Option<int> {
    let sign: int = if bs.len() > 0 && bs[0] == 45 {
        -1
    } else {
        1
    };
    let digits = if bs.len() > 0 && (bs[0] == 43 || bs[0] == 45) {
        bs.drop_first()
    } else {
        bs
    };
    if digits.len() == 0 || !all_ascii_digits(digits) {
        None
    } else {
        let v = sign * digits_val(digits);
        if i32::MIN <= v <= i32::MAX {
            Some(v)
        } else {
            None
        }
    }
}

/// The parsed value, or 0 where the text is not a decimal `i32`.
pub open spec fn latency_of(bs: Seq<u8>) -> int {
    match parse_i32_bytes(bs) {
        Some(v) => v,
        None => 0,
    }
}

proof fn lemma_digits_val_nonneg(bs: Seq<u8>)
    requires
        all_ascii_digits(bs),
    ensures
        digits_val(bs) >= 0,
    decreases bs.len(),
{
    if bs.len() > 0 {
        assert(is_ascii_digit(bs[bs.len() - 1]));
        assert(all_ascii_digits(bs.drop_last())) by {
            assert(forall|i: int|
                0 <= i < bs.len() - 1 ==> #[trigger] bs.drop_last()[i] == bs[i]);
        }
        lemma_digits_val_nonneg(bs.drop_last());
    }
}

/// Parse a latency report: the numeric value, or 0 for anything else,
/// exactly as `str::parse::<i32>().unwrap_or(0)` reads it.
pub fn parse_latency(s: &str) -> (r: i32)
    ensures
        r == latency_of(s.spec_bytes()),
{
    let bytes = s.as_bytes();
    let n = bytes.len();
    let ghost bs = s.spec_bytes();

    let mut start: usize = 0;
    let mut negative = false;
    if n > 0 && (bytes[0] == 43 || bytes[0] == 45) {
        start = 1;
        negative = bytes[0] == 45;
    }
    let ghost digits = if bs.len() > 0 && (bs[0] == 43 || bs[0] == 45) {
        bs.drop_first()
    } else {
        bs
    };
    if n == start {
        // no digits at all
        return 0;
    }

    // Accumulate the magnitude; past the `i32` range only the fact of the
    // overflow matters, so the accumulator saturates just above it.
    let mut acc: i64 = 0;
    let mut k: usize = start;
    while k < n
        invariant
            start <= k <= n,
            n == bs.len(),
            start == (if bs.len() > 0 && (bs[0] == 43 || bs[0] == 45) {
                1int
            } else {
                0int
            }),
            digits == bs.skip(start as int),
            n - start == digits.len(),
            all_ascii_digits(digits.take(k - start)),
            (acc == digits_val(digits.take(k - start)) && acc <= 0x8000_0000u64 as i64) || (acc
                == 0x8000_0001u64 as i64 && digits_val(digits.take(k - start)) > 0x8000_0000u64),
            bytes@ == bs,
            bs == s.spec_bytes(),
            negative == (bs.len() > 0 && bs[0] == 45),
        decreases n - k,
    {
        let b = bytes[k];
        if b < 48 || b > 57 {
            proof {
                assert(digits[k as int - start] == bs[k as int]);
                assert(!is_ascii_digit(digits[k as int - start]));
                assert(!all_ascii_digits(digits));
                assert(digits == (if bs.len() > 0 && (bs[0] == 43 || bs[0] == 45) {
                    bs.drop_first()
                } else {
                    bs
                })) by {
                    if bs.len() > 0 && (bs[0] == 43 || bs[0] == 45) {
                        assert(bs.drop_first() =~= bs.skip(1));
                    } else {
                        assert(bs.skip(0) =~= bs);
                    }
                }
                assert(parse_i32_bytes(bs) == Option::<int>::None);
            }
            return 0;
        }
        proof {
            let pre = digits.take(k - start as int);
            let cur = digits.take(k + 1 - start as int);
            assert(cur =~= pre.push(digits[k as int - start]));
            assert(cur.drop_last() =~= pre);
            assert(all_ascii_digits(cur)) by {
                assert(forall|i: int|
                    0 <= i < cur.len() - 1 ==> #[trigger] cur[i] == pre[i]);
            }
            lemma_digits_val_nonneg(pre);
        }
        let d = (b - 48) as i64;
        if acc > 0x8000_0000i64 {
            acc = 0x8000_0001i64;
        } else {
            let next = acc * 10 + d;
            if next > 0x8000_0000i64 {
                acc = 0x8000_0001i64;
            } else {
                acc = next;
            }
        }
        proof {
            let cur = digits.take(k + 1 - start as int);
            if acc == 0x8000_0001i64 {
                assert(digits_val(cur) > 0x8000_0000u64);
            }
        }
        k = k + 1;
    }

    proof {
        assert(digits.take(n - start as int) =~= digits);
        lemma_digits_val_nonneg(digits);
        assert(digits == (if bs.len() > 0 && (bs[0] == 43 || bs[0] == 45) {
            bs.drop_first()
        } else {
            bs
        })) by {
            if bs.len() > 0 && (bs[0] == 43 || bs[0] == 45) {
                assert(bs.drop_first() =~= bs.skip(1));
            } else {
                assert(bs.skip(0) =~= bs);
            }
        }
    }
    if negative {
        if acc <= 0x8000_0000i64 {
            proof {
                assert(parse_i32_bytes(bs) == Some(-1 * digits_val(digits)));
            }
            (-acc) as i32
        } else {
            0
        }
    } else {
        if acc <= 0x7FFF_FFFFi64 {
            proof {
                assert(parse_i32_bytes(bs) == Some(1 * digits_val(digits)));
            }
            acc as i32
        } else {
            0
        }
    }
}


/// The serpent a request reports, before ids are assigned.
#[verifier::ext_equal]
pub ghost struct InputSnakeView {
    pub id: Seq<char>,
    pub name: Seq<char>,
    pub health: int,
    pub body: Seq<Coordinate>,
    pub latency: Seq<char>,
    pub head: Coordinate,
    pub length: int,
    pub shout: Seq<char>,
}

#[derive(Debug)]
pub struct InputSnake {
    pub id: String,
    pub name: String,
    pub health: i32,
    pub body: Vec<Coordinate>,
    pub latency: String,
    pub head: Coordinate,
    pub length: usize,
    pub shout: String,
}

impl View for InputSnake {
    type V = InputSnakeView;

    open spec fn view(&self) -> InputSnakeView {
        InputSnakeView {
            id: self.id@,
            name: self.name@,
            health: self.health as int,
            body: self.body@,
            latency: self.latency@,
            head: self.head,
            length: self.length as int,
            shout: self.shout@,
        }
    }
}

impl Clone for InputSnake {
    fn clone(&self) -> (r: Self)
        ensures
            r@ == self@,
    {
        let r = InputSnake {
            id: self.id.clone(),
            name: self.name.clone(),
            health: self.health,
            body: self.body.clone(),
            latency: self.latency.clone(),
            head: self.head,
            length: self.length,
            shout: self.shout.clone(),
        };
        proof {
            assert(r.body@ =~= self.body@);
            assert(r@ =~= self@);
        }
        r
    }
}

/// The serpent an input record stands for, under the given internal id: the
/// body carried over, the latency read as a number.
pub open spec fn snake_of(is: InputSnakeView, id: u8) -> SnakeView {
    SnakeView {
        id,
        health: is.health,
        body: is.body,
        latency: latency_of(vstd::utf8::encode_utf8(is.latency)),
        head: is.head,
        length: is.length,
    }
}

impl InputSnake {
    pub fn get_id(&self) -> (r: &String)
        ensures
            r@ == self@.id,
    {
        &self.id
    }

    pub fn get_health(&self) -> (r: i32)
        ensures
            r == self@.health,
    {
        self.health
    }

    pub fn get_body(&self) -> (r: &Vec<Coordinate>)
        ensures
            r@ == self@.body,
    {
        &self.body
    }

    pub fn get_latency(&self) -> (r: &String)
        ensures
            r@ == self@.latency,
    {
        &self.latency
    }

    pub fn get_head(&self) -> (r: Coordinate)
        ensures
            r == self@.head,
    {
        self.head
    }

    pub fn get_length(&self) -> (r: usize)
        ensures
            r == self@.length,
    {
        self.length
    }

    /// Convert to the internal serpent under internal id `id`.
    pub fn into_battlesnake(self, id: u8) -> (r: Battlesnake)
        ensures
            r@ == snake_of(self@, id),
    {
        let latency = parse_latency(self.latency.as_str());
        let mut body: std::collections::VecDeque<Coordinate> = std::collections::VecDeque::new();
        let mut k: usize = 0;
        while k < self.body.len()
            invariant
                0 <= k <= self.body@.len(),
                body@ == self.body@.take(k as int),
            decreases self.body@.len() - k,
        {
            body.push_back(self.body[k]);
            proof {
                assert(body@ =~= self.body@.take(k + 1));
            }
            k = k + 1;
        }
        proof {
            assert(body@ =~= self.body@);
        }
        let r = Battlesnake::new(id, self.health, body, latency, self.head, self.length);
        proof {
            assert(r@ =~= snake_of(self@, id));
        }
        r
    }
}

/// How many of the first `k` reported serpents are opponents: everyone whose
/// reported id differs from the agent's.
pub open spec fn count_opponents(ss: Seq<InputSnakeView>, you_id: Seq<char>, k: int) -> int
    decreases k,
{
    if k <= 0 {
        0
    } else {
        count_opponents(ss, you_id, k - 1) + (if ss[k - 1].id == you_id {
            0int
        } else {
            1int
        })
    }
}

/// The opponents among the first `k` reported serpents, in report order,
/// under sequential internal ids starting at 1.
pub open spec fn opponents_prefix(ss: Seq<InputSnakeView>, you_id: Seq<char>, k: int) -> Seq<
    SnakeView,
>
    decreases k,
{
    if k <= 0 {
        Seq::empty()
    } else {
        let rest = opponents_prefix(ss, you_id, k - 1);
        if ss[k - 1].id == you_id {
            rest
        } else {
            rest.push(snake_of(ss[k - 1], (1 + count_opponents(ss, you_id, k - 1)) as u8))
        }
    }
}

proof fn lemma_count_opponents_bounds(ss: Seq<InputSnakeView>, you_id: Seq<char>, k: int)
    requires
        0 <= k,
    ensures
        0 <= count_opponents(ss, you_id, k) <= k,
        opponents_prefix(ss, you_id, k).len() == count_opponents(ss, you_id, k),
    decreases k,
{
    if k > 0 {
        lemma_count_opponents_bounds(ss, you_id, k - 1);
    }
}

/// The board a request reports.
#[verifier::ext_equal]
pub ghost struct InputBoardView {
    pub height: int,
    pub width: int,
    pub food: Seq<Coordinate>,
    pub hazards: Seq<Coordinate>,
    pub snakes: Seq<InputSnakeView>,
}

#[derive(Debug)]
pub struct InputBoard {
    pub height: i32,
    pub width: i32,
    pub food: Vec<Coordinate>,
    pub hazards: Vec<Coordinate>,
    pub snakes: Vec<InputSnake>,
}

impl View for InputBoard {
    type V = InputBoardView;

    open spec fn view(&self) -> InputBoardView {
        InputBoardView {
            height: self.height as int,
            width: self.width as int,
            food: self.food@,
            hazards: self.hazards@,
            snakes: self.snakes@.map_values(|s: InputSnake| s@),
        }
    }
}

impl InputBoard {
    pub fn get_height(&self) -> (r: i32)
        ensures
            r == self@.height,
    {
        self.height
    }

    pub fn get_width(&self) -> (r: i32)
        ensures
            r == self@.width,
    {
        self.width
    }

    pub fn get_food(&self) -> (r: &Vec<Coordinate>)
        ensures
            r@ == self@.food,
    {
        &self.food
    }

    pub fn get_hazards(&self) -> (r: &Vec<Coordinate>)
        ensures
            r@ == self@.hazards,
    {
        &self.hazards
    }

    pub fn get_snakes(&self) -> (r: &Vec<InputSnake>)
        ensures
            r@.map_values(|s: InputSnake| s@) == self@.snakes,
    {
        &self.snakes
    }

    /// Build the internal board: the agent's serpent takes internal id 0 and
    /// stands first; the others follow in report order under sequential ids,
    /// skipping the agent's own record by its reported id. The participant
    /// count is the number of reported serpents.
    pub fn into_board(self, you: InputSnake, turn: i32) -> (r: Board)
        requires
            self@.snakes.len() <= 254,
        ensures
            r@.height == self@.height,
            r@.width == self@.width,
            r@.food == self@.food,
            r@.hazards == self@.hazards,
            r@.max_snakes == self@.snakes.len(),
            r@.turn == turn,
            r@.snakes == seq![snake_of(you@, 0)] + opponents_prefix(
                self@.snakes,
                you@.id,
                self@.snakes.len() as int,
            ),
    {
        let num_snakes = self.snakes.len();
        let ghost you_view = you@;
        let you_id = you.id.clone();
        let mut snakes: Vec<Battlesnake> = Vec::new();
        snakes.push(you.into_battlesnake(0));
        proof {
            assert(snakes_view(snakes@) =~= seq![snake_of(you_view, 0)]);
            assert(opponents_prefix(self@.snakes, you_view.id, 0) =~= Seq::<SnakeView>::empty());
            assert(snakes_view(snakes@) =~= seq![snake_of(you_view, 0)] + opponents_prefix(
                self@.snakes,
                you_view.id,
                0,
            ));
        }

        let mut next_id: u8 = 1;
        let mut k: usize = 0;
        while k < num_snakes
            invariant
                0 <= k <= num_snakes,
                num_snakes == self.snakes@.len() <= 254,
                num_snakes == self@.snakes.len(),
                you_id@ == you_view.id,
                you_view == you@,
                next_id == 1 + count_opponents(self@.snakes, you_view.id, k as int),
                snakes_view(snakes@) == seq![snake_of(you_view, 0)] + opponents_prefix(
                    self@.snakes,
                    you_view.id,
                    k as int,
                ),
            decreases num_snakes - k,
        {
            proof {
                lemma_count_opponents_bounds(self@.snakes, you_view.id, k as int);
                lemma_count_opponents_bounds(self@.snakes, you_view.id, k + 1);
                assert(self@.snakes[k as int] == self.snakes@[k as int]@);
            }
            let ghost pre = snakes_view(snakes@);
            let snake = &self.snakes[k];
            if !(snake.id == you_id) {
                let converted = snake.clone().into_battlesnake(next_id);
                snakes.push(converted);
                next_id = next_id + 1;
                proof {
                    assert(snakes_view(snakes@) =~= pre.push(
                        snake_of(self@.snakes[k as int], (next_id - 1) as u8),
                    ));
                    assert(snakes_view(snakes@) =~= seq![snake_of(you_view, 0)]
                        + opponents_prefix(self@.snakes, you_view.id, k + 1));
                }
            } else {
                proof {
                    assert(self@.snakes[k as int].id == you_view.id);
                    assert(snakes_view(snakes@) =~= seq![snake_of(you_view, 0)]
                        + opponents_prefix(self@.snakes, you_view.id, k + 1));
                }
            }
            k = k + 1;
        }

        let r = Board::new(
            self.height,
            self.width,
            self.food,
            self.hazards,
            snakes,
            num_snakes,
            turn,
        );
        r
    }
}


/// Per-game rules as reported at intake.
#[verifier::ext_equal]
pub ghost struct InputRoyaleView {
    pub shrink_every_n_turns: int,
}

#[derive(Debug)]
pub struct InputRoyale {
    pub shrink_every_n_turns: i32,
}

impl View for InputRoyale {
    type V = InputRoyaleView;

    open spec fn view(&self) -> InputRoyaleView {
        InputRoyaleView { shrink_every_n_turns: self.shrink_every_n_turns as int }
    }
}

impl InputRoyale {
    pub fn into_values(self) -> (r: i32)
        ensures
            r == self@.shrink_every_n_turns,
    {
        self.shrink_every_n_turns
    }
}

#[verifier::ext_equal]
pub ghost struct InputSquadView {
    pub allow_body_collisions: bool,
    pub shared_elimination: bool,
    pub shared_health: bool,
    pub shared_length: bool,
}

#[derive(Debug)]
pub struct InputSquad {
    pub allow_body_collisions: bool,
    pub shared_elimination: bool,
    pub shared_health: bool,
    pub shared_length: bool,
}

impl View for InputSquad {
    type V = InputSquadView;

    open spec fn view(&self) -> InputSquadView {
        InputSquadView {
            allow_body_collisions: self.allow_body_collisions,
            shared_elimination: self.shared_elimination,
            shared_health: self.shared_health,
            shared_length: self.shared_length,
        }
    }
}

impl InputSquad {
    pub fn into_values(self) -> (r: (bool, bool, bool, bool))
        ensures
            r.0 == self@.allow_body_collisions,
            r.1 == self@.shared_elimination,
            r.2 == self@.shared_health,
            r.3 == self@.shared_length,
    {
        (self.allow_body_collisions, self.shared_elimination, self.shared_health, self.shared_length)
    }
}

#[verifier::ext_equal]
pub ghost struct InputSettingsView {
    pub food_spawn_chance: int,
    pub minimum_food: int,
    pub hazard_damage_per_turn: int,
    pub royale: InputRoyaleView,
    pub squad: InputSquadView,
}

#[derive(Debug)]
pub struct InputSettings {
    pub food_spawn_chance: i32,
    pub minimum_food: i32,
    pub hazard_damage_per_turn: i32,
    pub royale: InputRoyale,
    pub squad: InputSquad,
}

impl View for InputSettings {
    type V = InputSettingsView;

    open spec fn view(&self) -> InputSettingsView {
        InputSettingsView {
            food_spawn_chance: self.food_spawn_chance as int,
            minimum_food: self.minimum_food as int,
            hazard_damage_per_turn: self.hazard_damage_per_turn as int,
            royale: self.royale@,
            squad: self.squad@,
        }
    }
}

impl InputSettings {
    pub fn into_values(self) -> (r: (i32, i32, i32, i32, bool, bool, bool, bool))
        ensures
            r.0 == self@.food_spawn_chance,
            r.1 == self@.minimum_food,
            r.2 == self@.hazard_damage_per_turn,
            r.3 == self@.royale.shrink_every_n_turns,
            r.4 == self@.squad.allow_body_collisions,
            r.5 == self@.squad.shared_elimination,
            r.6 == self@.squad.shared_health,
            r.7 == self@.squad.shared_length,
    {
        let shrink_every_n_turns = self.royale.into_values();
        let (allow_body_collisions, shared_elimination, shared_health, shared_length) =
            self.squad.into_values();
        (
            self.food_spawn_chance,
            self.minimum_food,
            self.hazard_damage_per_turn,
            shrink_every_n_turns,
            allow_body_collisions,
            shared_elimination,
            shared_health,
            shared_length,
        )
    }
}

#[verifier::ext_equal]
pub ghost struct InputRulesetView {
    pub name: Seq<char>,
    pub version: Seq<char>,
    pub settings: InputSettingsView,
}

#[derive(Debug)]
pub struct InputRuleset {
    pub name: String,
    pub version: String,
    pub settings: InputSettings,
}

impl View for InputRuleset {
    type V = InputRulesetView;

    open spec fn view(&self) -> InputRulesetView {
        InputRulesetView { name: self.name@, version: self.version@, settings: self.settings@ }
    }
}

/// The internal ruleset an input ruleset stands for.
pub open spec fn ruleset_of(ir: InputRulesetView) -> RulesetView {
    RulesetView {
        name: ir.name,
        version: ir.version,
        food_spawn_chance: ir.settings.food_spawn_chance,
        minimum_food: ir.settings.minimum_food,
        hazard_damage_per_turn: ir.settings.hazard_damage_per_turn,
        shrink_every_n_turns: ir.settings.royale.shrink_every_n_turns,
        allow_body_collisions: ir.settings.squad.allow_body_collisions,
        shared_elimination: ir.settings.squad.shared_elimination,
        shared_health: ir.settings.squad.shared_health,
        shared_length: ir.settings.squad.shared_length,
    }
}

impl InputRuleset {
    pub fn into_ruleset(self) -> (r: Ruleset)
        ensures
            r@ == ruleset_of(self@),
    {
        let ghost iv = self@;
        let name = self.name;
        let version = self.version;
        let (
            food_spawn_chance,
            minimum_food,
            hazard_damage_per_turn,
            shrink_every_n_turns,
            allow_body_collisions,
            shared_elimination,
            shared_health,
            shared_length,
        ) = self.settings.into_values();
        let r = Ruleset::new(
            name,
            version,
            food_spawn_chance,
            minimum_food,
            hazard_damage_per_turn,
            shrink_every_n_turns,
            allow_body_collisions,
            shared_elimination,
            shared_health,
            shared_length,
        );
        proof {
            assert(r@ =~= ruleset_of(iv));
        }
        r
    }
}

#[verifier::ext_equal]
pub ghost struct InputGameView {
    pub id: Seq<char>,
    pub ruleset: InputRulesetView,
    pub timeout: int,
}

#[derive(Debug)]
pub struct InputGame {
    pub id: String,
    pub ruleset: InputRuleset,
    pub timeout: i32,
}

impl View for InputGame {
    type V = InputGameView;

    open spec fn view(&self) -> InputGameView {
        InputGameView { id: self.id@, ruleset: self.ruleset@, timeout: self.timeout as int }
    }
}

impl InputGame {
    pub fn into_game(self) -> (r: Game)
        ensures
            r@ == (GameView {
                id: self@.id,
                ruleset: ruleset_of(self@.ruleset),
                timeout: self@.timeout,
            }),
    {
        let ghost iv = self@;
        let id = self.id;
        let timeout = self.timeout;
        let ruleset = self.ruleset.into_ruleset();
        let r = Game::new(id, ruleset, timeout);
        proof {
            assert(r@ =~= (GameView {
                id: iv.id,
                ruleset: ruleset_of(iv.ruleset),
                timeout: iv.timeout,
            }));
        }
        r
    }

    pub fn into_ruleset(self) -> (r: Ruleset)
        ensures
            r@ == ruleset_of(self@.ruleset),
    {
        self.ruleset.into_ruleset()
    }
}

/// One move request: the game header, the turn, the board, and the agent's
/// own serpent.
#[verifier::ext_equal]
pub ghost struct MoveRequestView {
    pub game: InputGameView,
    pub turn: int,
    pub board: InputBoardView,
    pub you: InputSnakeView,
}

#[derive(Debug)]
pub struct MoveRequest {
    pub game: InputGame,
    pub turn: i32,
    pub board: InputBoard,
    pub you: InputSnake,
}

impl View for MoveRequest {
    type V = MoveRequestView;

    open spec fn view(&self) -> MoveRequestView {
        MoveRequestView {
            game: self.game@,
            turn: self.turn as int,
            board: self.board@,
            you: self.you@,
        }
    }
}

impl MoveRequest {
    pub fn get_game(&self) -> (r: &InputGame)
        ensures
            r@ == self@.game,
    {
        &self.game
    }

    pub fn get_turn(&self) -> (r: i32)
        ensures
            r == self@.turn,
    {
        self.turn
    }

    pub fn get_board(&self) -> (r: &InputBoard)
        ensures
            r@ == self@.board,
    {
        &self.board
    }

    pub fn get_you(&self) -> (r: &InputSnake)
        ensures
            r@ == self@.you,
    {
        &self.you
    }

    /// Break the request into its parts.
    pub fn into_values(self) -> (r: (InputGame, i32, InputBoard, InputSnake))
        ensures
            r.0@ == self@.game,
            r.1 == self@.turn,
            r.2@ == self@.board,
            r.3@ == self@.you,
    {
        (self.game, self.turn, self.board, self.you)
    }
}

/// The metadata served on the index route.
#[derive(Debug)]
pub struct IndexResponse {
    pub apiversion: &'static str,
    pub author: &'static str,
    pub color: &'static str,
    pub head: &'static str,
    pub tail: &'static str,
}

impl IndexResponse {
    pub fn new(
        apiversion: &'static str,
        author: &'static str,
        color: &'static str,
        head: &'static str,
        tail: &'static str,
    ) -> (r: IndexResponse)
        ensures
            r.apiversion@ == apiversion@,
            r.author@ == author@,
            r.color@ == color@,
            r.head@ == head@,
            r.tail@ == tail@,
    {
        IndexResponse { apiversion, author, color, head, tail }
    }
}

/// The reply to a move request: the chosen direction and a shout.
#[derive(Debug)]
pub struct MoveResponse {
    pub movement: String,
    pub shout: String,
}

impl MoveResponse {
    pub fn new(movement: String, shout: String) -> (r: MoveResponse)
        ensures
            r.movement@ == movement@,
            r.shout@ == shout@,
    {
        MoveResponse { movement, shout }
    }
}

} // verus!
