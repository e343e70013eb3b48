pub mod area_controlled;
pub mod battlesnake;
pub mod board;
pub mod constants;
pub mod coordinate;
pub mod decision;
pub mod evaluate;
pub mod game;
pub mod game_step;
pub mod longest_path;
pub mod requests;
pub mod route;
pub mod ruleset;
pub mod simulate;

pub use battlesnake::Battlesnake;
pub use board::Board;
pub use coordinate::Coordinate;
pub use game::Game;
pub use ruleset::Ruleset;
