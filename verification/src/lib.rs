//! A generalized "N-in-a-row" board game engine: arbitrary board dimensions,
//! arbitrary win-length, any number of human or computer seats, and a
//! heuristic evaluator that picks computer moves.

pub mod bot;
pub mod computer;
pub mod game;
pub mod model;
pub mod point;
pub mod settings;

pub use bot::Bot;
pub use bot::ComputerWeights;
pub use bot::Difficulty;
pub use bot::Strategy;
pub use game::{Game, GameMessage, GameTrait, InvalidPointError, NewGameError, PlayMoveError};
pub use model::{GameState, Player, PlayerType};
pub use point::Point;
pub use settings::{GameSettings, SettingsMessage};
