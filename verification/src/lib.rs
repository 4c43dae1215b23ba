//! Deterministic simulation core of a falling-block matching puzzle: two-cell
//! pieces drop into a grid, settle under gravity, merge by colour adjacency
//! and clear in chains.

pub mod board;
pub mod driver;
pub mod gravity;
pub mod groups;
pub mod matches;
pub mod motion;
pub mod palette;
pub mod piece;
pub mod replay;
pub mod resolve;
pub mod rules;
pub mod scoring;

pub use board::{Board, GameState};
pub use palette::PuyoType;
pub use piece::ActivePuyo;
pub use replay::update_opponent_board;
