//! Rule engine for a two-player Quoridor-style board game.
//!
//! Pawns race across a 9x9 grid of cells toward the opposite baseline while
//! each player may spend a limited budget of walls to hinder the opponent,
//! subject to the rule that no wall may ever cut off either player's last
//! path to their goal row.

pub mod engine;
pub mod laws;
pub mod eval;
pub mod metrics;
pub mod movegen;
pub mod moves;
pub mod path;
pub mod piece;
pub mod quorridor;
pub mod wall;

pub use moves::{encode_move, Move};
pub use piece::{move_player, Piece};
pub use quorridor::{has_path_to_goal, shortest_path_to_goal, Quorridor};
pub use wall::{place_wall, Orientation, Wall, WallPlacementResult};
