//! A Connect-4 engine on the classic grid of six rows and seven columns:
//! legal moves, gravity, win detection, the winning moves open to a player,
//! and whole matches played by random choice.
//!
//! Every contract speaks of a [`grid::Grid`], the mathematical picture of a
//! board, so that what the functions compute can be read off the spec
//! functions of that module.

pub mod player;
pub mod grid;
pub mod grid_lemmas;
pub mod record;
pub mod board;
pub mod random;
pub mod simulation;
pub mod corpus;
pub mod laws;

pub use crate::board::Board;
pub use crate::player::Player;
pub use crate::record::{Match, MoveRecord};
