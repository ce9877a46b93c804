//! A falling-block stacking game engine: pieces, the pile they land in, the
//! seven-piece randomizer, and the per-frame state machine that ties them
//! together.
use vstd::prelude::*;

pub mod piece;
pub mod pile;
pub mod bag_rng;
pub mod next_queue;
pub mod engine;
pub mod laws;
pub mod play;
pub mod frame_laws;
pub mod event_timer;
pub mod classic;
pub mod controls;

pub use engine::{Action, Direction, Engine, GameConfig, HoldPiece, Input};
pub use piece::{Coords, Orientation, Piece, PieceKind};
pub use pile::{Cell, Pile};

verus! {

/// Number of rows of the pile (including the hidden rows above the grid).
pub const PILE_HEIGHT: usize = 40;

/// Number of columns of the pile.
pub const PILE_WIDTH: usize = 10;

/// Number of rows that are shown to the player.
pub const GRID_HEIGHT: i32 = 20;

} // verus!
