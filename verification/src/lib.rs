//! Core of a falling-blocks puzzle game: piece geometry, the playfield with
//! line clearance, the active piece, the game state machine, and the tick
//! scheduler. Everything here is verified; the terminal front end lives
//! outside this crate.
use vstd::prelude::*;

pub mod block;
pub mod game;
pub mod board;
pub mod rotation;
pub mod timer;

verus! {

/// Number of rows of the playfield, the hidden buffer zone included.
pub const BOARD_ROWS: usize = 22;

/// Number of columns of the playfield.
pub const BOARD_COLS: usize = 10;

/// Number of hidden rows at the top of the playfield in which pieces spawn.
pub const BUFFER_ZONE_ROWS: usize = 2;

} // verus!
