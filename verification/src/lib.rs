//! A flow-style path puzzle: a grid of paired, lettered endpoints that the
//! player joins with non-crossing paths until every cell is covered.
//!
//! The crate holds the puzzle's state machine, verified against a
//! mathematical model of the grid:
//!
//! - `topology`: directions and coordinates;
//! - `square`: the state of one cell;
//! - `board`: the grid model and the board that implements it;
//! - `level`: the loader of textual levels;
//! - `path`: drawing, taking back and erasing paths;
//! - `control`: the selection toggle, bounded moves, the win check and the
//!   turn of the game;
//! - `render`: the picture of a board as text for a terminal;
//! - `consistency`, `erasure`, `drawing`: what holds of every grid during
//!   play, and the proofs that moves and selections keep it.

pub mod board;
pub mod consistency;
pub mod control;
pub mod drawing;
pub mod erasure;
pub mod level;
pub mod path;
pub mod render;
pub mod square;
pub mod topology;

pub use board::{Board, Grid};
pub use control::{apply_move, decode_key, step, Event, Outcome};
pub use level::MalformedLevel;
pub use path::move_line;
pub use square::Square;
pub use topology::{Coord, Direction, Point};
