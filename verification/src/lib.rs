//! Engine of a terminal puzzle game in the "loopover" family: an N x M grid
//! of numbered tiles that the player sorts by cyclically rotating whole rows
//! and columns through the selected cell.
//!
//! The crate holds the puzzle state itself (`Board`), the row/column rotation
//! primitives, the scrambler, the move codec that maps single-character
//! tokens to rotations and cursor motion, and the replay machinery that
//! rebuilds a scramble from a recorded solution. Rendering, key handling and
//! on-disk persistence live outside the crate and talk to it through plain
//! values.

pub mod app;
pub mod args;
pub mod asci;
pub mod board;
pub mod config;
pub mod digits;
pub mod error;
mod rng;
pub mod rotation;
pub mod size;
pub mod stat;
pub mod stats;
pub mod stats_state;
pub mod vec2;

pub use board::Board;
pub use config::Config;
pub use error::Error;
pub use size::Size;
pub use vec2::Vec2;
