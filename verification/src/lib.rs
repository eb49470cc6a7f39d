//! A two-player connection game on a 6x7 grid: pieces drop into one of seven
//! columns, and the first player to line up four in a row wins.
//!
//! The board is kept as a pair of packed bit-sets, one per player, with a
//! guard bit between columns so that shift-based line detection cannot wrap
//! from one column into the next. Moves are applied and undone in constant
//! time, which lets the adversarial search mutate a single board in place.

pub mod ai;
pub mod control;
pub mod event;
pub mod game;
pub mod win;
