//! Rules engine of a two-player, gravity-based grid game: pieces are dropped
//! into the columns of a fixed-size grid, and a straight run of four or more
//! same-typed pieces wins.

pub mod detect;
pub mod gravity;
pub mod grid;
pub mod matches;
pub mod play;
pub mod position;
pub mod position_set;
pub mod runs;
