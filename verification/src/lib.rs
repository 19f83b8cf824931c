//! Verified core of the Swanling tools: the `grrs` line search and its
//! laws, its command-line validation, the calibration server's start-up
//! guard, thread counts and payload types, and how `regatta` answers
//! process signals.

pub mod calibrate;
pub mod cli;
pub mod search;
pub mod search_laws;
pub mod signals;

pub use search::find_matches;
