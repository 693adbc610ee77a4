//! Record keeping for gacha (wish / warp) histories of two games.
use vstd::prelude::*;

pub mod text;
pub mod authkey;
pub mod config;
pub mod date;
pub mod game;
pub mod keyed;
pub mod names;
pub mod query;
pub mod records;
pub mod screenshot;
pub mod stats;

verus! {
}
