//! Riichi mahjong engine: tiles, hands, walls, rounds, shanten, yaku and scoring.
use vstd::prelude::*;

pub mod acceptance;
pub mod call_advisor;
pub mod dora;
pub mod drill;
pub mod expectation;
pub mod explanation;
pub mod hand;
pub mod pattern;
pub mod placement_ev;
pub mod river;
pub mod review;
pub mod round;
pub mod score;
pub mod shanten;
pub mod suit_table;
pub mod text;
pub mod tile;
pub mod wall;
pub mod yaku;
pub mod yaku_set;

verus! {
} // verus!
