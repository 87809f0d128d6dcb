//! A verified core for a turn-based terminal horse race.
//!
//! Each external "tick" carries a non-negative integer; the distributor
//! splits it into one positive increment per horse by mixed-radix digit
//! extraction, the race state applies the increments and watches for a
//! winner, and the renderer turns the state into colored text lines and
//! cursor commands that an unverified shell replays against a terminal.

use vstd::prelude::*;

pub mod distribute;
pub mod race;
pub mod render;
pub mod screen;

verus! {

/// The advance at which a horse wins the race.
pub const WINNING_NUM: u32 = 50;

/// The radix used to decompose a tick value into per-horse increments;
/// it is also the largest single-tick advance a horse can gain.
pub const MAX_ADVANCE: u128 = 4;

/// The number of horses in a race.
pub const NUM_HORSES: usize = 7;

} // verus!
