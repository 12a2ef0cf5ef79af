//! Runtime core of a heads-up poker bot: a betting-round state machine
//! (blinds, streets, pips, stacks, legal actions, raise bounds, fold and
//! showdown settlement) and a line-oriented protocol session that keeps the
//! machine synchronized with a remote engine and consults a pluggable
//! strategy.

pub mod moves;
pub mod state;
pub mod text;
pub mod session;

use vstd::prelude::*;

verus! {

/// Number of rounds in one match.
pub const NUM_ROUNDS: i32 = 1000;

/// Chips each seat starts a round with.
pub const STARTING_STACK: i32 = 400;

/// The big blind posted by seat 1 at round start.
pub const BIG_BLIND: i32 = 2;

/// The small blind posted by seat 0 at round start.
pub const SMALL_BLIND: i32 = 1;

/// The connect target supplied at startup: the engine's host and port.
pub struct Args {
    pub host: String,
    pub port: u16,
}

} // verus!
