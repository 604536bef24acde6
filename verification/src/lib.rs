//! Council seats: stake-weighted approval voting for a fixed-size committee.
//!
//! The crate is a deterministic state machine. [`seats::Module`] owns the
//! candidate registry, the voter book and, while a tally runs, the
//! presentation leaderboard. The currency, the proxy map and the event sink
//! belong to the ledger that hosts the module, and are reached through
//! [`host::Trait`].
//!
//! Every operation is specified as a function on [`model::State`], the
//! mathematical view of the module, and comes in two layers. The inner one
//! ([`registry`], [`voters`], [`leaderboard`], [`schedule`], [`finalize`],
//! [`election`]) never touches the host: it returns the question to put to
//! the host, takes the answer as an argument, and returns what the host is
//! to do. The outer one ([`dispatch`]) puts the questions and hands on the
//! effects. [`decay`] is the arithmetic of the weight offset, and [`laws`]
//! states what holds across operations.

use vstd::prelude::*;

pub mod decay;
pub mod dispatch;
pub mod election;
pub mod finalize;
pub mod host;
pub mod laws;
pub mod leaderboard;
pub mod model;
pub mod registry;
pub mod schedule;
pub mod seats;
pub mod voters;

verus! {

/// An account of the ledger.
pub type AccountId = u64;

/// An amount of currency: a stake, a bond or a slash.
pub type Balance = u64;

/// A voting weight: stakes plus the offsets earned by losing.
pub type Weight = u128;

/// A block height.
pub type BlockNumber = u64;

/// The ordinal of an election.
pub type VoteIndex = u32;

} // verus!
