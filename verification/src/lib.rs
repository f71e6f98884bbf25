//! Deterministic, single-writer compute exchange using simulated microcredits.
//!
//! Commands execute against the exchange state and either commit in full or
//! leave the state untouched. Every operation is specified by the pure state
//! machine in `model`; the bookkeeping invariants of that machine are proved
//! in `invariants` and stated as laws in `laws`. What each command does is
//! stated over its inputs, events and states in `command_laws`, and what a
//! matching pass makes, and why, in `matching`.

pub mod types;
pub mod arith;
pub mod sums;
pub mod model;
pub mod invariants;
pub mod exchange;
pub mod laws;
pub mod matching;
pub mod command_laws;

use vstd::prelude::*;

verus! {

/// The single capacity class traded by this exchange.
pub const CAPACITY_CLASS: &'static str = "demo-compute";

} // verus!
