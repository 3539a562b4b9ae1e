//! A key-press counter that keeps only totals: a running count and one record
//! per day. The library holds the counting store, its file form, the PID-file
//! registry's decisions, and the daemon's event handling as a state machine.
//! Reading the clock, files, processes and the input hook is left to callers.
use vstd::prelude::*;

pub mod calendar;
pub mod decimal;
pub mod store;
pub mod persist;
pub mod registry;
pub mod daemon;
pub mod control;

verus! {

} // verus!
