//! A TCP broadcast relay: bytes received from one peer are forwarded to every
//! other connected peer. The library holds the relay's decisions: the registry
//! of connected peers, the coordinator that owns it and processes events one at
//! a time, and the per-connection reader state machine.
use vstd::prelude::*;

pub mod peer;
pub mod registry;
pub mod event;
pub mod coordinator;
pub mod reader;
pub mod config;

verus! {

} // verus!
