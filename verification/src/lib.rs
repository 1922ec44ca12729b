//! The verified core of a real-time message relay: the wire codec for
//! event envelopes, the registry of live connections, addressed delivery
//! and authenticated broadcast, and the event router's state machine.
//!
//! Everything that decides is here, with contracts; the process around
//! it (sockets, tasks, configuration files) only performs what these
//! functions decide.

use vstd::prelude::*;

pub mod codec;
pub mod config;
pub mod events;
pub mod handlers;
pub mod network;

verus! {

} // verus!
