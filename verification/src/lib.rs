//! Core state machine of a broadcast relay.
//!
//! Clients connect over a stream transport; bytes sent by one client are
//! forwarded verbatim to every other currently registered client. This
//! crate holds the connection registry, the identifier counter and the
//! event-dispatch decisions; the surrounding program owns the sockets and
//! the readiness source and performs the actions this crate hands back.

use vstd::prelude::*;

pub mod events;
pub mod relay;

verus! {

} // verus!
