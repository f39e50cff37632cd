//! Readiness events handed to the relay and the actions it decides on.
//!
//! The surrounding program waits on the readiness source, performs the raw
//! socket calls (accept, read) and reports their outcome here; the relay
//! answers with the action to perform (register, deregister, fan out).

use vstd::prelude::*;

verus! {

/// The outcome of reading from a ready client socket.
#[derive(Debug)]
pub enum ReadOutcome {
    /// Zero bytes were read: the remote side closed in an orderly way.
    Closed,
    /// The bytes that were read; never empty (an empty read is `Closed`).
    Data(Vec<u8>),
    /// The read failed with an error other than orderly closure.
    Failed,
}

/// A readiness event, tagged with what the surrounding program observed.
#[derive(Debug)]
pub enum Event {
    /// The listening socket was ready; `accepted` says whether one pending
    /// connection was in fact accepted (a spurious wake-up accepts none).
    ListenerReady { accepted: bool },
    /// The client socket registered under `token` was ready, with the
    /// outcome of the read performed on it.
    ClientReady { token: u64, outcome: ReadOutcome },
}

/// The action the surrounding program must perform after a dispatch.
#[derive(Debug)]
pub enum Action {
    /// Nothing to do.
    NoOp,
    /// Register the newly accepted connection's socket with the readiness
    /// source under this identifier.
    Register(u64),
    /// Deregister this identifier's socket from the readiness source and
    /// drop the handle; the registry entry is already gone.
    Deregister(u64),
    /// Write `payload` in full to each identifier in `targets`.
    FanOut { targets: Vec<u64>, payload: Vec<u8> },
}

} // verus!
