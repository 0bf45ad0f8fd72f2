//! A small user-space TCP implementation: connection state machines, sequence
//! number arithmetic and the bookkeeping that hands connections to listeners.
use vstd::prelude::*;

pub mod tcp;
pub mod wire;
pub mod manager;
pub mod laws;

pub use manager::{ConnectionManager, PacketEffect, Quad, ReadOutcome, SENDQUEUE_SIZE};
pub use tcp::{Available, Connection, Segment, State, is_between_wrapped, wrapping_lt};

verus! {

/// The ways a stream operation can fail.
#[derive(Clone, Copy, Debug, PartialEq, Eq, Structural)]
pub enum TcpError {
    /// The port is already bound by another listener.
    AddrInUse,
    /// The connection behind a stream is gone.
    ConnectionAborted,
    /// The connection is already past the point where it can be closed.
    AlreadyClosing,
    /// Too many bytes are queued for sending.
    WouldBlock,
}

} // verus!
