//! The error taxonomy of the framework.

use vstd::prelude::*;

verus! {

/// Every error the framework itself can report.  All of these are recovered
/// at the exporter or proxy boundary; none is fatal to the caller's reactor.
#[derive(Clone, Copy, Debug, PartialEq, Eq, Structural)]
pub enum BusError {
    /// Wire bytes do not structurally match the expected shape.
    ShapeMismatch,
    /// A call named a method that no registry entry matches.
    MethodNotFound,
    /// A call went through a proxy whose peer already disconnected.
    ProxyRetired,
    /// The peer's connection dropped while a request/reply call was in flight.
    PeerDisconnected,
    /// The underlying service implementation signalled an error.
    HandlerFailure,
}

} // verus!
