//! A transport-agnostic interface export and callback-proxy framework.
//!
//! A local service object is published at a bus address together with a
//! description of its interface; named calls arriving from remote peers are
//! routed through a method registry, their arguments decoded from the wire,
//! the service invoked, and the reply encoded back.  In the other direction a
//! callback proxy stands in for a remote subscriber: invoking it encodes the
//! arguments and yields a one-way notification for the transport to deliver.
//! A disconnect watcher retires every proxy that belonged to a peer once that
//! peer's connection is observed to close.

pub mod descriptor;
pub mod error;
pub mod export;
pub mod proxy;
pub mod registry;
pub mod value;
pub mod watcher;
pub mod wire;
