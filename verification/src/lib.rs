//! Transport-correlation core of a remote-procedure-call client.
//!
//! The crate turns "send this request, get that response" and "subscribe to
//! this feed" into bookkeeping over one shared connection: it hands out
//! correlation identifiers, remembers which requests are outstanding, routes
//! each inbound frame to the caller that waits for it, and forwards push
//! payloads to the listener installed under their key. It performs no I/O:
//! the physical transport drives it with the frames it reads.

pub mod call;
pub mod channel;
pub mod correlator;
pub mod future;
pub mod id;
pub mod message;
pub mod pending;
pub mod registry;
pub mod transport;
