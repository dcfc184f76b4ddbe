//! Match coordination and relay engine of a multiplayer session server.
//!
//! The crate holds the decisions of the server as verified functions over
//! plain values: the framing of messages on the reliable stream, the registry
//! of connected sessions, the per-connection protocol state machine, the
//! coordinator that owns the room table, and the routing table of the
//! datagram relay. Sockets, threads and queues live with the caller, which
//! performs the deliveries that these functions return.

pub mod framing;
pub mod packet;
pub mod registry;
pub mod coordinator;
pub mod session;
pub mod relay;
pub mod laws;
