//! A single node of a Chord-style distributed key-value store.
//!
//! The library holds the verified core of the node: ring position
//! arithmetic, the wire codec for the datagram protocol, the
//! byte-accounted data store, the reply cache used for idempotence,
//! the finger table with its routing decisions, and the dispatch
//! logic of the node runtime. Socket I/O, configuration loading and
//! logging live outside the library and drive it with plain values.

pub mod cache;
pub mod codec;
pub mod errors;
pub mod finger;
pub mod hash;
pub mod node;
pub mod proto;
pub mod retry;
pub mod ring;
pub mod route;
pub mod store;
