//! Errors surfaced by the library.

use vstd::prelude::*;

verus! {

/// The failures the node's logic can report. Transport errors of the
/// surrounding process are mapped onto these by the caller.
#[derive(Clone, Copy, Debug, PartialEq, Eq, Structural)]
pub enum DhtError {
    /// A frame or payload that does not decode, or a checksum mismatch.
    InvalidData,
    /// No node or finger satisfies the query.
    NotFound,
    /// A peer answered a routing query with an unusable reply.
    BadPeerReply,
}

impl DhtError {
    /// A short description, for callers that log or print errors.
    pub fn describe(&self) -> (r: &'static str)
    {
        match self {
            DhtError::InvalidData => "invalid data",
            DhtError::NotFound => "not found",
            DhtError::BadPeerReply => "bad peer reply",
        }
    }
}

} // verus!
