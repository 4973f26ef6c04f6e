//! The retry discipline of the request/reply exchange.
//!
//! A request is transmitted up to `max_retries + 1` times. The socket
//! read timeout starts at the configured value and doubles after every
//! timed-out attempt; the same bytes are retransmitted, under the same
//! frame id, so that a peer that already answered serves the cached
//! reply. The caller does the socket work and asks this policy, after
//! each timeout, whether to try again and how long to wait.

use vstd::prelude::*;

verus! {

/// The default socket read timeout of an exchange, in milliseconds.
pub const SEND_RECV_TIMEOUT_MILLIS: u64 = 100;

/// The default read timeout of a listening server, in milliseconds.
pub const LISTENING_TIMEOUT_MILLIS: u64 = 1000;

/// How many times a timed-out request is retransmitted.
pub const MAX_RETRIES: u32 = 3;

/// How the timeout grows after each timed-out attempt.
pub const TIMEOUT_MULTIPLIER: u64 = 2;

/// The largest datagram a node sends or receives.
pub const MAX_BUFFER_SIZE_BYTES: usize = 12288;

/// What to do after a timed-out attempt.
pub enum RetryDecision {
    /// Retransmit and wait this many milliseconds.
    Retry(u64),
    /// Every attempt is spent: report a timeout.
    GiveUp,
}

/// The state of one bounded-retry exchange.
pub struct RetryPolicy {
    attempts_left: u32,
    timeout_millis: u64,
}

impl RetryPolicy {
    /// The attempts that remain.
    pub closed spec fn spec_attempts_left(&self) -> u32 {
        self.attempts_left
    }

    /// The current read timeout, in milliseconds.
    pub closed spec fn spec_timeout_millis(&self) -> u64 {
        self.timeout_millis
    }

    /// A fresh exchange: `max_retries + 1` attempts at the given
    /// initial timeout.
    pub fn new(max_retries: u32, timeout_millis: u64) -> (r: RetryPolicy)
        requires
            max_retries < u32::MAX,
        ensures
            r.spec_attempts_left() == max_retries + 1,
            r.spec_timeout_millis() == timeout_millis,
    {
        RetryPolicy { attempts_left: max_retries + 1, timeout_millis }
    }

    /// An attempt timed out: spend it, and either retransmit with a
    /// doubled timeout or, when it was the last one, give up.
    pub fn on_timeout(&mut self) -> (r: RetryDecision)
        requires
            old(self).spec_attempts_left() >= 1,
            old(self).spec_timeout_millis() <= u64::MAX / 2,
        ensures
            final(self).spec_attempts_left() == old(self).spec_attempts_left() - 1,
            if old(self).spec_attempts_left() > 1 {
                &&& final(self).spec_timeout_millis() == old(self).spec_timeout_millis()
                    * TIMEOUT_MULTIPLIER
                &&& r matches RetryDecision::Retry(t) && t == final(self).spec_timeout_millis()
            } else {
                &&& final(self).spec_timeout_millis() == old(self).spec_timeout_millis()
                &&& r is GiveUp
            },
    {
        self.attempts_left = self.attempts_left - 1;
        if self.attempts_left >= 1 {
            self.timeout_millis = self.timeout_millis * TIMEOUT_MULTIPLIER;
            RetryDecision::Retry(self.timeout_millis)
        } else {
            RetryDecision::GiveUp
        }
    }
}

} // verus!
