//! The error taxonomy of the queue system.
//!
//! The variants are deliberately distinct so that a caller can apply a
//! different retry policy to each: a timed-out acquisition may simply be
//! retried, an exhausted pool asks for backpressure, and a repeated
//! credential failure points at an authority outage. A fencing mismatch or
//! an empty due set is *not* an error: those are ordinary negative results
//! of the transition functions.

use vstd::prelude::*;

verus! {

/// What can go wrong at the edges of the queue system.
#[derive(Clone, Copy, Debug, PartialEq, Eq, Structural)]
pub enum Error {
    /// The store or the network was unreachable.
    Transport,
    /// An acquisition waited past the pool's configured wait bound.
    Timeout,
    /// The no-wait acquisition found the pool saturated.
    Exhausted,
    /// Minting a credential or opening a connection failed.
    Backend,
}

} // verus!
