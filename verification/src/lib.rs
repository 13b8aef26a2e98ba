//! Reliability primitives for a distributed, persistent job queue.
//!
//! The crate verifies the two pieces of the system whose correctness cannot
//! be recovered after the fact: the atomic queue state transitions
//! (promotion of due jobs and fencing-protected completion) and the
//! admission logic of a connection pool whose credentials are short-lived
//! and rotated in the background.
//!
//! The queue store itself lives on a remote server that executes one script
//! body at a time, all or nothing; the pool's connections, credentials and
//! waiting are driven by an async runtime. Both are modelled here as plain
//! state machines: every transition is an ordinary function whose contract
//! pins down the next state exactly, and the unverified runtime shell only
//! performs the I/O that each decision calls for.

mod complete;
mod error;
mod pool;
mod promote;
mod store;

pub use error::Error;
pub use pool::{
    rotation_action, AcquireDecision, AcquireStep, ManagerStats, PoolCore, PooledConn,
    RotationAction,
};
pub use store::{JobRecord, Lease, QueueStore, ScheduledEntry};
