//! A single-stream, acknowledgment-driven replication client.
//!
//! The client owns an ordered sequence of records and pushes them, one at a
//! time, to a single destination over a connection-oriented transport. It
//! tracks how many records the destination has durably accepted via
//! positional acknowledgments, and recovers from disconnection by reopening
//! the connection and resuming from the first unacknowledged record. Once
//! every record is acknowledged, a best-effort terminal pass resends the
//! whole sequence over a fresh connection.

pub mod client;
pub mod laws;
pub mod protocol;
