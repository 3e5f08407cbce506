//! A small, storage-backed voting engine: polls with a bounded option list,
//! ballots keyed by (voter, poll id), and point/range queries over the
//! resulting state. The store is an explicit value threaded through every
//! operation, so callers can hold isolated states and the contracts can
//! speak about every read and write.

pub mod consistency;
pub mod contract;
pub mod error;
pub mod laws;
pub mod msg;
pub mod state;
pub mod store;
pub mod strings;
