//! The request and response shapes of the engine's operations. The host
//! that decodes wire bytes into these values and re-encodes the answers is
//! outside this crate.

use vstd::prelude::*;

use crate::state::{Ballot, Poll};

verus! {

/// Initialization data: the admin to record, or none to record the caller.
#[derive(Debug)]
pub struct InstantiateMsg {
    pub admin: Option<String>,
}

/// The state-changing operations.
#[derive(Debug)]
pub enum ExecuteMsg {
    CreatePoll { poll_id: String, question: String, options: Vec<String> },
    Vote { poll_id: String, vote: String },
}

/// The read-only queries.
#[derive(Debug)]
pub enum QueryMsg {
    AllPoll {},
    Poll { poll_id: String },
    Vote { poll_id: String, address: String },
}

/// Migration is reserved: it carries no request data yet, and `migrate`
/// refuses every call deterministically.
#[derive(Debug)]
pub enum MigrateMsg {
    Reserved,
}

/// Answer to `QueryMsg::AllPoll`: every poll, in ascending id order.
#[derive(Debug)]
pub struct AllPollsResponse {
    pub polls: Vec<Poll>,
}

/// Answer to `QueryMsg::Poll`: absence is a normal result.
#[derive(Debug)]
pub struct PollResponse {
    pub poll: Option<Poll>,
}

/// Answer to `QueryMsg::Vote`: absence is a normal result.
#[derive(Debug)]
pub struct VoteResponse {
    pub vote: Option<Ballot>,
}

/// The typed answer of `query`, one variant per query kind.
#[derive(Debug)]
pub enum QueryResponse {
    AllPolls(AllPollsResponse),
    Poll(PollResponse),
    Vote(VoteResponse),
}

} // verus!
