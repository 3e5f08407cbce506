//! The error kinds the engine reports. Every operation either fully applies
//! its writes or returns exactly one of these.

use vstd::prelude::*;

verus! {

#[derive(Clone, Copy, PartialEq, Eq, Structural, Debug)]
pub enum ContractError {
    /// Voting on a poll id that does not exist, or for an option label that
    /// the poll does not carry. One deliberately overloaded kind for both
    /// causes, kept for compatibility with the engine's callers.
    Unauthorized,
    /// Creating a poll with more than ten options.
    TooManyOptions,
    /// A malformed voter identifier on a vote query.
    InvalidAddress,
    /// The configuration singleton was read before initialization.
    NotFound,
    /// A reserved, not-yet-supported operation was called.
    Unimplemented,
    /// An inconsistent store was observed mid-operation: a prior ballot
    /// whose option is missing from its poll or whose count is already
    /// zero (possible only after a destructive poll overwrite), or a vote
    /// count at its numeric limit.
    Internal,
}

} // verus!
