use vstd::prelude::*;

use super::rpc::{AppendEntriesArgs, RequestVoteArgs};
use super::types::LogEntry;

verus! {

/// Outside work that a handler of the state machine asks its runtime to do,
/// in the order it is listed.
#[derive(Debug, Clone, PartialEq, Eq)]
pub enum Effect {
    /// Pick a fresh randomized election deadline.
    ResetElectionTimer,
    /// Persist the current term and vote.
    SaveTermAndVote { term: u64, voted_for: Option<u64> },
    /// Append one entry to durable storage.
    AppendToStorage { entry: LogEntry },
    /// Hand a committed write to the key-value state machine.
    Apply { key: String, value: String },
    /// Tell the client that proposed the entry at `index` that it committed.
    NotifyCommitted { index: usize },
    /// Tell the client that proposed the entry at `index` that it was
    /// overwritten and will never commit.
    NotifyFailed { index: usize },
}

/// What the runtime should do on a timer tick.
#[derive(Debug, Clone, Copy, PartialEq, Eq, Structural)]
pub enum TickAction {
    StartElection,
    Replicate,
    Idle,
}

/// One RequestVote message that a candidate sends to `peer`.
#[derive(Debug, Clone, Copy, PartialEq, Eq)]
pub struct OutboundVote {
    pub peer: u64,
    pub args: RequestVoteArgs,
}

/// One AppendEntries message that a leader sends to `peer`.
#[derive(Debug, Clone, PartialEq, Eq)]
pub struct OutboundAppend {
    pub peer: u64,
    pub args: AppendEntriesArgs,
}

} // verus!
