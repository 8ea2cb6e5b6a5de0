use vstd::prelude::*;

use super::types::LogEntry;

verus! {

/// Arguments of the RequestVote RPC that a candidate sends to its peers.
#[derive(Debug, Clone, Copy, PartialEq, Eq)]
pub struct RequestVoteArgs {
    pub term: u64,
    pub candidate_id: u64,
    pub last_log_index: usize,
    pub last_log_term: u64,
}

/// Answer to a RequestVote RPC.
#[derive(Debug, Clone, Copy, PartialEq, Eq)]
pub struct RequestVoteReply {
    pub term: u64,
    pub vote_granted: bool,
}

/// Arguments of the AppendEntries RPC (log replication and heartbeat).
#[derive(Debug, Clone, PartialEq, Eq)]
pub struct AppendEntriesArgs {
    pub term: u64,
    pub leader_id: u64,
    pub prev_log_index: usize,
    pub prev_log_term: u64,
    pub entries: Vec<LogEntry>,
    pub leader_commit: usize,
}

/// Answer to an AppendEntries RPC. On a refusal, `conflict_index` and
/// `conflict_term` tell the leader where the follower's log diverges.
#[derive(Debug, Clone, Copy, PartialEq, Eq)]
pub struct AppendEntriesReply {
    pub term: u64,
    pub success: bool,
    pub conflict_index: usize,
    pub conflict_term: u64,
}

} // verus!
