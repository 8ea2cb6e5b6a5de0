use vstd::prelude::*;

verus! {

/// A command that clients ask the replicated state machine to execute.
#[derive(Debug, Clone, PartialEq, Eq)]
pub enum ClientCommand {
    Put { key: String, value: String },
    NoOp,
}

/// One slot of the replicated log: the term in which a leader created it and
/// the command it carries.
#[derive(Debug, Clone, PartialEq, Eq)]
pub struct LogEntry {
    pub term: u64,
    pub command: ClientCommand,
}

/// The three roles a Raft node moves between.
#[derive(Debug, Clone, Copy, PartialEq, Eq, Structural)]
pub enum RaftRole {
    Follower,
    Candidate,
    Leader,
}

impl ClientCommand {
    /// A copy of the command that is equal to it.
    pub fn duplicate(&self) -> (r: ClientCommand)
        ensures
            r == *self,
    {
        match self {
            ClientCommand::Put { key, value } => ClientCommand::Put { key: key.clone(), value: value.clone() },
            ClientCommand::NoOp => ClientCommand::NoOp,
        }
    }
}

impl LogEntry {
    /// A copy of the entry that is equal to it.
    pub fn duplicate(&self) -> (r: LogEntry)
        ensures
            r == *self,
    {
        LogEntry { term: self.term, command: self.command.duplicate() }
    }
}

} // verus!
