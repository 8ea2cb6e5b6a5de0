use vstd::prelude::*;

use super::storage::RaftStorage;
use super::types::{ClientCommand, LogEntry};

verus! {

/// The error type of [`MemStorage`]. Memory never fails, so no operation
/// returns it.
#[derive(Debug, Clone, Copy, PartialEq, Eq, Structural)]
pub enum MemError {
    Poison,
}

/// Raft storage kept in memory.
pub struct MemStorage {
    term: u64,
    voted_for: Option<u64>,
    log: Vec<LogEntry>,
}

impl MemStorage {
    /// Empty storage: term 0, no vote, and the placeholder entry at index 0
    /// that every Raft log starts with.
    pub fn new() -> (r: MemStorage)
        ensures
            r.stored_term() == 0,
            r.stored_vote() == None::<u64>,
            r.stored_log() == seq![LogEntry { term: 0, command: ClientCommand::NoOp }],
    {
        let mut log = Vec::new();
        log.push(LogEntry { term: 0, command: ClientCommand::NoOp });
        MemStorage { term: 0, voted_for: None, log }
    }
}

impl RaftStorage for MemStorage {
    type Error = MemError;

    closed spec fn stored_term(&self) -> u64 {
        self.term
    }

    closed spec fn stored_vote(&self) -> Option<u64> {
        self.voted_for
    }

    closed spec fn stored_log(&self) -> Seq<LogEntry> {
        self.log@
    }

    fn save_term_and_vote(&mut self, term: u64, voted_for: Option<u64>) -> (r: Result<(), MemError>)
        ensures
            r is Ok,
    {
        self.term = term;
        self.voted_for = voted_for;
        Ok(())
    }

    fn load_term_and_vote(&self) -> (r: Result<(u64, Option<u64>), MemError>)
        ensures
            r is Ok,
    {
        Ok((self.term, self.voted_for))
    }

    fn append_entry(&mut self, entry: &LogEntry) -> (r: Result<(), MemError>)
        ensures
            r is Ok,
    {
        self.log.push(entry.duplicate());
        Ok(())
    }

    fn get_log_entries(&self, start_index: usize) -> (r: Result<Vec<LogEntry>, MemError>)
        ensures
            r is Ok,
    {
        let mut entries: Vec<LogEntry> = Vec::new();
        if start_index >= self.log.len() {
            return Ok(entries);
        }
        let mut i = start_index;
        while i < self.log.len()
            invariant
                start_index <= i <= self.log.len(),
                entries@ == self.log@.subrange(start_index as int, i as int),
            decreases self.log.len() - i,
        {
            entries.push(self.log[i].duplicate());
            proof {
                assert(entries@ =~= self.log@.subrange(start_index as int, i + 1));
            }
            i = i + 1;
        }
        Ok(entries)
    }

    fn log_len(&self) -> (r: Result<usize, MemError>)
        ensures
            r is Ok,
    {
        Ok(self.log.len())
    }
}

} // verus!
