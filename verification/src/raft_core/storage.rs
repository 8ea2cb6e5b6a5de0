use vstd::prelude::*;

use super::types::LogEntry;

verus! {

/// Durable storage for the state a Raft node must not lose: its term, its
/// vote, and its log. Implementations say, through the three spec functions,
/// what they hold; the contracts then say that a read gives back what the
/// writes before it stored.
pub trait RaftStorage {
    type Error;

    /// The term last saved.
    spec fn stored_term(&self) -> u64;

    /// The vote last saved.
    spec fn stored_vote(&self) -> Option<u64>;

    /// The entries appended so far, in order.
    spec fn stored_log(&self) -> Seq<LogEntry>;

    fn save_term_and_vote(&mut self, term: u64, voted_for: Option<u64>) -> (r: Result<(), Self::Error>)
        ensures
            r is Ok ==> final(self).stored_term() == term && final(self).stored_vote() == voted_for
                && final(self).stored_log() == old(self).stored_log(),
    ;

    fn load_term_and_vote(&self) -> (r: Result<(u64, Option<u64>), Self::Error>)
        ensures
            r is Ok ==> r->Ok_0 == (self.stored_term(), self.stored_vote()),
    ;

    fn append_entry(&mut self, entry: &LogEntry) -> (r: Result<(), Self::Error>)
        ensures
            r is Ok ==> final(self).stored_log() == old(self).stored_log().push(*entry)
                && final(self).stored_term() == old(self).stored_term() && final(self).stored_vote()
                == old(self).stored_vote(),
    ;

    fn get_log_entries(&self, start_index: usize) -> (r: Result<Vec<LogEntry>, Self::Error>)
        ensures
            r is Ok ==> r->Ok_0@ == (if start_index >= self.stored_log().len() {
                Seq::empty()
            } else {
                self.stored_log().skip(start_index as int)
            }),
    ;

    fn log_len(&self) -> (r: Result<usize, Self::Error>)
        ensures
            r is Ok ==> r->Ok_0 == self.stored_log().len(),
    ;
}

} // verus!
