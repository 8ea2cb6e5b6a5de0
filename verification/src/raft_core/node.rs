use std::collections::HashMap;
use vstd::prelude::*;
use vstd::string::StringExecFns;

use super::effect::{Effect, OutboundAppend, OutboundVote, TickAction};
use super::model::{
    apply_effects, conflict_start, entry_effects, follower_effects, log_up_to_date, match_count, match_of,
    merge_entries, merge_one, split_pending, drop_cut, entry_matches, proposal_in_place,
    lemma_split_pending_keeps, lemma_drop_cut_keeps_in_place, NodeView,
};
use super::rpc::{AppendEntriesArgs, AppendEntriesReply, RequestVoteArgs, RequestVoteReply};
use super::types::{ClientCommand, LogEntry, RaftRole};

verus! {

broadcast use vstd::std_specs::hash::group_hash_axioms;

/// The consensus state of one Raft node.
///
/// Every handler takes one event (an RPC, a reply, a proposal, a tick),
/// updates the state and appends to `out` the outside work it asks for.
pub struct RaftNode {
    pub id: u64,
    pub peers: Vec<u64>,
    pub current_term: u64,
    pub voted_for: Option<u64>,
    pub log: Vec<LogEntry>,
    pub commit_index: usize,
    pub last_applied: usize,
    pub role: RaftRole,
    pub next_index: HashMap<u64, usize>,
    pub match_index: HashMap<u64, usize>,
    /// Proposals that wait for their entry to commit: the log index of each
    /// and the entry proposed there.
    pub pending_proposals: Vec<(usize, LogEntry)>,
}

impl View for RaftNode {
    type V = NodeView;

    open spec fn view(&self) -> NodeView {
        NodeView {
            id: self.id,
            peers: self.peers@,
            current_term: self.current_term,
            voted_for: self.voted_for,
            log: self.log@,
            commit_index: self.commit_index,
            last_applied: self.last_applied,
            role: self.role,
            next_index: self.next_index@,
            match_index: self.match_index@,
            pending: self.pending_proposals@,
        }
    }
}

/// Half the size of a cluster of `peers + 1` nodes, rounded down: a count of
/// nodes is a majority when it exceeds this.
pub fn majority_threshold(peers: usize) -> (r: usize)
    ensures
        r == (peers + 1) / 2,
{
    peers / 2 + peers % 2
}

/// Whether two entries are the same: same term and same command.
pub fn same_entry(a: &LogEntry, b: &LogEntry) -> (r: bool)
    ensures
        r == entry_matches(*a, *b),
{
    if a.term != b.term {
        return false;
    }
    match (&a.command, &b.command) {
        (ClientCommand::Put { key: k1, value: v1 }, ClientCommand::Put { key: k2, value: v2 }) => {
            *k1 == *k2 && *v1 == *v2
        },
        (ClientCommand::NoOp, ClientCommand::NoOp) => true,
        _ => false,
    }
}

/// Whether `p` occurs among the first `i` elements of `s`.
pub open spec fn in_prefix(s: Seq<u64>, i: int, p: u64) -> bool {
    exists|j: int| 0 <= j < i && #[trigger] s[j] == p
}

impl RaftNode {
    /// A node that has just started: follower in term 0, with a placeholder
    /// entry at index 0 of its log.
    pub fn new(id: u64, peers: Vec<u64>) -> (r: RaftNode)
        ensures
            r@ == NodeView::initial(id, peers@),
            r@.wf(),
    {
        let mut log = Vec::new();
        log.push(LogEntry { term: 0, command: ClientCommand::NoOp });
        RaftNode {
            id,
            peers,
            current_term: 0,
            voted_for: None,
            log,
            commit_index: 0,
            last_applied: 0,
            role: RaftRole::Follower,
            next_index: HashMap::new(),
            match_index: HashMap::new(),
            pending_proposals: Vec::new(),
        }
    }

    /// The current term and role.
    pub fn get_state(&self) -> (r: (u64, RaftRole))
        ensures
            r == (self.current_term, self.role),
    {
        (self.current_term, self.role)
    }

    /// Steps down to follower in `term`, forgetting the vote.
    pub fn become_follower(&mut self, term: u64, out: &mut Vec<Effect>)
        requires
            old(self)@.wf(),
        ensures
            final(self)@ == old(self)@.become_follower(term),
            final(out)@ == old(out)@ + follower_effects(term),
            final(self)@.wf(),
    {
        self.current_term = term;
        self.role = RaftRole::Follower;
        self.voted_for = None;
        out.push(Effect::ResetElectionTimer);
        out.push(Effect::SaveTermAndVote { term: self.current_term, voted_for: self.voted_for });
    }

    /// Takes the leadership: every peer's next index becomes the end of the
    /// log and its match index 0.
    pub fn become_leader(&mut self)
        requires
            old(self)@.wf(),
        ensures
            final(self)@ == old(self)@.become_leader(),
            final(self)@.wf(),
    {
        self.role = RaftRole::Leader;
        let last_log_idx = self.log.len();
        let ghost old_next = self.next_index@;
        let ghost old_match = self.match_index@;
        let mut i: usize = 0;
        while i < self.peers.len()
            invariant
                0 <= i <= self.peers.len(),
                last_log_idx == self.log.len(),
                self@ == (NodeView {
                    next_index: self.next_index@,
                    match_index: self.match_index@,
                    role: RaftRole::Leader,
                    ..old(self)@
                }),
                forall|p: u64| #[trigger]
                    self.next_index@.contains_key(p) <==> old_next.contains_key(p)
                        || in_prefix(self.peers@, i as int, p),
                forall|p: u64| #[trigger]
                    self.match_index@.contains_key(p) <==> old_match.contains_key(p)
                        || in_prefix(self.peers@, i as int, p),
                forall|p: u64| #[trigger]
                    self.next_index@.contains_key(p) ==> self.next_index@[p] == if in_prefix(self.peers@, i as int, p) {
                        last_log_idx
                    } else {
                        old_next[p]
                    },
                forall|p: u64| #[trigger]
                    self.match_index@.contains_key(p) ==> self.match_index@[p] == if in_prefix(self.peers@, i as int, p) {
                        0usize
                    } else {
                        old_match[p]
                    },
            decreases self.peers.len() - i,
        {
            let peer = self.peers[i];
            proof {
                assert forall|p: u64| in_prefix(self.peers@, i + 1, p) <==> (in_prefix(
                    self.peers@,
                    i as int,
                    p,
                ) || p == peer) by {
                    if p == peer {
                        assert(self.peers@[i as int] == p);
                    }
                }
            }
            self.next_index.insert(peer, last_log_idx);
            self.match_index.insert(peer, 0);
            i = i + 1;
        }
        proof {
            assert forall|p: u64| in_prefix(self.peers@, i as int, p) <==> self.peers@.contains(p) by {
                if self.peers@.contains(p) {
                    let j = choose|j: int| 0 <= j < self.peers@.len() && self.peers@[j] == p;
                    assert(self.peers@[j] == p);
                }
            }
            assert(self.next_index@ =~= old(self)@.become_leader().next_index);
            assert(self.match_index@ =~= old(self)@.become_leader().match_index);
        }
    }

    /// Applies every committed entry not applied yet: each `Put` becomes an
    /// `Apply` effect, in log order.
    pub fn apply_committed(&mut self, out: &mut Vec<Effect>)
        requires
            old(self).last_applied < old(self).commit_index ==> old(self).commit_index
                < old(self).log.len(),
        ensures
            final(self)@ == old(self)@.apply_committed().0,
            final(out)@ == old(out)@ + old(self)@.apply_committed().1,
    {
        let ghost from = self.last_applied as int;
        let ghost out0 = out@;
        while self.last_applied < self.commit_index
            invariant
                from <= self.last_applied,
                self.last_applied <= self.commit_index || self.last_applied == from,
                self.last_applied < self.commit_index ==> self.commit_index < self.log.len(),
                self@ == (NodeView { last_applied: self.last_applied, ..old(self)@ }),
                out@ == out0 + apply_effects(self.log@, from, self.last_applied as int),
            decreases self.commit_index - self.last_applied,
        {
            self.last_applied = self.last_applied + 1;
            let entry = &self.log[self.last_applied];
            proof {
                assert(apply_effects(self.log@, from, self.last_applied as int) == apply_effects(
                    self.log@,
                    from,
                    self.last_applied - 1,
                ) + entry_effects(self.log@[self.last_applied as int]));
            }
            match &entry.command {
                ClientCommand::Put { key, value } => {
                    out.push(Effect::Apply { key: key.clone(), value: value.clone() });
                    proof {
                        assert(out@ =~= out0 + apply_effects(self.log@, from, self.last_applied as int));
                    }
                },
                ClientCommand::NoOp => {
                    proof {
                        assert(out@ =~= out0 + apply_effects(self.log@, from, self.last_applied as int));
                    }
                },
            }
        }
        proof {
            if from >= old(self).commit_index {
                assert(out@ =~= out0 + Seq::empty());
            }
        }
    }

    /// Handles a RequestVote RPC: steps down on a newer term, then grants the
    /// vote when it has not voted for another candidate in this term and the
    /// candidate's log is at least as up to date as its own.
    pub fn handle_request_vote(&mut self, args: RequestVoteArgs, out: &mut Vec<Effect>) -> (r: RequestVoteReply)
        requires
            old(self)@.wf(),
        ensures
            (final(self)@, r, final(out)@) == ({
                let (s, rep, e) = old(self)@.request_vote(args);
                (s, rep, old(out)@ + e)
            }),
            final(self)@.wf(),
            final(self).current_term >= old(self).current_term,
            r.vote_granted ==> final(self).voted_for == Some(args.candidate_id) && final(self).current_term
                == args.term && log_up_to_date(old(self).log@, args.last_log_term, args.last_log_index),
    {
        let ghost out0 = out@;
        if args.term > self.current_term {
            self.become_follower(args.term, out);
        }
        let ghost out1 = out@;
        let mut granted = false;
        if args.term == self.current_term {
            let may_vote = match self.voted_for {
                None => true,
                Some(v) => v == args.candidate_id,
            };
            if may_vote {
                let last_index = self.log.len() - 1;
                let last_term = self.log[last_index].term;
                if args.last_log_term > last_term || (args.last_log_term == last_term
                    && args.last_log_index >= last_index) {
                    granted = true;
                    self.voted_for = Some(args.candidate_id);
                    out.push(Effect::ResetElectionTimer);
                    out.push(Effect::SaveTermAndVote { term: self.current_term, voted_for: self.voted_for });
                }
            }
        }
        proof {
            let (s1, e1) = old(self)@.observe_term(args.term);
            assert(out1 == out0 + e1);
            if granted {
                assert(out@ =~= out0 + (e1 + seq![
                    Effect::ResetElectionTimer,
                    Effect::SaveTermAndVote { term: s1.current_term, voted_for: Some(args.candidate_id) },
                ]));
            } else {
                assert(out@ =~= out0 + e1);
            }
        }
        RequestVoteReply { term: self.current_term, vote_granted: granted }
    }

    /// Handles an AppendEntries RPC: refuses a stale term; otherwise stays or
    /// becomes follower, checks that its log holds the entry before the new
    /// ones (reporting where it diverges if not), merges the entries, and
    /// advances its commit index towards the leader's.
    pub fn handle_append_entries(&mut self, args: AppendEntriesArgs, out: &mut Vec<Effect>) -> (r: AppendEntriesReply)
        requires
            old(self)@.wf(),
        ensures
            (final(self)@, r, final(out)@) == ({
                let (s, rep, e) = old(self)@.append_entries(args);
                (s, rep, old(out)@ + e)
            }),
            final(self)@.wf(),
            final(self).current_term >= old(self).current_term,
    {
        let ghost out0 = out@;
        let ghost s0 = self@;
        if args.term > self.current_term {
            self.become_follower(args.term, out);
        }
        if args.term < self.current_term {
            return AppendEntriesReply {
                term: self.current_term,
                success: false,
                conflict_index: self.log.len(),
                conflict_term: 0,
            };
        }
        out.push(Effect::ResetElectionTimer);
        self.role = RaftRole::Follower;
        let ghost s2 = self@;
        let ghost out2 = out@;
        let prev = args.prev_log_index;
        if prev >= self.log.len() {
            return AppendEntriesReply {
                term: self.current_term,
                success: false,
                conflict_index: self.log.len(),
                conflict_term: 0,
            };
        }
        if self.log[prev].term != args.prev_log_term {
            let conflict_term = self.log[prev].term;
            let mut conflict_index = prev;
            while conflict_index > 0 && self.log[conflict_index - 1].term == conflict_term
                invariant
                    conflict_index <= prev < self.log.len(),
                    conflict_start(self.log@, conflict_index as int, conflict_term) == conflict_start(
                        self.log@,
                        prev as int,
                        conflict_term,
                    ),
                decreases conflict_index,
            {
                conflict_index = conflict_index - 1;
            }
            return AppendEntriesReply {
                term: self.current_term,
                success: false,
                conflict_index,
                conflict_term,
            };
        }
        let entries = args.entries;
        let ghost es = entries@;
        let ghost total = merge_entries(s2.log, prev + 1, es);
        let mut index = prev + 1;
        let mut i: usize = 0;
        proof {
            assert(es.subrange(0, es.len() as int) =~= es);
        }
        while i < entries.len()
            invariant
                entries@ == es,
                0 <= i <= es.len(),
                index == prev + 1 + i,
                1 <= index <= self.log.len(),
                self@ == (NodeView { log: self.log@, ..s2 }),
                merge_entries(self.log@, index as int, es.subrange(i as int, es.len() as int)).0
                    == total.0,
                out@ + merge_entries(self.log@, index as int, es.subrange(i as int, es.len() as int)).1
                    == out2 + total.1,
            decreases es.len() - i,
        {
            let entry = &entries[i];
            let ghost cur = self.log@;
            let ghost cur_out = out@;
            let ghost rest = es.subrange(i as int, es.len() as int);
            proof {
                assert(rest[0] == es[i as int]);
                assert(rest.drop_first() =~= es.subrange(i + 1, es.len() as int));
            }
            if index < self.log.len() {
                if self.log[index].term != entry.term {
                    self.log.truncate(index);
                    self.log.push(entry.duplicate());
                    out.push(Effect::AppendToStorage { entry: entry.duplicate() });
                }
            } else {
                self.log.push(entry.duplicate());
                out.push(Effect::AppendToStorage { entry: entry.duplicate() });
            }
            assert(index < self.log.len());
            proof {
                let (l1, f1) = merge_one(cur, index as int, es[i as int]);
                assert(self.log@ =~= l1);
                assert(out@ =~= cur_out + f1);
                let tail = merge_entries(l1, index + 1, es.subrange(i + 1, es.len() as int));
                assert(merge_entries(cur, index as int, rest) == (tail.0, f1 + tail.1));
                assert(out@ + tail.1 =~= cur_out + (f1 + tail.1));
            }
            index = index + 1;
            i = i + 1;
        }
        proof {
            assert(es.subrange(i as int, es.len() as int) =~= Seq::<LogEntry>::empty());
            assert(self.log@ == total.0);
            assert(out@ =~= out2 + total.1);
        }
        let ghost out3 = out@;
        self.drop_cut_proposals(out);
        proof {
            lemma_drop_cut_keeps_in_place(s2.pending, self.log@);
            assert(out@ == out3 + drop_cut(s2.pending, total.0).1);
        }
        if args.leader_commit > self.commit_index {
            let last = self.log.len() - 1;
            self.commit_index = if args.leader_commit <= last {
                args.leader_commit
            } else {
                last
            };
            self.apply_committed(out);
        }
        AppendEntriesReply { term: self.current_term, success: true, conflict_index: 0, conflict_term: 0 }
    }

    /// Starts an election: moves to the next term as candidate and votes for
    /// itself. Returns the RequestVote arguments to broadcast; a node without
    /// peers already holds a majority and becomes leader at once.
    pub fn start_election(&mut self, out: &mut Vec<Effect>) -> (r: RequestVoteArgs)
        requires
            old(self)@.wf(),
            old(self).current_term < u64::MAX,
        ensures
            (final(self)@, r, final(out)@) == ({
                let (s, a, e) = old(self)@.start_election();
                (s, a, old(out)@ + e)
            }),
            final(self)@.wf(),
            r == final(self)@.vote_args(),
    {
        self.role = RaftRole::Candidate;
        self.current_term = self.current_term + 1;
        self.voted_for = Some(self.id);
        out.push(Effect::ResetElectionTimer);
        out.push(Effect::SaveTermAndVote { term: self.current_term, voted_for: self.voted_for });
        let last_log_index = self.log.len() - 1;
        let args = RequestVoteArgs {
            term: self.current_term,
            candidate_id: self.id,
            last_log_index,
            last_log_term: self.log[last_log_index].term,
        };
        if 1 > majority_threshold(self.peers.len()) {
            self.become_leader();
        }
        args
    }

    /// The RequestVote request a candidate sends to each peer, in the order of
    /// `peers`, each once: all carry its term, its id and the index and term
    /// of its last entry. Empty unless this node is a candidate.
    pub fn vote_requests(&self) -> (r: Vec<OutboundVote>)
        requires
            self@.wf(),
        ensures
            self.role != RaftRole::Candidate ==> r@.len() == 0,
            self.role == RaftRole::Candidate ==> r@.len() == self.peers@.len(),
            self.role == RaftRole::Candidate ==> forall|i: int|
                0 <= i < r@.len() ==> #[trigger] r@[i].peer == self.peers@[i] && r@[i].args == self@.vote_args(),
    {
        let mut reqs: Vec<OutboundVote> = Vec::new();
        if self.role != RaftRole::Candidate {
            return reqs;
        }
        let last_log_index = self.log.len() - 1;
        let args = RequestVoteArgs {
            term: self.current_term,
            candidate_id: self.id,
            last_log_index,
            last_log_term: self.log[last_log_index].term,
        };
        let mut i: usize = 0;
        while i < self.peers.len()
            invariant
                0 <= i <= self.peers.len(),
                reqs@.len() == i,
                args == self@.vote_args(),
                forall|k: int| 0 <= k < i ==> #[trigger] reqs@[k].peer == self.peers@[k] && reqs@[k].args == args,
            decreases self.peers.len() - i,
        {
            reqs.push(OutboundVote { peer: self.peers[i], args });
            i = i + 1;
        }
        reqs
    }

    /// Counts one reply to this node's RequestVote broadcast. Returns whether
    /// to keep waiting for replies: counting stops when the node steps down
    /// on a newer term or wins a majority.
    pub fn handle_vote_reply(&mut self, reply: RequestVoteReply, votes: &mut usize, out: &mut Vec<Effect>) -> (r: bool)
        requires
            old(self)@.wf(),
            *old(votes) < usize::MAX,
        ensures
            (final(self)@, *final(votes), r, final(out)@) == ({
                let (s, v, c, e) = old(self)@.vote_reply(*old(votes), reply);
                (s, v, c, old(out)@ + e)
            }),
            final(self)@.wf(),
    {
        if reply.term > self.current_term {
            self.become_follower(reply.term, out);
            return false;
        }
        if self.role == RaftRole::Candidate && reply.term == self.current_term && reply.vote_granted {
            *votes = *votes + 1;
            if *votes > majority_threshold(self.peers.len()) {
                self.become_leader();
                return false;
            }
        }
        proof {
            assert(out@ =~= old(out)@ + Seq::<Effect>::empty());
        }
        true
    }

    /// The AppendEntries request a leader sends to each peer, in the order of
    /// `peers`: the entries from the peer's next index on, with the index and
    /// term of the entry before them. Empty unless this node leads.
    pub fn append_requests(&self) -> (r: Vec<OutboundAppend>)
        requires
            self@.wf(),
        ensures
            self.role != RaftRole::Leader ==> r@.len() == 0,
            self.role == RaftRole::Leader ==> r@.len() == self.peers@.len(),
            self.role == RaftRole::Leader ==> forall|i: int|
                0 <= i < r@.len() ==> #[trigger] r@[i].peer == self.peers@[i] && self@.is_append_for(
                    self.peers@[i],
                    r@[i].args,
                ),
    {
        let mut reqs: Vec<OutboundAppend> = Vec::new();
        if self.role != RaftRole::Leader {
            return reqs;
        }
        let mut i: usize = 0;
        while i < self.peers.len()
            invariant
                self@.wf(),
                self.role == RaftRole::Leader,
                0 <= i <= self.peers.len(),
                reqs@.len() == i,
                forall|k: int|
                    0 <= k < i ==> #[trigger] reqs@[k].peer == self.peers@[k] && self@.is_append_for(
                        self.peers@[k],
                        reqs@[k].args,
                    ),
            decreases self.peers.len() - i,
        {
            let peer = self.peers[i];
            let next = match self.next_index.get(&peer) {
                Some(n) => *n,
                None => self.log.len(),
            };
            proof {
                assert(self.peers@.contains(peer));
                if self.next_index@.contains_key(peer) {
                    assert(1 <= self.next_index@[peer] <= self.log@.len());
                }
            }
            let prev_index = if next > 0 {
                next - 1
            } else {
                0
            };
            let prev_term = self.log[prev_index].term;
            let mut entries: Vec<LogEntry> = Vec::new();
            let mut j = next;
            while j < self.log.len()
                invariant
                    next <= j <= self.log.len(),
                    entries@ == self.log@.subrange(next as int, j as int),
                decreases self.log.len() - j,
            {
                entries.push(self.log[j].duplicate());
                proof {
                    assert(entries@ =~= self.log@.subrange(next as int, j + 1));
                }
                j = j + 1;
            }
            proof {
                if next >= self.log.len() {
                    assert(entries@ =~= Seq::<LogEntry>::empty());
                }
            }
            let args = AppendEntriesArgs {
                term: self.current_term,
                leader_id: self.id,
                prev_log_index: prev_index,
                prev_log_term: prev_term,
                entries,
                leader_commit: self.commit_index,
            };
            reqs.push(OutboundAppend { peer, args });
            i = i + 1;
        }
        reqs
    }

    /// Processes a peer's reply to an AppendEntries request that carried
    /// `entries_len` entries after `prev_index`. On success the peer's match
    /// and next index move past the sent entries; on a refusal the next index
    /// moves back to the reported conflict, or by one. Returns whether to keep
    /// processing replies (not after stepping down on a newer term).
    pub fn handle_append_reply(
        &mut self,
        peer: u64,
        prev_index: usize,
        entries_len: usize,
        reply: AppendEntriesReply,
        out: &mut Vec<Effect>,
    ) -> (r: bool)
        requires
            old(self)@.wf(),
            prev_index + entries_len < old(self).log.len(),
            old(self).role == RaftRole::Leader && reply.term == old(self).current_term && !reply.success
                && reply.conflict_index > 0 ==> reply.conflict_index <= old(self).log.len(),
        ensures
            (final(self)@, r, final(out)@) == ({
                let (s, c, e) = old(self)@.append_reply(peer, prev_index, entries_len, reply);
                (s, c, old(out)@ + e)
            }),
            final(self)@.wf(),
    {
        if reply.term > self.current_term {
            self.become_follower(reply.term, out);
            return false;
        }
        proof {
            assert(out@ =~= old(out)@ + Seq::<Effect>::empty());
        }
        if self.role == RaftRole::Leader && reply.term == self.current_term {
            if reply.success {
                let new_match = prev_index + entries_len;
                self.match_index.insert(peer, new_match);
                self.next_index.insert(peer, new_match + 1);
            } else if reply.conflict_index > 0 {
                self.next_index.insert(peer, reply.conflict_index);
            } else {
                let current_next = match self.next_index.get(&peer) {
                    Some(n) => *n,
                    None => 1,
                };
                if current_next > 1 {
                    self.next_index.insert(peer, current_next - 1);
                }
            }
        }
        true
    }

    /// Removes the pending proposals whose index is at most `commit_idx` and
    /// asks for each of them to be told that it committed.
    pub fn notify_pending_proposals(&mut self, commit_idx: usize, out: &mut Vec<Effect>)
        ensures
            final(self)@ == old(self)@.notify_pending(commit_idx).0,
            final(out)@ == old(out)@ + old(self)@.notify_pending(commit_idx).1,
    {
        let ghost ps = self.pending_proposals@;
        let ghost out0 = out@;
        let mut kept: Vec<(usize, LogEntry)> = Vec::new();
        let mut i: usize = 0;
        while i < self.pending_proposals.len()
            invariant
                self@ == old(self)@,
                self.pending_proposals@ == ps,
                0 <= i <= ps.len(),
                kept@ == split_pending(ps.take(i as int), commit_idx).0,
                out@ == out0 + split_pending(ps.take(i as int), commit_idx).1,
            decreases ps.len() - i,
        {
            let idx = self.pending_proposals[i].0;
            proof {
                assert(ps.take(i + 1).drop_last() =~= ps.take(i as int));
                assert(ps.take(i + 1).last() == ps[i as int]);
            }
            if idx <= commit_idx {
                out.push(Effect::NotifyCommitted { index: idx });
            } else {
                let e = self.pending_proposals[i].1.duplicate();
                kept.push((idx, e));
            }
            proof {
                assert(kept@ =~= split_pending(ps.take(i + 1), commit_idx).0);
                assert(out@ =~= out0 + split_pending(ps.take(i + 1), commit_idx).1);
            }
            i = i + 1;
        }
        proof {
            assert(ps.take(i as int) =~= ps);
        }
        self.pending_proposals = kept;
    }

    /// Drops the pending proposals whose entry is no longer at its index in
    /// the log, asking for each of them to be told that it failed.
    pub fn drop_cut_proposals(&mut self, out: &mut Vec<Effect>)
        ensures
            final(self)@ == (NodeView { pending: drop_cut(old(self)@.pending, old(self)@.log).0, ..old(self)@ }),
            final(out)@ == old(out)@ + drop_cut(old(self)@.pending, old(self)@.log).1,
    {
        let ghost ps = self.pending_proposals@;
        let ghost out0 = out@;
        let mut kept: Vec<(usize, LogEntry)> = Vec::new();
        let mut i: usize = 0;
        while i < self.pending_proposals.len()
            invariant
                self@ == old(self)@,
                self.pending_proposals@ == ps,
                0 <= i <= ps.len(),
                kept@ == drop_cut(ps.take(i as int), self.log@).0,
                out@ == out0 + drop_cut(ps.take(i as int), self.log@).1,
            decreases ps.len() - i,
        {
            let idx = self.pending_proposals[i].0;
            proof {
                assert(ps.take(i + 1).drop_last() =~= ps.take(i as int));
                assert(ps.take(i + 1).last() == ps[i as int]);
            }
            let in_place = idx < self.log.len() && same_entry(&self.log[idx], &self.pending_proposals[i].1);
            if in_place {
                let e = self.pending_proposals[i].1.duplicate();
                kept.push((idx, e));
            } else {
                out.push(Effect::NotifyFailed { index: idx });
            }
            proof {
                assert(kept@ =~= drop_cut(ps.take(i + 1), self.log@).0);
                assert(out@ =~= out0 + drop_cut(ps.take(i + 1), self.log@).1);
            }
            i = i + 1;
        }
        proof {
            assert(ps.take(i as int) =~= ps);
        }
        self.pending_proposals = kept;
    }

    /// For a leader: advances the commit index to the highest index of an
    /// entry of the current term that a majority of the cluster holds, then
    /// notifies the proposals that committed and applies the new entries.
    pub fn update_commit_index(&mut self, out: &mut Vec<Effect>)
        requires
            old(self)@.wf(),
        ensures
            final(self)@ == old(self)@.update_commit().0,
            final(out)@ == old(out)@ + old(self)@.update_commit().1,
            final(self)@.wf(),
    {
        if self.role != RaftRole::Leader {
            proof {
                assert(out@ =~= old(out)@ + Seq::<Effect>::empty());
            }
            return;
        }
        let half = majority_threshold(self.peers.len());
        let mut new_commit = self.commit_index;
        let mut n = self.commit_index + 1;
        while n < self.log.len()
            invariant
                self@ == old(self)@,
                self@.wf(),
                half == (self.peers.len() + 1) / 2,
                self.commit_index + 1 <= n,
                n <= self.log.len() || n == self.commit_index + 1,
                new_commit == self@.best_commit(n as int),
                self.commit_index <= new_commit < n,
            decreases self.log.len() - n,
        {
            if self.log[n].term == self.current_term {
                let mut matched: usize = 0;
                let mut j: usize = 0;
                while j < self.peers.len()
                    invariant
                        self@ == old(self)@,
                        self@.wf(),
                        0 <= j <= self.peers.len(),
                        matched == match_count(self.peers@.take(j as int), self.match_index@, n as int),
                        matched <= j,
                    decreases self.peers.len() - j,
                {
                    let peer = self.peers[j];
                    let m = match self.match_index.get(&peer) {
                        Some(m) => *m,
                        None => 0,
                    };
                    proof {
                        assert(self.peers@.take(j + 1).drop_last() =~= self.peers@.take(j as int));
                        assert(self.peers@.take(j + 1).last() == peer);
                        assert(m == match_of(self.match_index@, peer));
                    }
                    if m >= n {
                        matched = matched + 1;
                    }
                    j = j + 1;
                }
                proof {
                    assert(self.peers@.take(j as int) =~= self.peers@);
                }
                if matched >= half {
                    new_commit = n;
                }
            }
            n = n + 1;
        }
        proof {
            if n > self.log.len() {
                assert(self@.best_commit(self.log.len() as int) == self.commit_index);
            }
        }
        if new_commit > self.commit_index {
            self.commit_index = new_commit;
            self.notify_pending_proposals(new_commit, out);
            proof {
                lemma_split_pending_keeps(old(self)@.pending, new_commit);
            }
            self.apply_committed(out);
        } else {
            proof {
                assert(out@ =~= old(out)@ + Seq::<Effect>::empty());
            }
        }
    }

    /// Handles a client proposal. A node that does not lead refuses it with
    /// "Not leader". A leader appends the command to its log in its current
    /// term and returns the entry's index; alone in its cluster it commits and
    /// applies the entry at once, otherwise the proposal waits until the
    /// entry is replicated on a majority.
    pub fn handle_propose(&mut self, command: ClientCommand, out: &mut Vec<Effect>) -> (r: Result<usize, String>)
        requires
            old(self)@.wf(),
        ensures
            (final(self)@, final(out)@) == ({
                let (s, _i, e) = old(self)@.propose(command);
                (s, old(out)@ + e)
            }),
            match r {
                Ok(i) => old(self)@.propose(command).1 == Some(i),
                Err(msg) => old(self)@.propose(command).1 is None && msg@ == "Not leader"@,
            },
            final(self)@.wf(),
    {
        if self.role != RaftRole::Leader {
            proof {
                assert(out@ =~= old(out)@ + Seq::<Effect>::empty());
            }
            return Err(String::from_str("Not leader"));
        }
        let entry = LogEntry { term: self.current_term, command };
        self.log.push(entry.duplicate());
        out.push(Effect::AppendToStorage { entry: entry.duplicate() });
        let index = self.log.len() - 1;
        if self.peers.len() == 0 {
            self.commit_index = index;
            out.push(Effect::NotifyCommitted { index });
            let ghost out1 = out@;
            self.apply_committed(out);
            proof {
                assert(out@ =~= old(out)@ + (seq![Effect::AppendToStorage { entry }].push(
                    Effect::NotifyCommitted { index },
                ) + (out@.subrange(out1.len() as int, out@.len() as int))));
            }
        } else {
            self.pending_proposals.push((index, entry));
        }
        proof {
            assert forall|k: int| 0 <= k < self.pending_proposals@.len() implies proposal_in_place(
                self.log@,
                #[trigger] self.pending_proposals@[k],
            ) by {
                if k < old(self).pending_proposals@.len() {
                    assert(proposal_in_place(old(self).log@, old(self).pending_proposals@[k]));
                    assert(self.log@[self.pending_proposals@[k].0 as int] == old(self).log@[self.pending_proposals@[k].0 as int]);
                }
            }
        }
        Ok(index)
    }

    /// What a timer tick asks for: a follower or candidate whose election
    /// timer ran out starts an election; a leader whose heartbeat is due
    /// replicates.
    pub fn on_tick(&self, election_timed_out: bool, heartbeat_due: bool) -> (r: TickAction)
        ensures
            r == (if self.role == RaftRole::Leader {
                if heartbeat_due {
                    TickAction::Replicate
                } else {
                    TickAction::Idle
                }
            } else if election_timed_out {
                TickAction::StartElection
            } else {
                TickAction::Idle
            }),
    {
        match self.role {
            RaftRole::Follower | RaftRole::Candidate => {
                if election_timed_out {
                    TickAction::StartElection
                } else {
                    TickAction::Idle
                }
            },
            RaftRole::Leader => {
                if heartbeat_due {
                    TickAction::Replicate
                } else {
                    TickAction::Idle
                }
            },
        }
    }
}

} // verus!
