use vstd::prelude::*;

use super::effect::Effect;
use super::rpc::{AppendEntriesArgs, AppendEntriesReply, RequestVoteArgs, RequestVoteReply};
use super::types::{ClientCommand, LogEntry, RaftRole};

verus! {

/// The mathematical state of a Raft node: what every handler reads and
/// changes.
#[verifier::ext_equal]
pub struct NodeView {
    pub id: u64,
    pub peers: Seq<u64>,
    pub current_term: u64,
    pub voted_for: Option<u64>,
    pub log: Seq<LogEntry>,
    pub commit_index: usize,
    pub last_applied: usize,
    pub role: RaftRole,
    pub next_index: Map<u64, usize>,
    pub match_index: Map<u64, usize>,
    /// Proposals waiting to commit: the log index of each and the entry that
    /// was proposed there.
    pub pending: Seq<(usize, LogEntry)>,
}

/// The effects that stepping down to follower in `term` asks for.
pub open spec fn follower_effects(term: u64) -> Seq<Effect> {
    seq![Effect::ResetElectionTimer, Effect::SaveTermAndVote { term, voted_for: None }]
}

/// The effect that applying one entry to the key-value state machine has.
pub open spec fn entry_effects(e: LogEntry) -> Seq<Effect> {
    match e.command {
        ClientCommand::Put { key, value } => seq![Effect::Apply { key, value }],
        ClientCommand::NoOp => Seq::empty(),
    }
}

/// The writes of the entries at indices `from + 1 ..= to`, in log order.
pub open spec fn apply_effects(log: Seq<LogEntry>, from: int, to: int) -> Seq<Effect>
    decreases to - from,
{
    if to <= from {
        Seq::empty()
    } else {
        apply_effects(log, from, to - 1) + entry_effects(log[to])
    }
}

/// The first index of the run of entries of term `t` that ends at `i`
/// (where a follower reports the conflict).
pub open spec fn conflict_start(log: Seq<LogEntry>, i: int, t: u64) -> int
    decreases i,
{
    if i > 0 && log[i - 1].term == t {
        conflict_start(log, i - 1, t)
    } else {
        i
    }
}

/// Merging one entry received from the leader at position `index`.
pub open spec fn merge_one(log: Seq<LogEntry>, index: int, e: LogEntry) -> (Seq<LogEntry>, Seq<Effect>) {
    if index < log.len() {
        if log[index].term != e.term {
            (log.take(index).push(e), seq![Effect::AppendToStorage { entry: e }])
        } else {
            (log, Seq::empty())
        }
    } else {
        (log.push(e), seq![Effect::AppendToStorage { entry: e }])
    }
}

/// Merging the entries `es` of an AppendEntries request into `log`, the first
/// of them at position `index`: an entry whose term differs from the one in
/// place cuts the log there; missing entries are appended.
pub open spec fn merge_entries(log: Seq<LogEntry>, index: int, es: Seq<LogEntry>) -> (Seq<LogEntry>, Seq<Effect>)
    decreases es.len(),
{
    if es.len() == 0 {
        (log, Seq::empty())
    } else {
        let (l1, f1) = merge_one(log, index, es[0]);
        let (l2, f2) = merge_entries(l1, index + 1, es.drop_first());
        (l2, f1 + f2)
    }
}

/// The match index of `p` as the leader counts it (0 when unknown).
pub open spec fn match_of(mi: Map<u64, usize>, p: u64) -> int {
    if mi.contains_key(p) {
        mi[p] as int
    } else {
        0
    }
}

/// How many of `peers` are known to hold the entry at index `n`.
pub open spec fn match_count(peers: Seq<u64>, mi: Map<u64, usize>, n: int) -> nat
    decreases peers.len(),
{
    if peers.len() == 0 {
        0
    } else {
        match_count(peers.drop_last(), mi, n) + if match_of(mi, peers.last()) >= n {
            1nat
        } else {
            0nat
        }
    }
}

/// Whether a candidate whose last entry has term `last_term` at index
/// `last_index` has a log at least as up to date as `log`.
pub open spec fn log_up_to_date(log: Seq<LogEntry>, last_term: u64, last_index: usize) -> bool {
    ||| last_term > log.last().term
    ||| (last_term == log.last().term && last_index >= log.len() - 1)
}

/// Whether two entries are the same: same term and the same command.
pub open spec fn entry_matches(a: LogEntry, b: LogEntry) -> bool {
    &&& a.term == b.term
    &&& match (a.command, b.command) {
        (ClientCommand::Put { key: k1, value: v1 }, ClientCommand::Put { key: k2, value: v2 }) => k1@
            == k2@ && v1@ == v2@,
        (ClientCommand::NoOp, ClientCommand::NoOp) => true,
        _ => false,
    }
}

/// Whether the pending proposal `p` still has its entry at its index in `log`.
pub open spec fn proposal_in_place(log: Seq<LogEntry>, p: (usize, LogEntry)) -> bool {
    p.0 < log.len() && entry_matches(log[p.0 as int], p.1)
}

/// Splitting the pending proposals at commit index `c`: those still waiting,
/// and a notification for each one that is now committed, in order.
pub open spec fn split_pending(ps: Seq<(usize, LogEntry)>, c: usize) -> (Seq<(usize, LogEntry)>, Seq<Effect>)
    decreases ps.len(),
{
    if ps.len() == 0 {
        (Seq::empty(), Seq::empty())
    } else {
        let (kept, fired) = split_pending(ps.drop_last(), c);
        let x = ps.last();
        if x.0 <= c {
            (kept, fired.push(Effect::NotifyCommitted { index: x.0 }))
        } else {
            (kept.push(x), fired)
        }
    }
}

/// The proposals kept by `split_pending` are proposals of `ps`.
pub proof fn lemma_split_pending_keeps(ps: Seq<(usize, LogEntry)>, c: usize)
    ensures
        forall|k: int|
            0 <= k < split_pending(ps, c).0.len() ==> exists|j: int|
                0 <= j < ps.len() && #[trigger] split_pending(ps, c).0[k] == ps[j],
    decreases ps.len(),
{
    if ps.len() > 0 {
        let d = ps.drop_last();
        lemma_split_pending_keeps(d, c);
        let (kept, fired) = split_pending(d, c);
        let all = split_pending(ps, c).0;
        assert forall|k: int| 0 <= k < all.len() implies exists|j: int|
            0 <= j < ps.len() && #[trigger] all[k] == ps[j] by {
            if k < kept.len() {
                assert(all[k] == kept[k]);
                let j = choose|j: int| 0 <= j < d.len() && #[trigger] kept[k] == d[j];
                assert(d[j] == ps[j]);
            } else {
                assert(all[k] == ps[ps.len() - 1]);
            }
        }
    }
}

/// The proposals kept by `drop_cut` all have their entry in place.
pub proof fn lemma_drop_cut_keeps_in_place(ps: Seq<(usize, LogEntry)>, log: Seq<LogEntry>)
    ensures
        forall|k: int|
            0 <= k < drop_cut(ps, log).0.len() ==> proposal_in_place(log, #[trigger] drop_cut(ps, log).0[k]),
    decreases ps.len(),
{
    if ps.len() > 0 {
        lemma_drop_cut_keeps_in_place(ps.drop_last(), log);
        let (kept, failed) = drop_cut(ps.drop_last(), log);
        let all = drop_cut(ps, log).0;
        assert forall|k: int| 0 <= k < all.len() implies proposal_in_place(log, #[trigger] all[k]) by {
            if k < kept.len() {
                assert(all[k] == kept[k]);
            }
        }
    }
}

/// When every proposal has its entry in place, dropping the cut ones keeps
/// them all and fails none.
pub proof fn lemma_drop_cut_identity(ps: Seq<(usize, LogEntry)>, log: Seq<LogEntry>)
    requires
        forall|k: int| 0 <= k < ps.len() ==> proposal_in_place(log, #[trigger] ps[k]),
    ensures
        drop_cut(ps, log) == (ps, Seq::<Effect>::empty()),
    decreases ps.len(),
{
    if ps.len() > 0 {
        let d = ps.drop_last();
        assert forall|k: int| 0 <= k < d.len() implies proposal_in_place(log, #[trigger] d[k]) by {
            assert(d[k] == ps[k]);
        }
        lemma_drop_cut_identity(d, log);
        assert(ps.last() == ps[ps.len() - 1]);
        assert(d.push(ps.last()) =~= ps);
    }
}

/// Dropping the pending proposals whose entry is no longer at its index in
/// `log`: those still in place, and a failure notice for each dropped one, in
/// order.
pub open spec fn drop_cut(ps: Seq<(usize, LogEntry)>, log: Seq<LogEntry>) -> (Seq<(usize, LogEntry)>, Seq<Effect>)
    decreases ps.len(),
{
    if ps.len() == 0 {
        (Seq::empty(), Seq::empty())
    } else {
        let (kept, failed) = drop_cut(ps.drop_last(), log);
        let x = ps.last();
        if proposal_in_place(log, x) {
            (kept.push(x), failed)
        } else {
            (kept, failed.push(Effect::NotifyFailed { index: x.0 }))
        }
    }
}

/// A majority of `n` nodes: more than half of them.
pub open spec fn is_majority(count: int, total: int) -> bool {
    count > total / 2
}

impl NodeView {
    /// The state of a freshly started node: follower in term 0 with one
    /// placeholder entry in its log.
    pub open spec fn initial(id: u64, peers: Seq<u64>) -> NodeView {
        NodeView {
            id,
            peers,
            current_term: 0,
            voted_for: None,
            log: seq![LogEntry { term: 0, command: ClientCommand::NoOp }],
            commit_index: 0,
            last_applied: 0,
            role: RaftRole::Follower,
            next_index: Map::empty(),
            match_index: Map::empty(),
            pending: Seq::empty(),
        }
    }

    /// Well-formedness, kept by every handler.
    pub open spec fn wf(self) -> bool {
        &&& 1 <= self.log.len() <= usize::MAX
        &&& self.commit_index <= self.last_applied
        &&& self.commit_index < usize::MAX
        &&& self.role == RaftRole::Leader ==> self.next_index_in_bounds()
        &&& self.pending_in_place()
    }

    /// Every pending proposal still has its entry at its index.
    pub open spec fn pending_in_place(self) -> bool {
        forall|k: int| 0 <= k < self.pending.len() ==> proposal_in_place(self.log, #[trigger] self.pending[k])
    }

    /// For a leader: the next index kept for each peer lies in `1 ..= log.len()`.
    pub open spec fn next_index_in_bounds(self) -> bool {
        forall|p: u64|
            #![trigger self.next_index[p]]
            self.peers.contains(p) && self.next_index.contains_key(p) ==> 1 <= self.next_index[p]
                <= self.log.len()
    }

    /// Number of nodes in the cluster, this one included.
    pub open spec fn cluster_size(self) -> int {
        self.peers.len() + 1int
    }

    pub open spec fn last_log_index(self) -> int {
        self.log.len() - 1
    }

    pub open spec fn become_follower(self, term: u64) -> NodeView {
        NodeView { current_term: term, role: RaftRole::Follower, voted_for: None, ..self }
    }

    /// Stepping down when a message carries a newer term.
    pub open spec fn observe_term(self, term: u64) -> (NodeView, Seq<Effect>) {
        if term > self.current_term {
            (self.become_follower(term), follower_effects(term))
        } else {
            (self, Seq::empty())
        }
    }

    pub open spec fn become_leader(self) -> NodeView {
        NodeView {
            role: RaftRole::Leader,
            next_index: Map::new(
                |p: u64| self.next_index.contains_key(p) || self.peers.contains(p),
                |p: u64|
                    if self.peers.contains(p) {
                        self.log.len() as usize
                    } else {
                        self.next_index[p]
                    },
            ),
            match_index: Map::new(
                |p: u64| self.match_index.contains_key(p) || self.peers.contains(p),
                |p: u64|
                    if self.peers.contains(p) {
                        0usize
                    } else {
                        self.match_index[p]
                    },
            ),
            ..self
        }
    }

    /// Applying every committed entry that has not been applied yet.
    pub open spec fn apply_committed(self) -> (NodeView, Seq<Effect>) {
        if self.last_applied < self.commit_index {
            (
                NodeView { last_applied: self.commit_index, ..self },
                apply_effects(self.log, self.last_applied as int, self.commit_index as int),
            )
        } else {
            (self, Seq::empty())
        }
    }

    /// The RequestVote handler.
    pub open spec fn request_vote(self, args: RequestVoteArgs) -> (NodeView, RequestVoteReply, Seq<Effect>) {
        let (s1, e1) = self.observe_term(args.term);
        let grant = args.term == s1.current_term && (s1.voted_for is None || s1.voted_for
            == Some(args.candidate_id)) && log_up_to_date(
            s1.log,
            args.last_log_term,
            args.last_log_index,
        );
        if grant {
            (
                NodeView { voted_for: Some(args.candidate_id), ..s1 },
                RequestVoteReply { term: s1.current_term, vote_granted: true },
                e1 + seq![
                    Effect::ResetElectionTimer,
                    Effect::SaveTermAndVote { term: s1.current_term, voted_for: Some(args.candidate_id) },
                ],
            )
        } else {
            (s1, RequestVoteReply { term: s1.current_term, vote_granted: false }, e1)
        }
    }

    /// The AppendEntries handler.
    pub open spec fn append_entries(self, args: AppendEntriesArgs) -> (NodeView, AppendEntriesReply, Seq<Effect>) {
        let (s1, e1) = self.observe_term(args.term);
        if args.term < s1.current_term {
            (
                s1,
                AppendEntriesReply {
                    term: s1.current_term,
                    success: false,
                    conflict_index: s1.log.len() as usize,
                    conflict_term: 0,
                },
                e1,
            )
        } else {
            let s2 = NodeView { role: RaftRole::Follower, ..s1 };
            let e2 = e1.push(Effect::ResetElectionTimer);
            let prev = args.prev_log_index as int;
            if prev >= s2.log.len() {
                (
                    s2,
                    AppendEntriesReply {
                        term: s2.current_term,
                        success: false,
                        conflict_index: s2.log.len() as usize,
                        conflict_term: 0,
                    },
                    e2,
                )
            } else if s2.log[prev].term != args.prev_log_term {
                let ct = s2.log[prev].term;
                (
                    s2,
                    AppendEntriesReply {
                        term: s2.current_term,
                        success: false,
                        conflict_index: conflict_start(s2.log, prev, ct) as usize,
                        conflict_term: ct,
                    },
                    e2,
                )
            } else {
                let (log3, e3) = merge_entries(s2.log, prev + 1, args.entries@);
                let (kept, failed) = drop_cut(s2.pending, log3);
                let s3 = NodeView { log: log3, pending: kept, ..s2 };
                let ok = AppendEntriesReply {
                    term: s3.current_term,
                    success: true,
                    conflict_index: 0,
                    conflict_term: 0,
                };
                if args.leader_commit > s3.commit_index {
                    let c = if args.leader_commit <= log3.len() - 1 {
                        args.leader_commit
                    } else {
                        (log3.len() - 1) as usize
                    };
                    let (s4, e4) = NodeView { commit_index: c, ..s3 }.apply_committed();
                    (s4, ok, e2 + e3 + failed + e4)
                } else {
                    (s3, ok, e2 + e3 + failed)
                }
            }
        }
    }

    /// Starting an election: the new state, the RequestVote arguments to
    /// broadcast and the effects. A node without peers wins at once.
    pub open spec fn start_election(self) -> (NodeView, RequestVoteArgs, Seq<Effect>) {
        let term = (self.current_term + 1) as u64;
        let s1 = NodeView {
            role: RaftRole::Candidate,
            current_term: term,
            voted_for: Some(self.id),
            ..self
        };
        let args = RequestVoteArgs {
            term,
            candidate_id: self.id,
            last_log_index: (self.log.len() - 1) as usize,
            last_log_term: self.log.last().term,
        };
        let e = seq![
            Effect::ResetElectionTimer,
            Effect::SaveTermAndVote { term, voted_for: Some(self.id) },
        ];
        if is_majority(1, self.cluster_size()) {
            (s1.become_leader(), args, e)
        } else {
            (s1, args, e)
        }
    }

    /// The RequestVote arguments that this node, as candidate, asks for votes
    /// with: its term, its id, and the index and term of its last entry.
    pub open spec fn vote_args(self) -> RequestVoteArgs {
        RequestVoteArgs {
            term: self.current_term,
            candidate_id: self.id,
            last_log_index: (self.log.len() - 1) as usize,
            last_log_term: self.log.last().term,
        }
    }

    /// Counting one RequestVote reply during an election. Returns the new
    /// state, the new vote count, whether to keep counting, and the effects.
    pub open spec fn vote_reply(self, votes: usize, reply: RequestVoteReply) -> (NodeView, usize, bool, Seq<Effect>) {
        if reply.term > self.current_term {
            (self.become_follower(reply.term), votes, false, follower_effects(reply.term))
        } else if self.role == RaftRole::Candidate && reply.term == self.current_term
            && reply.vote_granted {
            let v = (votes + 1) as usize;
            if is_majority(v as int, self.cluster_size()) {
                (self.become_leader(), v, false, Seq::empty())
            } else {
                (self, v, true, Seq::empty())
            }
        } else {
            (self, votes, true, Seq::empty())
        }
    }

    /// The next index the leader uses for `p`.
    pub open spec fn next_for(self, p: u64) -> int {
        if self.next_index.contains_key(p) {
            self.next_index[p] as int
        } else {
            self.log.len() as int
        }
    }

    /// Whether `args` is the AppendEntries request that this leader sends to `p`.
    pub open spec fn is_append_for(self, p: u64, args: AppendEntriesArgs) -> bool {
        let next = self.next_for(p);
        let prev = if next > 0 {
            next - 1
        } else {
            0
        };
        &&& args.term == self.current_term
        &&& args.leader_id == self.id
        &&& args.prev_log_index == prev
        &&& args.prev_log_term == self.log[prev].term
        &&& args.entries@ == (if next < self.log.len() {
            self.log.subrange(next, self.log.len() as int)
        } else {
            Seq::empty()
        })
        &&& args.leader_commit == self.commit_index
    }

    /// Processing the reply of `peer` to an AppendEntries request that had
    /// `prev_index` and `entries_len` entries. Returns the new state, whether
    /// to keep processing replies, and the effects.
    pub open spec fn append_reply(
        self,
        peer: u64,
        prev_index: usize,
        entries_len: usize,
        reply: AppendEntriesReply,
    ) -> (NodeView, bool, Seq<Effect>) {
        if reply.term > self.current_term {
            (self.become_follower(reply.term), false, follower_effects(reply.term))
        } else if self.role == RaftRole::Leader && reply.term == self.current_term {
            if reply.success {
                let m = (prev_index + entries_len) as usize;
                (
                    NodeView {
                        match_index: self.match_index.insert(peer, m),
                        next_index: self.next_index.insert(peer, (m + 1) as usize),
                        ..self
                    },
                    true,
                    Seq::empty(),
                )
            } else if reply.conflict_index > 0 {
                (
                    NodeView {
                        next_index: self.next_index.insert(peer, reply.conflict_index),
                        ..self
                    },
                    true,
                    Seq::empty(),
                )
            } else {
                let cur = if self.next_index.contains_key(peer) {
                    self.next_index[peer]
                } else {
                    1usize
                };
                if cur > 1 {
                    (
                        NodeView {
                            next_index: self.next_index.insert(peer, (cur - 1) as usize),
                            ..self
                        },
                        true,
                        Seq::empty(),
                    )
                } else {
                    (self, true, Seq::empty())
                }
            }
        } else {
            (self, true, Seq::empty())
        }
    }

    /// Whether the entry at `n` was created in the current term and is held by
    /// a majority of the cluster (this node included).
    pub open spec fn quorum_at(self, n: int) -> bool {
        &&& self.log[n].term == self.current_term
        &&& is_majority(match_count(self.peers, self.match_index, n) + 1int, self.cluster_size())
    }

    /// The largest index in `commit_index + 1 .. hi` that `quorum_at`
    /// accepts, or the commit index if there is none.
    pub open spec fn best_commit(self, hi: int) -> int
        decreases hi,
    {
        if hi <= self.commit_index + 1 {
            self.commit_index as int
        } else if self.quorum_at(hi - 1) {
            hi - 1
        } else {
            self.best_commit(hi - 1)
        }
    }

    /// Notifying the pending proposals whose index is at most `c`.
    pub open spec fn notify_pending(self, c: usize) -> (NodeView, Seq<Effect>) {
        let (kept, fired) = split_pending(self.pending, c);
        (NodeView { pending: kept, ..self }, fired)
    }

    /// Advancing the commit index of a leader to the highest index that a
    /// majority holds, then notifying and applying.
    pub open spec fn update_commit(self) -> (NodeView, Seq<Effect>) {
        if self.role != RaftRole::Leader {
            (self, Seq::empty())
        } else {
            let nc = self.best_commit(self.log.len() as int);
            if nc > self.commit_index {
                let s1 = NodeView { commit_index: nc as usize, ..self };
                let (s2, e2) = s1.notify_pending(nc as usize);
                let (s3, e3) = s2.apply_committed();
                (s3, e2 + e3)
            } else {
                (self, Seq::empty())
            }
        }
    }

    /// Proposing `command`: a leader appends it to its log; alone it commits
    /// at once, otherwise the proposal waits for replication.
    pub open spec fn propose(self, command: ClientCommand) -> (NodeView, Option<usize>, Seq<Effect>) {
        if self.role != RaftRole::Leader {
            (self, None, Seq::empty())
        } else {
            let entry = LogEntry { term: self.current_term, command };
            let index = self.log.len() as usize;
            let s1 = NodeView { log: self.log.push(entry), ..self };
            let e1 = seq![Effect::AppendToStorage { entry }];
            if self.peers.len() == 0 {
                let s2 = NodeView { commit_index: index, ..s1 };
                let (s3, e3) = s2.apply_committed();
                (s3, Some(index), e1.push(Effect::NotifyCommitted { index }) + e3)
            } else {
                let s2 = NodeView { pending: s1.pending.push((index, entry)), ..s1 };
                (s2, Some(index), e1)
            }
        }
    }
}

} // verus!
