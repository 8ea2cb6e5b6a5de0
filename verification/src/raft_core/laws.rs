use vstd::prelude::*;

use super::effect::Effect;
use super::model::{
    apply_effects, entry_effects, entry_matches, is_majority, match_count, match_of, merge_entries,
    merge_one, proposal_in_place, split_pending, NodeView,
};
use super::rpc::{AppendEntriesArgs, RequestVoteArgs};
use super::types::{ClientCommand, LogEntry, RaftRole};

verus! {

/// Merging entries whose terms already stand at their positions changes
/// nothing and asks for no storage write.
pub proof fn lemma_merge_matching_is_identity(log: Seq<LogEntry>, index: int, es: Seq<LogEntry>)
    requires
        0 <= index,
        index + es.len() <= log.len(),
        forall|i: int| 0 <= i < es.len() ==> #[trigger] log[index + i].term == es[i].term,
    ensures
        merge_entries(log, index, es) == (log, Seq::<super::effect::Effect>::empty()),
    decreases es.len(),
{
    if es.len() > 0 {
        assert(log[index + 0].term == es[0].term);
        let rest = es.drop_first();
        assert forall|i: int| 0 <= i < rest.len() implies #[trigger] log[(index + 1) + i].term
            == rest[i].term by {
            assert(log[index + (i + 1)].term == es[i + 1].term);
        }
        lemma_merge_matching_is_identity(log, index + 1, rest);
        assert(Seq::<super::effect::Effect>::empty() + Seq::<super::effect::Effect>::empty()
            =~= Seq::<super::effect::Effect>::empty());
    }
}

/// What merging entries leaves in the log: the part before `index` is kept,
/// and every merged entry's term stands at its position.
pub proof fn lemma_merge_places_entries(log: Seq<LogEntry>, index: int, es: Seq<LogEntry>)
    requires
        0 <= index <= log.len(),
    ensures
        ({
            let l = merge_entries(log, index, es).0;
            &&& l.len() >= index + es.len()
            &&& l.take(index) == log.take(index)
            &&& forall|i: int| 0 <= i < es.len() ==> #[trigger] l[index + i].term == es[i].term
        }),
    decreases es.len(),
{
    if es.len() > 0 {
        let (l1, f1) = merge_one(log, index, es[0]);
        assert(l1.take(index) =~= log.take(index));
        assert(l1[index].term == es[0].term);
        let rest = es.drop_first();
        lemma_merge_places_entries(l1, index + 1, rest);
        let l = merge_entries(l1, index + 1, rest).0;
        assert(l.take(index + 1)[index] == l1.take(index + 1)[index]);
        assert(l.take(index) =~= l1.take(index));
        assert forall|i: int| 0 <= i < es.len() implies #[trigger] l[index + i].term == es[i].term by {
            if i == 0 {
                assert(l.take(index + 1)[index] == l[index]);
            } else {
                assert(l[(index + 1) + (i - 1)].term == rest[i - 1].term);
            }
        }
    }
}

/// Log matching: after a successful AppendEntries, the follower's log keeps
/// everything up to `prev_log_index`, the entry there has `prev_log_term`, and
/// each sent entry's term stands at its position after it.
pub proof fn lemma_append_success_matches_leader(s: NodeView, args: AppendEntriesArgs)
    requires
        s.wf(),
    ensures
        ({
            let (s1, r, _e) = s.append_entries(args);
            let prev = args.prev_log_index as int;
            r.success ==> {
                &&& prev < s.log.len()
                &&& s.log[prev].term == args.prev_log_term
                &&& s1.log.len() >= prev + 1 + args.entries@.len()
                &&& s1.log.take(prev + 1) == s.log.take(prev + 1)
                &&& forall|i: int|
                    0 <= i < args.entries@.len() ==> #[trigger] s1.log[prev + 1 + i].term
                        == args.entries@[i].term
            }
        }),
{
    let prev = args.prev_log_index as int;
    if prev < s.log.len() {
        lemma_merge_places_entries(s.log, prev + 1, args.entries@);
    }
}

/// Whether the entries of `args` agree in term with `log` at every position
/// up to `c` that they cover.
pub open spec fn agrees_up_to(log: Seq<LogEntry>, args: AppendEntriesArgs, c: int) -> bool {
    forall|j: int|
        0 <= j < args.entries@.len() && args.prev_log_index + 1 + j <= c ==> #[trigger] args.entries@[j].term
            == log[args.prev_log_index + 1 + j].term
}

/// Merging entries that agree in term with `log` up to `c` keeps the log up
/// to `c`.
pub proof fn lemma_merge_keeps_agreed_prefix(log: Seq<LogEntry>, index: int, es: Seq<LogEntry>, c: int)
    requires
        0 <= index,
        0 <= c < log.len(),
        forall|j: int| 0 <= j < es.len() && index + j <= c ==> #[trigger] es[j].term == log[index + j].term,
    ensures
        merge_entries(log, index, es).0.len() > c,
        merge_entries(log, index, es).0.take(c + 1) == log.take(c + 1),
    decreases es.len(),
{
    if es.len() > 0 {
        let (l1, f1) = merge_one(log, index, es[0]);
        if index <= c {
            assert(es[0].term == log[index + 0].term);
            assert(l1 == log);
        } else {
            assert(l1.take(c + 1) =~= log.take(c + 1));
        }
        let rest = es.drop_first();
        assert forall|j: int| 0 <= j < rest.len() && (index + 1) + j <= c implies #[trigger] rest[j].term
            == l1[(index + 1) + j].term by {
            assert(es[j + 1].term == log[index + (j + 1)].term);
        }
        lemma_merge_keeps_agreed_prefix(l1, index + 1, rest, c);
        let l2 = merge_entries(l1, index + 1, rest).0;
        assert(l2.take(c + 1) =~= l1.take(c + 1));
        assert(l1.take(c + 1) =~= log.take(c + 1));
    }
}

/// The committed prefix survives: an AppendEntries whose entries agree in
/// term with the follower's log up to its commit index keeps that prefix of
/// the log, and the commit index neither goes back nor leaves the log.
pub proof fn lemma_committed_prefix_survives(s: NodeView, args: AppendEntriesArgs)
    requires
        s.wf(),
        s.commit_index < s.log.len(),
        agrees_up_to(s.log, args, s.commit_index as int),
    ensures
        ({
            let s1 = s.append_entries(args).0;
            &&& s1.log.len() > s.commit_index
            &&& s1.log.take(s.commit_index + 1) == s.log.take(s.commit_index + 1)
            &&& s.commit_index <= s1.commit_index < s1.log.len()
            &&& s1.current_term >= s.current_term
        }),
{
    let prev = args.prev_log_index as int;
    let c = s.commit_index as int;
    let es = args.entries@;
    if args.term >= s.current_term && prev < s.log.len() && s.log[prev].term == args.prev_log_term {
        assert forall|j: int| 0 <= j < es.len() && (prev + 1) + j <= c implies #[trigger] es[j].term
            == s.log[(prev + 1) + j].term by {
            assert(es[j].term == s.log[args.prev_log_index + 1 + j].term);
        }
        lemma_merge_keeps_agreed_prefix(s.log, prev + 1, es, c);
    }
}

/// Retries are harmless: delivering the same AppendEntries request a second
/// time leaves the state and the reply exactly as the first delivery did.
pub proof fn lemma_append_entries_idempotent(s: NodeView, args: AppendEntriesArgs)
    requires
        s.wf(),
    ensures
        ({
            let (s1, r1, _e1) = s.append_entries(args);
            let (s2, r2, _e2) = s1.append_entries(args);
            s2 == s1 && r2 == r1
        }),
{
    let (s1, r1, e1) = s.append_entries(args);
    let prev = args.prev_log_index as int;
    let es = args.entries@;
    if args.term >= s.current_term && prev < s.log.len() && s.log[prev].term == args.prev_log_term {
        lemma_merge_places_entries(s.log, prev + 1, es);
        let log3 = merge_entries(s.log, prev + 1, es).0;
        assert(log3.take(prev + 1)[prev] == s.log.take(prev + 1)[prev]);
        assert forall|i: int| 0 <= i < es.len() implies #[trigger] log3[(prev + 1) + i].term
            == es[i].term by {
            assert(log3[prev + 1 + i].term == es[i].term);
        }
        lemma_merge_matching_is_identity(log3, prev + 1, es);
        super::model::lemma_drop_cut_keeps_in_place(s.pending, log3);
        super::model::lemma_drop_cut_identity(s1.pending, log3);
        let (s2, r2, e2) = s1.append_entries(args);
        assert(s2 =~= s1);
    }
}

/// A node grants at most one vote per term: after granting a vote, a request
/// from another candidate in the same term is refused.
pub proof fn lemma_one_vote_per_term(s: NodeView, a1: RequestVoteArgs, a2: RequestVoteArgs)
    requires
        s.wf(),
        a1.term == a2.term,
        a1.candidate_id != a2.candidate_id,
    ensures
        ({
            let (s1, r1, _e1) = s.request_vote(a1);
            let (_s2, r2, _e2) = s1.request_vote(a2);
            !(r1.vote_granted && r2.vote_granted)
        }),
{
}

/// Messages from an older term change nothing: a stale AppendEntries is
/// refused with the node's own term, a stale RequestVote gets no vote.
pub proof fn lemma_stale_messages_are_refused(s: NodeView, ae: AppendEntriesArgs, rv: RequestVoteArgs)
    requires
        s.wf(),
        ae.term < s.current_term,
        rv.term < s.current_term,
    ensures
        ({
            let (s1, r1, e1) = s.append_entries(ae);
            &&& s1 == s
            &&& !r1.success
            &&& r1.term == s.current_term
            &&& e1.len() == 0
        }),
        ({
            let (s2, r2, e2) = s.request_vote(rv);
            &&& s2 == s
            &&& !r2.vote_granted
            &&& r2.term == s.current_term
            &&& e2.len() == 0
        }),
{
}

/// Terms never go backwards, whatever the event; starting an election moves
/// to the next term.
pub proof fn lemma_terms_never_decrease(
    s: NodeView,
    rv: RequestVoteArgs,
    ae: AppendEntriesArgs,
    votes: usize,
    vr: super::rpc::RequestVoteReply,
    peer: u64,
    prev_index: usize,
    entries_len: usize,
    ar: super::rpc::AppendEntriesReply,
    command: ClientCommand,
)
    requires
        s.wf(),
    ensures
        s.request_vote(rv).0.current_term >= s.current_term,
        s.append_entries(ae).0.current_term >= s.current_term,
        s.current_term < u64::MAX ==> s.start_election().0.current_term == s.current_term + 1,
        s.vote_reply(votes, vr).0.current_term >= s.current_term,
        s.append_reply(peer, prev_index, entries_len, ar).0.current_term >= s.current_term,
        s.update_commit().0.current_term == s.current_term,
        s.propose(command).0.current_term == s.current_term,
{
}

/// `best_commit` finds the highest index below `hi` that a quorum holds: the
/// index it returns, when above the commit index, is held by a quorum, and
/// no index between it and `hi` is.
pub proof fn lemma_best_commit(s: NodeView, hi: int)
    ensures
        s.best_commit(hi) >= s.commit_index,
        s.best_commit(hi) > s.commit_index ==> s.best_commit(hi) < hi && s.quorum_at(s.best_commit(hi)),
        forall|n: int| s.best_commit(hi) < n < hi && n > s.commit_index ==> !#[trigger] s.quorum_at(n),
    decreases hi,
{
    if hi > s.commit_index + 1 {
        lemma_best_commit(s, hi - 1);
    }
}

/// Quorum writes: a leader only advances its commit index to an entry of its
/// own term that a majority of the cluster holds, and to the highest such
/// entry; a node that does not lead never advances it this way.
pub proof fn lemma_commit_requires_majority(s: NodeView)
    requires
        s.wf(),
    ensures
        ({
            let s1 = s.update_commit().0;
            &&& s1.commit_index >= s.commit_index
            &&& s1.commit_index > s.commit_index ==> {
                &&& s.role == RaftRole::Leader
                &&& s1.commit_index < s.log.len()
                &&& s.log[s1.commit_index as int].term == s.current_term
                &&& is_majority(
                    match_count(s.peers, s.match_index, s1.commit_index as int) + 1int,
                    s.cluster_size(),
                )
            }
            &&& s.role == RaftRole::Leader ==> forall|n: int|
                s1.commit_index < n < s.log.len() ==> !#[trigger] s.quorum_at(n)
        }),
{
    lemma_best_commit(s, s.log.len() as int);
}

/// No peer holds an entry at or past `n`: the count of peers holding `n` is 0.
pub proof fn lemma_no_match_count_zero(peers: Seq<u64>, mi: Map<u64, usize>, n: int)
    requires
        forall|i: int| 0 <= i < peers.len() ==> match_of(mi, #[trigger] peers[i]) < n,
    ensures
        match_count(peers, mi, n) == 0,
    decreases peers.len(),
{
    if peers.len() > 0 {
        let d = peers.drop_last();
        assert forall|i: int| 0 <= i < d.len() implies match_of(mi, #[trigger] d[i]) < n by {
            assert(d[i] == peers[i]);
        }
        lemma_no_match_count_zero(d, mi, n);
        assert(match_of(mi, peers[peers.len() - 1]) < n);
    }
}

/// An isolated leader cannot commit: when no peer has acknowledged any entry
/// past the commit index, a leader with at least one peer keeps its commit
/// index, however many entries it has appended.
pub proof fn lemma_isolated_leader_cannot_commit(s: NodeView)
    requires
        s.wf(),
        s.peers.len() >= 1,
        forall|i: int| 0 <= i < s.peers.len() ==> match_of(s.match_index, #[trigger] s.peers[i]) <= s.commit_index,
    ensures
        s.update_commit().0 == s,
        s.update_commit().1.len() == 0,
{
    lemma_best_commit(s, s.log.len() as int);
    let b = s.best_commit(s.log.len() as int);
    if b > s.commit_index {
        lemma_no_match_count_zero(s.peers, s.match_index, b);
    }
}

/// A node alone in its cluster wins the election it starts.
pub proof fn lemma_single_node_elects_itself(s: NodeView)
    requires
        s.wf(),
        s.peers.len() == 0,
        s.current_term < u64::MAX,
    ensures
        s.start_election().0.role == RaftRole::Leader,
        s.start_election().0.current_term == s.current_term + 1,
{
}

/// A leader only appends: a proposal keeps its log and adds one entry of the
/// current term at the end; a node that does not lead refuses it unchanged.
pub proof fn lemma_leader_appends_only(s: NodeView, command: ClientCommand)
    requires
        s.wf(),
    ensures
        s.role == RaftRole::Leader ==> {
            let (s1, r, _e) = s.propose(command);
            &&& s1.log == s.log.push(LogEntry { term: s.current_term, command })
            &&& r == Some(s.log.len() as usize)
        },
        s.role != RaftRole::Leader ==> s.propose(command) == (s, None::<usize>, Seq::<super::effect::Effect>::empty()),
{
}

/// Whether effect `e`, if it tells a proposal at `index` that it committed,
/// names a proposal of `ps` whose index is at most `c`.
pub open spec fn notifies_pending_at_most(e: Effect, ps: Seq<(usize, LogEntry)>, c: int) -> bool {
    e matches Effect::NotifyCommitted { index } ==> index <= c && exists|j: int|
        0 <= j < ps.len() && #[trigger] ps[j].0 == index
}

/// Splitting the pending proposals at `c` notifies only proposals of `ps` at
/// indices up to `c`.
pub proof fn lemma_split_pending_notifies_committed(ps: Seq<(usize, LogEntry)>, c: usize)
    ensures
        forall|i: int|
            0 <= i < split_pending(ps, c).1.len() ==> (#[trigger] split_pending(ps, c).1[i]) is NotifyCommitted
                && notifies_pending_at_most(split_pending(ps, c).1[i], ps, c as int),
    decreases ps.len(),
{
    if ps.len() > 0 {
        let d = ps.drop_last();
        lemma_split_pending_notifies_committed(d, c);
        let (kept, fired) = split_pending(d, c);
        let f = split_pending(ps, c).1;
        assert forall|i: int| 0 <= i < f.len() implies (#[trigger] f[i]) is NotifyCommitted
            && notifies_pending_at_most(f[i], ps, c as int) by {
            if i < fired.len() {
                assert(f[i] == fired[i]);
                if let Effect::NotifyCommitted { index } = f[i] {
                    let j = choose|j: int| 0 <= j < d.len() && #[trigger] d[j].0 == index;
                    assert(ps[j] == d[j]);
                }
            } else {
                assert(ps[ps.len() - 1].0 == ps.last().0);
            }
        }
    }
}

/// Applying entries produces only `Apply` effects.
pub proof fn lemma_apply_effects_only_apply(log: Seq<LogEntry>, from: int, to: int)
    ensures
        forall|i: int| 0 <= i < apply_effects(log, from, to).len() ==> (#[trigger] apply_effects(log, from, to)[i]) is Apply,
    decreases to - from,
{
    if to > from {
        lemma_apply_effects_only_apply(log, from, to - 1);
        let a = apply_effects(log, from, to - 1);
        let b = entry_effects(log[to]);
        assert forall|i: int| 0 <= i < (a + b).len() implies (#[trigger] (a + b)[i]) is Apply by {
            if i >= a.len() {
                assert((a + b)[i] == b[i - a.len()]);
            }
        }
    }
}

/// A peer that holds index `b` holds every index up to it: the count of
/// peers holding `a <= b` is at least the count holding `b`.
pub proof fn lemma_match_count_monotone(peers: Seq<u64>, mi: Map<u64, usize>, a: int, b: int)
    requires
        a <= b,
    ensures
        match_count(peers, mi, a) >= match_count(peers, mi, b),
    decreases peers.len(),
{
    if peers.len() > 0 {
        lemma_match_count_monotone(peers.drop_last(), mi, a, b);
    }
}

/// Whether `e`, if it tells a proposal at `index` that it committed, is owed:
/// `index` is committed in `s1`, the entry proposed there (a proposal pending
/// in `s`) stands at `index` in `s1`'s log, and a majority of the cluster
/// holds `index`.
pub open spec fn acknowledgement_owed(e: Effect, s: NodeView, s1: NodeView) -> bool {
    e matches Effect::NotifyCommitted { index } ==> {
        &&& index <= s1.commit_index
        &&& exists|j: int|
            0 <= j < s.pending.len() && #[trigger] s.pending[j].0 == index && entry_matches(
                s1.log[index as int],
                s.pending[j].1,
            )
        &&& is_majority(match_count(s.peers, s.match_index, index as int) + 1int, s.cluster_size())
    }
}

/// Quorum-acknowledged writes: every success notice that advancing the commit
/// index asks for is owed: its index is committed, the very entry that was
/// proposed there is still at that index, and a majority of the cluster holds
/// it. A lone leader's proposal is acknowledged at once, for the entry it
/// just appended at that index.
pub proof fn lemma_notified_only_when_committed(s: NodeView, command: ClientCommand)
    requires
        s.wf(),
    ensures
        ({
            let (s1, e) = s.update_commit();
            forall|i: int| 0 <= i < e.len() ==> acknowledgement_owed(#[trigger] e[i], s, s1)
        }),
        ({
            let (s1, _r, e) = s.propose(command);
            forall|i: int|
                0 <= i < e.len() ==> (#[trigger] e[i] matches Effect::NotifyCommitted { index } ==> {
                    &&& s.peers.len() == 0
                    &&& index == s.log.len()
                    &&& index == s1.commit_index
                    &&& s1.log[index as int] == (LogEntry { term: s.current_term, command })
                })
        }),
{
    let (s1, e) = s.update_commit();
    if s.role == RaftRole::Leader {
        let nc = s.best_commit(s.log.len() as int);
        lemma_best_commit(s, s.log.len() as int);
        if nc > s.commit_index {
            let t1 = NodeView { commit_index: nc as usize, ..s };
            let (t2, e2) = t1.notify_pending(nc as usize);
            let (t3, e3) = t2.apply_committed();
            lemma_split_pending_notifies_committed(s.pending, nc as usize);
            lemma_apply_effects_only_apply(t2.log, t2.last_applied as int, t2.commit_index as int);
            assert forall|i: int| 0 <= i < e.len() implies acknowledgement_owed(#[trigger] e[i], s, s1) by {
                if i < e2.len() {
                    assert(e[i] == e2[i]);
                    if let Effect::NotifyCommitted { index } = e[i] {
                        let j = choose|j: int| 0 <= j < s.pending.len() && #[trigger] s.pending[j].0 == index;
                        assert(proposal_in_place(s.log, s.pending[j]));
                        lemma_match_count_monotone(s.peers, s.match_index, index as int, nc);
                    }
                } else {
                    assert(e[i] == e3[i - e2.len()]);
                }
            }
        }
    }
    let (p1, _r, pe) = s.propose(command);
    if s.role == RaftRole::Leader && s.peers.len() == 0 {
        let index = s.log.len() as usize;
        let entry = LogEntry { term: s.current_term, command };
        let q1 = NodeView { log: s.log.push(entry), ..s };
        let q2 = NodeView { commit_index: index, ..q1 };
        let (q3, e3) = q2.apply_committed();
        let head = seq![Effect::AppendToStorage { entry }].push(Effect::NotifyCommitted { index });
        lemma_apply_effects_only_apply(q2.log, q2.last_applied as int, q2.commit_index as int);
        assert forall|i: int| 0 <= i < pe.len() implies (#[trigger] pe[i] matches Effect::NotifyCommitted { index: x } ==> {
            &&& s.peers.len() == 0
            &&& x == s.log.len()
            &&& x == p1.commit_index
            &&& p1.log[x as int] == (LogEntry { term: s.current_term, command })
        }) by {
            if i < head.len() {
                assert(pe[i] == head[i]);
            } else {
                assert(pe[i] == e3[i - head.len()]);
            }
        }
    }
}

/// How many of the ballots went to candidate `c`.
pub open spec fn votes_for(ballots: Seq<Option<u64>>, c: u64) -> nat
    decreases ballots.len(),
{
    if ballots.len() == 0 {
        0
    } else {
        votes_for(ballots.drop_last(), c) + if ballots.last() == Some(c) {
            1nat
        } else {
            0nat
        }
    }
}

/// Two different candidates together hold at most one ballot per node.
pub proof fn lemma_votes_for_two_bounded(ballots: Seq<Option<u64>>, c1: u64, c2: u64)
    requires
        c1 != c2,
    ensures
        votes_for(ballots, c1) + votes_for(ballots, c2) <= ballots.len(),
    decreases ballots.len(),
{
    if ballots.len() > 0 {
        lemma_votes_for_two_bounded(ballots.drop_last(), c1, c2);
    }
}

/// Election safety: when every node of a cluster casts at most one ballot in
/// a term (`ballots[i]` is the vote node `i` granted, which
/// `lemma_one_vote_per_term` makes unique), two different candidates cannot
/// both gather a majority, so a term has at most one leader.
pub proof fn lemma_one_leader_per_term(ballots: Seq<Option<u64>>, c1: u64, c2: u64)
    requires
        c1 != c2,
    ensures
        !(is_majority(votes_for(ballots, c1) as int, ballots.len() as int) && is_majority(
            votes_for(ballots, c2) as int,
            ballots.len() as int,
        )),
{
    lemma_votes_for_two_bounded(ballots, c1, c2);
}

/// Merging entries at the end of the log appends them all.
pub proof fn lemma_merge_at_end_appends(log: Seq<LogEntry>, es: Seq<LogEntry>)
    ensures
        merge_entries(log, log.len() as int, es).0.len() == log.len() + es.len(),
    decreases es.len(),
{
    if es.len() > 0 {
        let l1 = log.push(es[0]);
        assert(merge_one(log, log.len() as int, es[0]).0 == l1);
        lemma_merge_at_end_appends(l1, es.drop_first());
    }
}

/// Whether some entry of `es`, placed from `index` on, differs in term from
/// an entry that `log` already holds at that position.
pub open spec fn has_conflict(log: Seq<LogEntry>, index: int, es: Seq<LogEntry>) -> bool {
    exists|j: int| 0 <= j < es.len() && index + j < log.len() && #[trigger] log[index + j].term != es[j].term
}

/// Merging entries that conflict with the log leaves the log ending at the
/// last merged entry: the old suffix past the conflict is gone.
pub proof fn lemma_merge_conflict_cuts(log: Seq<LogEntry>, index: int, es: Seq<LogEntry>)
    requires
        0 <= index <= log.len(),
        has_conflict(log, index, es),
    ensures
        merge_entries(log, index, es).0.len() == index + es.len(),
    decreases es.len(),
{
    let j0 = choose|j: int| 0 <= j < es.len() && index + j < log.len() && #[trigger] log[index + j].term != es[j].term;
    assert(es.len() > 0);
    let rest = es.drop_first();
    if index < log.len() && log[index].term != es[0].term {
        let l1 = log.take(index).push(es[0]);
        assert(merge_one(log, index, es[0]).0 == l1);
        assert(l1.len() == index + 1);
        lemma_merge_at_end_appends(l1, rest);
    } else {
        assert(index < log.len());
        assert(merge_one(log, index, es[0]).0 == log);
        assert(j0 != 0);
        assert(log[(index + 1) + (j0 - 1)].term != rest[j0 - 1].term);
        assert(has_conflict(log, index + 1, rest));
        lemma_merge_conflict_cuts(log, index + 1, rest);
    }
}

/// AppendEntries cuts a conflicting suffix: when, after a successful
/// AppendEntries, some sent entry differed in term from the entry the
/// follower held at its position, the follower's log ends exactly at the
/// last sent entry.
pub proof fn lemma_append_conflict_cuts_suffix(s: NodeView, args: AppendEntriesArgs)
    requires
        s.wf(),
    ensures
        ({
            let (s1, r, _e) = s.append_entries(args);
            let prev = args.prev_log_index as int;
            let es = args.entries@;
            r.success && (exists|j: int|
                0 <= j < es.len() && prev + 1 + j < s.log.len() && #[trigger] s.log[prev + 1 + j].term
                    != es[j].term) ==> s1.log.len() == prev + 1 + es.len()
        }),
{
    let (s1, r, _e) = s.append_entries(args);
    let prev = args.prev_log_index as int;
    let es = args.entries@;
    if r.success && (exists|j: int|
        0 <= j < es.len() && prev + 1 + j < s.log.len() && #[trigger] s.log[prev + 1 + j].term != es[j].term) {
        let j = choose|j: int|
            0 <= j < es.len() && prev + 1 + j < s.log.len() && #[trigger] s.log[prev + 1 + j].term != es[j].term;
        assert(s.log[(prev + 1) + j].term != es[j].term);
        assert(has_conflict(s.log, prev + 1, es));
        lemma_merge_conflict_cuts(s.log, prev + 1, es);
    }
}

/// Votes go only to up-to-date candidates: a vote is granted exactly when
/// the request's term is current (after stepping up to it), the node has not
/// voted for another candidate in that term, and the candidate's last entry
/// is later than the node's: a higher last term, or the same last term and
/// a last index at least the node's.
pub proof fn lemma_vote_needs_up_to_date_log(s: NodeView, args: RequestVoteArgs)
    requires
        s.wf(),
    ensures
        s.request_vote(args).1.vote_granted <==> {
            &&& args.term >= s.current_term
            &&& (args.term > s.current_term || s.voted_for is None || s.voted_for == Some(args.candidate_id))
            &&& (args.last_log_term > s.log[s.log.len() - 1].term || (args.last_log_term == s.log[s.log.len()
                - 1].term && args.last_log_index >= s.log.len() - 1))
        },
        s.request_vote(args).0.log == s.log,
{
}

/// Election by strict majority: starting an election makes the node leader
/// at once exactly when it has no peers (its own vote is more than half of a
/// cluster of one); with a peer it is a candidate in the next term. A
/// counted vote makes it leader exactly when the votes, its own included,
/// are more than half of the cluster.
pub proof fn lemma_leader_needs_strict_majority(s: NodeView, votes: usize, reply: super::rpc::RequestVoteReply)
    requires
        s.wf(),
        s.current_term < u64::MAX,
        votes < usize::MAX,
    ensures
        s.start_election().0.role == RaftRole::Leader <==> s.peers.len() == 0,
        s.peers.len() > 0 ==> s.start_election().0.role == RaftRole::Candidate,
        s.role == RaftRole::Candidate && reply.term == s.current_term && reply.vote_granted ==> (s.vote_reply(
            votes,
            reply,
        ).0.role == RaftRole::Leader <==> 2 * (votes + 1) > s.peers.len() + 1),
        s.role == RaftRole::Candidate && !reply.vote_granted && reply.term <= s.current_term ==> s.vote_reply(
            votes,
            reply,
        ).0.role == RaftRole::Candidate,
{
}

/// A leader's AppendEntries to a peer starts at that peer's next index: the
/// entry before the sent ones is the one at `next_index[p] - 1`, and the sent
/// entries are the log from `next_index[p]` to its end. A peer without a next
/// index gets a heartbeat after the last entry.
pub proof fn lemma_append_starts_at_next_index(s: NodeView, p: u64, args: AppendEntriesArgs)
    requires
        s.wf(),
        s.role == RaftRole::Leader,
        s.peers.contains(p),
        s.is_append_for(p, args),
    ensures
        s.next_index.contains_key(p) ==> {
            &&& args.prev_log_index + 1 == s.next_index[p]
            &&& args.prev_log_term == s.log[s.next_index[p] - 1].term
            &&& args.entries@ == s.log.subrange(s.next_index[p] as int, s.log.len() as int)
        },
        !s.next_index.contains_key(p) ==> {
            &&& args.prev_log_index + 1 == s.log.len()
            &&& args.entries@.len() == 0
        },
        args.term == s.current_term && args.leader_id == s.id && args.leader_commit == s.commit_index,
{
    if s.next_index.contains_key(p) {
        assert(1 <= s.next_index[p] <= s.log.len());
        if s.next_index[p] >= s.log.len() {
            assert(s.log.subrange(s.next_index[p] as int, s.log.len() as int) =~= Seq::<LogEntry>::empty());
        }
    }
}

} // verus!
