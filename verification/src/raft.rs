use std::time::Instant;
use vstd::prelude::*;

use crate::chance::{random_bool, random_in_range};
use crate::clock::{checked_add, duration_of_millis, instant_checked_add, instant_is_later, is_later, millis, now};
use crate::command::{parse_set, parse_set_command};
use crate::kv_map::{lookup, KvMap};

verus! {

/// The roles of the single-process demo node.
#[derive(Debug, Clone, Copy, PartialEq, Eq, Structural)]
pub enum RaftRole {
    Leader,
    Follower,
    Candidate,
}

/// A log entry of the demo node: its term and a textual command.
#[derive(Debug, Clone)]
pub struct LogEntry {
    pub term: u64,
    pub command: String,
}

/// A single-process Raft node used by the demo server. Its elections are
/// simulated (each peer grants its vote at random) and a leader commits its
/// proposals at once, applying `set <key> <value>` commands to its key-value
/// state machine.
pub struct RaftNode {
    pub id: u64,
    pub role: RaftRole,
    pub current_term: u64,
    pub voted_for: Option<u64>,
    pub log: Vec<LogEntry>,
    pub commit_index: usize,
    pub last_applied: usize,
    pub peers: Vec<u64>,
    pub election_deadline: Instant,
    last_heartbeat: Instant,
    state_machine: KvMap,
}

/// The state of a demo node, without its timers.
pub struct NodeState {
    pub id: u64,
    pub role: RaftRole,
    pub current_term: u64,
    pub voted_for: Option<u64>,
    pub log: Seq<LogEntry>,
    pub commit_index: usize,
    pub last_applied: usize,
    pub peers: Seq<u64>,
    pub state: Map<Seq<char>, Seq<char>>,
}

impl View for RaftNode {
    type V = NodeState;

    closed spec fn view(&self) -> NodeState {
        NodeState {
            id: self.id,
            role: self.role,
            current_term: self.current_term,
            voted_for: self.voted_for,
            log: self.log@,
            commit_index: self.commit_index,
            last_applied: self.last_applied,
            peers: self.peers@,
            state: self.state_machine@,
        }
    }
}

/// The state machine after applying the entries at indices `from .. to`: each
/// `set <key> <value>` command stores its value; other commands change
/// nothing.
pub open spec fn applied(m: Map<Seq<char>, Seq<char>>, log: Seq<LogEntry>, from: int, to: int) -> Map<Seq<char>, Seq<char>>
    decreases to - from,
{
    if to <= from {
        m
    } else {
        let m1 = applied(m, log, from, to - 1);
        match parse_set(log[to - 1].command@) {
            Some((k, v)) => m1.insert(k, v),
            None => m1,
        }
    }
}

/// How many of the votes were granted.
pub open spec fn count_granted(votes: Seq<bool>) -> nat
    decreases votes.len(),
{
    if votes.len() == 0 {
        0
    } else {
        count_granted(votes.drop_last()) + if votes.last() {
            1nat
        } else {
            0nat
        }
    }
}

impl NodeState {
    pub open spec fn initial(id: u64, peers: Seq<u64>) -> NodeState {
        NodeState {
            id,
            role: RaftRole::Follower,
            current_term: 0,
            voted_for: None,
            log: Seq::empty(),
            commit_index: 0,
            last_applied: 0,
            peers,
            state: Map::empty(),
        }
    }

    /// The role an election ends in when the peers answered `votes`: leader
    /// with a majority (its own vote included), follower otherwise.
    pub open spec fn election_result(self, votes: Seq<bool>) -> RaftRole {
        if 1 + count_granted(votes) > (self.peers.len() + 1) / 2 {
            RaftRole::Leader
        } else {
            RaftRole::Follower
        }
    }

    /// The state after an election in the next term in which the peers
    /// answered `votes`.
    pub open spec fn after_election(self, votes: Seq<bool>) -> NodeState {
        NodeState {
            current_term: (self.current_term + 1) as u64,
            voted_for: Some(self.id),
            role: self.election_result(votes),
            ..self
        }
    }

    /// The state after a proposal of `command`: a leader appends and commits
    /// it and applies it; any other node ignores it.
    pub open spec fn after_propose(self, command: String) -> NodeState {
        if self.role == RaftRole::Leader {
            let log = self.log.push(LogEntry { term: self.current_term, command });
            NodeState {
                log,
                commit_index: log.len() as usize,
                last_applied: log.len() as usize,
                state: applied(self.state, log, self.last_applied as int, log.len() as int),
                ..self
            }
        } else {
            self
        }
    }
}

/// Read after write on the demo node: once a leader whose entries are all
/// applied accepts a `set <key> <value>` proposal, a read of `key` gives
/// `value`.
pub proof fn lemma_proposed_set_is_readable(s: NodeState, command: String, key: Seq<char>, value: Seq<char>)
    requires
        s.role == RaftRole::Leader,
        s.last_applied == s.log.len(),
        parse_set(command@) == Some((key, value)),
    ensures
        lookup(s.after_propose(command).state, key) == Some(value),
{
    let log = s.log.push(LogEntry { term: s.current_term, command });
    assert(log[log.len() - 1].command == command);
}

/// Whether `d` is the deadline that `start + ms` milliseconds gives: that
/// instant, or `start` itself when it cannot be represented (the timer then
/// runs out at once).
pub open spec fn deadline_from(start: Instant, ms: u64, d: Instant) -> bool {
    match instant_checked_add(start, duration_of_millis(ms)) {
        Some(t) => d == t,
        None => d == start,
    }
}

/// Whether `d` is an election deadline drawn as the timer draws it: 150 to
/// 300 ms (exclusive) after some reading of the clock.
pub open spec fn is_fresh_deadline(d: Instant) -> bool {
    exists|start: Instant, ms: u64| 150 <= ms < 300 && #[trigger] deadline_from(start, ms, d)
}

/// Draws a new election deadline: 150 to 300 ms after now.
fn draw_deadline() -> (d: Instant)
    ensures
        is_fresh_deadline(d),
{
    let timeout = random_in_range(150, 300);
    let start = now();
    let d = match checked_add(start, millis(timeout)) {
        Some(t) => t,
        None => start,
    };
    proof {
        assert(150 <= timeout < 300 && deadline_from(start, timeout, d));
    }
    d
}

/// A demo election is won by a strict majority: the node leads exactly when
/// its own vote and the granted ones are more than half of the cluster, and
/// otherwise ends as follower (so half of an even cluster is not enough).
pub proof fn lemma_demo_leader_needs_strict_majority(s: NodeState, votes: Seq<bool>)
    ensures
        s.election_result(votes) == RaftRole::Leader <==> 2 * (1 + count_granted(votes)) > s.peers.len() + 1,
        s.election_result(votes) != RaftRole::Leader ==> s.election_result(votes) == RaftRole::Follower,
{
}

impl RaftNode {
    /// The instant at which the election timer runs out.
    pub closed spec fn deadline(&self) -> Instant {
        self.election_deadline
    }

    /// Every entry is committed and applied.
    pub closed spec fn wf(&self) -> bool {
        &&& self.state_machine.wf()
        &&& self.last_applied == self.commit_index
        &&& self.commit_index == self.log.len()
    }

    /// A follower in term 0 with an empty log, whose election timer runs out
    /// 150 to 300 ms from now.
    pub fn new(id: u64, peers: Vec<u64>) -> (r: RaftNode)
        ensures
            r.wf(),
            r@ == NodeState::initial(id, peers@),
            is_fresh_deadline(r.deadline()),
    {
        let deadline = draw_deadline();
        RaftNode {
            id,
            role: RaftRole::Follower,
            current_term: 0,
            voted_for: None,
            log: Vec::new(),
            commit_index: 0,
            last_applied: 0,
            peers,
            election_deadline: deadline,
            last_heartbeat: now(),
            state_machine: KvMap::new(),
        }
    }

    /// One step of the node's clock: a leader sends heartbeats; another node
    /// whose election deadline has passed starts an election.
    pub fn tick(&mut self)
        requires
            old(self).wf(),
            old(self)@.current_term < u64::MAX,
        ensures
            final(self).wf(),
            old(self)@.role == RaftRole::Leader ==> final(self)@ == old(self)@ && is_fresh_deadline(
                final(self).deadline(),
            ),
            old(self)@.role != RaftRole::Leader ==> {
                ||| exists|t: Instant|
                    !instant_is_later(t, old(self).deadline()) && *final(self) == *old(self)
                ||| (exists|t: Instant| instant_is_later(t, old(self).deadline())) && (exists|
                    votes: Seq<bool>,
                |
                    votes.len() == old(self)@.peers.len() && final(self)@ == old(self)@.after_election(
                        votes,
                    )) && is_fresh_deadline(final(self).deadline())
            },
    {
        if self.role == RaftRole::Leader {
            self.send_heartbeats();
        } else {
            let t = now();
            if is_later(&t, &self.election_deadline) {
                self.start_election();
            }
            proof {
                if instant_is_later(t, old(self).election_deadline) {
                    assert(instant_is_later(t, old(self).deadline()));
                    assert(exists|t: Instant| instant_is_later(t, old(self).deadline()));
                } else {
                    assert(!instant_is_later(t, old(self).deadline()) && *self == *old(self));
                }
            }
        }
    }

    /// Moves the election deadline to 150 to 300 ms from now.
    fn reset_election_timeout(&mut self)
        ensures
            final(self)@ == old(self)@,
            final(self).wf() == old(self).wf(),
            is_fresh_deadline(final(self).deadline()),
            final(self).last_heartbeat == old(self).last_heartbeat,
    {
        self.election_deadline = draw_deadline();
    }

    /// Starts an election in the next term, voting for itself; each peer's
    /// vote is simulated at random. The node ends as leader with a majority,
    /// as follower otherwise.
    pub fn start_election(&mut self)
        requires
            old(self).wf(),
            old(self)@.current_term < u64::MAX,
        ensures
            final(self).wf(),
            exists|votes: Seq<bool>|
                votes.len() == old(self)@.peers.len() && final(self)@ == old(self)@.after_election(votes),
            is_fresh_deadline(final(self).deadline()),
    {
        self.role = RaftRole::Candidate;
        self.current_term = self.current_term + 1;
        self.voted_for = Some(self.id);
        let mut votes: Vec<bool> = Vec::new();
        let mut i: usize = 0;
        while i < self.peers.len()
            invariant
                0 <= i <= self.peers.len(),
                votes@.len() == i,
            decreases self.peers.len() - i,
        {
            votes.push(random_bool());
            i = i + 1;
        }
        self.finish_election(&votes);
        proof {
            assert(self@ == old(self)@.after_election(votes@));
        }
    }

    /// Ends an election in which the peers answered `votes`: leader (sending
    /// heartbeats at once) when its own vote and the granted ones form a
    /// majority of the cluster, follower otherwise; the election deadline is
    /// then moved.
    pub fn finish_election(&mut self, votes: &Vec<bool>)
        requires
            old(self).wf(),
            votes@.len() == old(self)@.peers.len(),
        ensures
            final(self).wf(),
            final(self)@ == (NodeState { role: old(self)@.election_result(votes@), ..old(self)@ }),
            is_fresh_deadline(final(self).deadline()),
    {
        let mut granted: usize = 0;
        let mut i: usize = 0;
        while i < votes.len()
            invariant
                0 <= i <= votes@.len(),
                granted == count_granted(votes@.take(i as int)),
                granted <= i,
            decreases votes@.len() - i,
        {
            proof {
                assert(votes@.take(i + 1).drop_last() =~= votes@.take(i as int));
            }
            if votes[i] {
                granted = granted + 1;
            }
            i = i + 1;
        }
        proof {
            assert(votes@.take(i as int) =~= votes@);
        }
        if granted >= self.peers.len() / 2 + self.peers.len() % 2 {
            self.role = RaftRole::Leader;
            self.send_heartbeats();
        } else {
            self.role = RaftRole::Follower;
        }
        self.reset_election_timeout();
    }

    /// Records a heartbeat now and moves the election deadline 150 to 300 ms
    /// past a fresh reading of the clock.
    pub fn send_heartbeats(&mut self)
        ensures
            final(self)@ == old(self)@,
            final(self).wf() == old(self).wf(),
            is_fresh_deadline(final(self).deadline()),
    {
        self.last_heartbeat = now();
        self.reset_election_timeout();
    }

    /// As leader, appends `command` to the log, commits it and applies it;
    /// any other node ignores the proposal.
    pub fn propose(&mut self, command: String)
        requires
            old(self).wf(),
        ensures
            final(self).wf(),
            final(self)@ == old(self)@.after_propose(command),
    {
        if self.role == RaftRole::Leader {
            self.log.push(LogEntry { term: self.current_term, command });
            self.commit_index = self.log.len();
            self.apply_log();
        }
    }

    /// Applies the committed entries that were not applied yet.
    fn apply_log(&mut self)
        requires
            old(self).state_machine.wf(),
            old(self).last_applied <= old(self).commit_index <= old(self).log.len(),
        ensures
            final(self).state_machine.wf(),
            final(self).last_applied == old(self).commit_index,
            final(self)@ == (NodeState {
                last_applied: old(self).commit_index,
                state: applied(
                    old(self)@.state,
                    old(self)@.log,
                    old(self).last_applied as int,
                    old(self).commit_index as int,
                ),
                ..old(self)@
            }),
    {
        let ghost from = self.last_applied as int;
        let ghost m0 = self.state_machine@;
        while self.last_applied < self.commit_index
            invariant
                self.state_machine.wf(),
                from <= self.last_applied <= self.commit_index <= self.log.len(),
                self.state_machine@ == applied(m0, self.log@, from, self.last_applied as int),
                self@ == (NodeState {
                    last_applied: self.last_applied,
                    state: self.state_machine@,
                    ..old(self)@
                }),
            decreases self.commit_index - self.last_applied,
        {
            match parse_set_command(self.log[self.last_applied].command.as_str()) {
                Some((key, value)) => {
                    self.state_machine.insert(key, value);
                },
                None => {},
            }
            self.last_applied = self.last_applied + 1;
        }
    }

    /// The value that the applied commands stored under `key`, if any.
    pub fn get(&self, key: &str) -> (r: Option<String>)
        ensures
            match r {
                Some(v) => lookup(self@.state, key@) == Some(v@),
                None => lookup(self@.state, key@) is None,
            },
    {
        self.state_machine.get(key)
    }
}

} // verus!
