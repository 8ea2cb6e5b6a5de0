use raft::raft_core::{
    AppendEntriesArgs, AppendEntriesReply, ClientCommand, Effect, LogEntry, MemStorage, RaftNode,
    RaftRole, RaftStorage, RequestVoteArgs, RequestVoteReply, TickAction,
};

fn put(key: &str, value: &str) -> ClientCommand {
    ClientCommand::Put { key: key.to_string(), value: value.to_string() }
}

fn entry(term: u64) -> LogEntry {
    LogEntry { term, command: ClientCommand::NoOp }
}

fn applied(effects: &[Effect]) -> Vec<(String, String)> {
    effects
        .iter()
        .filter_map(|e| match e {
            Effect::Apply { key, value } => Some((key.clone(), value.clone())),
            _ => None,
        })
        .collect()
}

fn notified(effects: &[Effect]) -> Vec<usize> {
    effects
        .iter()
        .filter_map(|e| match e {
            Effect::NotifyCommitted { index } => Some(*index),
            _ => None,
        })
        .collect()
}

/// Runs one replication round from `leader` to the peers that `reachable`
/// accepts, then lets the leader update its commit index.
fn replicate(leader: &mut RaftNode, others: &mut [RaftNode], reachable: &dyn Fn(u64) -> bool) -> Vec<Effect> {
    let mut out = Vec::new();
    for req in leader.append_requests() {
        if !reachable(req.peer) {
            continue;
        }
        let node = others.iter_mut().find(|n| n.id == req.peer).unwrap();
        let mut follower_out = Vec::new();
        let prev = req.args.prev_log_index;
        let len = req.args.entries.len();
        let reply = node.handle_append_entries(req.args, &mut follower_out);
        if !leader.handle_append_reply(req.peer, prev, len, reply, &mut out) {
            return out;
        }
    }
    leader.update_commit_index(&mut out);
    out
}

#[test]
fn test_single_node_raft_actor_and_proposal() {
    let mut node = RaftNode::new(1, vec![]);
    assert_eq!(node.get_state(), (0, RaftRole::Follower));
    assert_eq!(node.on_tick(true, false), TickAction::StartElection);
    let mut out = Vec::new();
    let args = node.start_election(&mut out);
    assert_eq!(args, RequestVoteArgs { term: 1, candidate_id: 1, last_log_index: 0, last_log_term: 0 });
    assert_eq!(node.get_state(), (1, RaftRole::Leader));
    assert_eq!(
        out,
        vec![Effect::ResetElectionTimer, Effect::SaveTermAndVote { term: 1, voted_for: Some(1) }]
    );

    let mut out = Vec::new();
    let res = node.handle_propose(put("name", "raft"), &mut out);
    assert_eq!(res, Ok(1));
    assert_eq!(node.commit_index, 1);
    assert_eq!(node.last_applied, 1);
    assert_eq!(
        out,
        vec![
            Effect::AppendToStorage { entry: LogEntry { term: 1, command: put("name", "raft") } },
            Effect::NotifyCommitted { index: 1 },
            Effect::Apply { key: "name".to_string(), value: "raft".to_string() },
        ]
    );
}

#[test]
fn follower_refuses_proposals() {
    let mut node = RaftNode::new(1, vec![2, 3]);
    let mut out = Vec::new();
    assert_eq!(node.handle_propose(put("a", "b"), &mut out), Err("Not leader".to_string()));
    assert!(out.is_empty());
    assert_eq!(node.log.len(), 1);
}

#[test]
fn test_three_node_cluster_network_partition() {
    let mut n1 = RaftNode::new(1, vec![2, 3]);
    let mut others = vec![RaftNode::new(2, vec![1, 3]), RaftNode::new(3, vec![1, 2])];

    let mut out = Vec::new();
    let args = n1.start_election(&mut out);
    assert_eq!(n1.role, RaftRole::Candidate);
    let reqs = n1.vote_requests();
    assert_eq!(reqs.iter().map(|r| r.peer).collect::<Vec<_>>(), vec![2, 3]);
    assert!(reqs.iter().all(|r| r.args == args));
    let mut votes = 1usize;
    for (peer, req) in others.iter_mut().zip(reqs) {
        assert_eq!(peer.id, req.peer);
        let mut peer_out = Vec::new();
        let reply = peer.handle_request_vote(req.args, &mut peer_out);
        assert!(reply.vote_granted);
        assert_eq!(peer.voted_for, Some(1));
        if !n1.handle_vote_reply(reply, &mut votes, &mut out) {
            break;
        }
    }
    assert_eq!(n1.role, RaftRole::Leader);
    assert_eq!(votes, 2);
    assert_eq!(n1.next_index.get(&2), Some(&1));
    assert_eq!(n1.match_index.get(&3), Some(&0));

    let mut out = Vec::new();
    assert_eq!(n1.handle_propose(put("k1", "v1"), &mut out), Ok(1));
    assert_eq!(n1.pending_proposals, vec![(1, LogEntry { term: 1, command: put("k1", "v1") })]);
    let effects = replicate(&mut n1, &mut others, &|_| true);
    assert_eq!(n1.commit_index, 1);
    assert_eq!(notified(&effects), vec![1]);
    assert_eq!(applied(&effects), vec![("k1".to_string(), "v1".to_string())]);
    assert!(n1.pending_proposals.is_empty());
    assert_eq!(n1.match_index.get(&2), Some(&1));
    assert_eq!(n1.next_index.get(&3), Some(&2));
    for peer in &others {
        assert_eq!(peer.log.len(), 2);
        assert_eq!(peer.log[1], LogEntry { term: 1, command: put("k1", "v1") });
    }

    // The leader is cut off from both peers: its next proposal cannot commit.
    let mut out = Vec::new();
    assert_eq!(n1.handle_propose(put("k2", "v2"), &mut out), Ok(2));
    let effects = replicate(&mut n1, &mut others, &|_| false);
    assert_eq!(n1.commit_index, 1);
    assert!(notified(&effects).is_empty());
    assert_eq!(n1.pending_proposals, vec![(2, LogEntry { term: 1, command: put("k2", "v2") })]);

    // Followers learn the commit index with the next heartbeat.
    let effects = replicate(&mut n1, &mut others, &|_| true);
    assert_eq!(n1.commit_index, 2);
    assert_eq!(notified(&effects), vec![2]);
    assert_eq!(others[0].commit_index, 1);
    let mut out = Vec::new();
    let hb = n1.append_requests();
    let reply = others[0].handle_append_entries(hb[0].args.clone(), &mut out);
    assert!(reply.success);
    assert_eq!(others[0].commit_index, 2);
    assert_eq!(applied(&out), vec![("k2".to_string(), "v2".to_string())]);
}

#[test]
fn request_vote_rules() {
    let mut node = RaftNode::new(2, vec![1, 3]);
    node.log.push(entry(2));
    node.current_term = 2;
    let mut out = Vec::new();
    // stale term
    let r = node.handle_request_vote(
        RequestVoteArgs { term: 1, candidate_id: 1, last_log_index: 5, last_log_term: 5 },
        &mut out,
    );
    assert_eq!(r, RequestVoteReply { term: 2, vote_granted: false });
    assert!(out.is_empty());
    // newer term, but the candidate's log is behind
    let r = node.handle_request_vote(
        RequestVoteArgs { term: 3, candidate_id: 1, last_log_index: 5, last_log_term: 1 },
        &mut out,
    );
    assert_eq!(r, RequestVoteReply { term: 3, vote_granted: false });
    assert_eq!(node.voted_for, None);
    assert_eq!(out, vec![Effect::ResetElectionTimer, Effect::SaveTermAndVote { term: 3, voted_for: None }]);
    // up to date candidate gets the vote
    let mut out = Vec::new();
    let r = node.handle_request_vote(
        RequestVoteArgs { term: 3, candidate_id: 3, last_log_index: 1, last_log_term: 2 },
        &mut out,
    );
    assert!(r.vote_granted);
    assert_eq!(out, vec![Effect::ResetElectionTimer, Effect::SaveTermAndVote { term: 3, voted_for: Some(3) }]);
    // the same candidate may ask again, another one may not
    let again = RequestVoteArgs { term: 3, candidate_id: 3, last_log_index: 1, last_log_term: 2 };
    assert!(node.handle_request_vote(again, &mut Vec::new()).vote_granted);
    let other = RequestVoteArgs { term: 3, candidate_id: 1, last_log_index: 9, last_log_term: 9 };
    assert!(!node.handle_request_vote(other, &mut Vec::new()).vote_granted);
}

#[test]
fn append_entries_refusals_report_conflicts() {
    let mut node = RaftNode::new(2, vec![1]);
    node.log = vec![entry(0), entry(1), entry(2), entry(2), entry(2)];
    node.current_term = 3;
    let mut out = Vec::new();
    let stale = AppendEntriesArgs {
        term: 2,
        leader_id: 1,
        prev_log_index: 0,
        prev_log_term: 0,
        entries: vec![],
        leader_commit: 0,
    };
    assert_eq!(
        node.handle_append_entries(stale, &mut out),
        AppendEntriesReply { term: 3, success: false, conflict_index: 5, conflict_term: 0 }
    );
    assert!(out.is_empty());

    let too_far = AppendEntriesArgs {
        term: 3,
        leader_id: 1,
        prev_log_index: 7,
        prev_log_term: 3,
        entries: vec![],
        leader_commit: 0,
    };
    assert_eq!(
        node.handle_append_entries(too_far, &mut out),
        AppendEntriesReply { term: 3, success: false, conflict_index: 5, conflict_term: 0 }
    );
    assert_eq!(out, vec![Effect::ResetElectionTimer]);

    let mismatch = AppendEntriesArgs {
        term: 3,
        leader_id: 1,
        prev_log_index: 4,
        prev_log_term: 3,
        entries: vec![],
        leader_commit: 0,
    };
    assert_eq!(
        node.handle_append_entries(mismatch, &mut Vec::new()),
        AppendEntriesReply { term: 3, success: false, conflict_index: 2, conflict_term: 2 }
    );
    assert_eq!(node.role, RaftRole::Follower);
}

#[test]
fn append_entries_truncates_conflicts_and_is_idempotent() {
    let mut node = RaftNode::new(2, vec![1]);
    node.log = vec![entry(0), entry(1), entry(1), entry(1)];
    node.current_term = 1;
    let args = AppendEntriesArgs {
        term: 2,
        leader_id: 1,
        prev_log_index: 1,
        prev_log_term: 1,
        entries: vec![
            LogEntry { term: 1, command: put("same", "term") },
            LogEntry { term: 2, command: put("x", "1") },
            LogEntry { term: 2, command: put("y", "2") },
        ],
        leader_commit: 3,
    };
    let mut out = Vec::new();
    let r1 = node.handle_append_entries(args.clone(), &mut out);
    assert!(r1.success);
    assert_eq!(node.current_term, 2);
    let terms: Vec<u64> = node.log.iter().map(|e| e.term).collect();
    assert_eq!(terms, vec![0, 1, 1, 2, 2]);
    // index 2 kept its own command: its term already matched
    assert_eq!(node.log[2], entry(1));
    assert_eq!(node.commit_index, 3);
    assert_eq!(applied(&out), vec![("x".to_string(), "1".to_string())]);
    let stored: Vec<&Effect> = out.iter().filter(|e| matches!(e, Effect::AppendToStorage { .. })).collect();
    assert_eq!(stored.len(), 2);

    let log_before = node.log.clone();
    let mut out2 = Vec::new();
    let r2 = node.handle_append_entries(args, &mut out2);
    assert_eq!(r2, r1);
    assert_eq!(node.log, log_before);
    assert_eq!(node.commit_index, 3);
    assert_eq!(out2, vec![Effect::ResetElectionTimer]);
}

#[test]
fn leader_steps_down_on_newer_term_reply() {
    let mut node = RaftNode::new(1, vec![2]);
    let mut out = Vec::new();
    node.start_election(&mut out);
    let mut votes = 1;
    let keep = node.handle_vote_reply(RequestVoteReply { term: 5, vote_granted: false }, &mut votes, &mut out);
    assert!(!keep);
    assert_eq!(node.get_state(), (5, RaftRole::Follower));
    assert_eq!(node.voted_for, None);
}

#[test]
fn append_reply_moves_next_index() {
    let mut node = RaftNode::new(1, vec![2]);
    let mut out = Vec::new();
    node.start_election(&mut out);
    let mut votes = 1;
    node.handle_vote_reply(RequestVoteReply { term: 1, vote_granted: true }, &mut votes, &mut out);
    assert_eq!(node.role, RaftRole::Leader);
    for _ in 0..3 {
        node.handle_propose(put("a", "b"), &mut out).unwrap();
    }
    assert_eq!(node.log.len(), 4);
    let reqs = node.append_requests();
    assert_eq!(reqs.len(), 1);
    assert_eq!(reqs[0].args.prev_log_index, 0);
    assert_eq!(reqs[0].args.entries.len(), 3);
    let refuse = |ci| AppendEntriesReply { term: 1, success: false, conflict_index: ci, conflict_term: 0 };
    assert!(node.handle_append_reply(2, 0, 3, refuse(0), &mut out));
    assert_eq!(node.next_index.get(&2), Some(&1));
    node.next_index.insert(2, 4);
    assert!(node.handle_append_reply(2, 3, 0, refuse(0), &mut out));
    assert_eq!(node.next_index.get(&2), Some(&3));
    assert!(node.handle_append_reply(2, 2, 1, refuse(2), &mut out));
    assert_eq!(node.next_index.get(&2), Some(&2));
    let reqs = node.append_requests();
    assert_eq!(reqs[0].args.prev_log_index, 1);
    assert_eq!(reqs[0].args.prev_log_term, 1);
    assert_eq!(reqs[0].args.entries.len(), 2);
}

#[test]
fn tick_actions() {
    let mut node = RaftNode::new(1, vec![]);
    assert_eq!(node.on_tick(false, true), TickAction::Idle);
    node.start_election(&mut Vec::new());
    assert_eq!(node.on_tick(true, false), TickAction::Idle);
    assert_eq!(node.on_tick(false, true), TickAction::Replicate);
}

#[test]
fn mem_storage_reads_back_writes() {
    let mut s = MemStorage::new();
    assert_eq!(s.load_term_and_vote(), Ok((0, None)));
    assert_eq!(s.log_len(), Ok(1));
    s.save_term_and_vote(4, Some(2)).unwrap();
    assert_eq!(s.load_term_and_vote(), Ok((4, Some(2))));
    s.append_entry(&LogEntry { term: 4, command: put("k", "v") }).unwrap();
    assert_eq!(s.log_len(), Ok(2));
    assert_eq!(s.get_log_entries(1), Ok(vec![LogEntry { term: 4, command: put("k", "v") }]));
    assert_eq!(s.get_log_entries(2), Ok(vec![]));
    assert_eq!(s.get_log_entries(9), Ok(vec![]));
}

#[test]
fn become_follower_and_leader() {
    let mut node = RaftNode::new(1, vec![2, 3]);
    node.log.push(entry(1));
    let mut out = Vec::new();
    node.become_follower(7, &mut out);
    assert_eq!(node.get_state(), (7, RaftRole::Follower));
    assert_eq!(out, vec![Effect::ResetElectionTimer, Effect::SaveTermAndVote { term: 7, voted_for: None }]);
    node.next_index.insert(9, 5);
    node.become_leader();
    assert_eq!(node.role, RaftRole::Leader);
    assert_eq!(node.next_index.get(&2), Some(&2));
    assert_eq!(node.next_index.get(&3), Some(&2));
    assert_eq!(node.next_index.get(&9), Some(&5));
    assert_eq!(node.match_index.get(&2), Some(&0));
}

#[test]
fn notify_and_apply() {
    let mut node = RaftNode::new(1, vec![2]);
    node.pending_proposals = vec![(4, entry(4)), (1, entry(1)), (3, entry(3)), (2, entry(2))];
    let mut out = Vec::new();
    node.notify_pending_proposals(2, &mut out);
    assert_eq!(node.pending_proposals, vec![(4, entry(4)), (3, entry(3))]);
    node.pending_proposals.clear();
    assert_eq!(out, vec![Effect::NotifyCommitted { index: 1 }, Effect::NotifyCommitted { index: 2 }]);

    node.log.push(LogEntry { term: 1, command: put("a", "1") });
    node.log.push(entry(1));
    node.log.push(LogEntry { term: 1, command: put("b", "2") });
    node.commit_index = 3;
    let mut out = Vec::new();
    node.apply_committed(&mut out);
    assert_eq!(node.last_applied, 3);
    assert_eq!(
        out,
        vec![
            Effect::Apply { key: "a".to_string(), value: "1".to_string() },
            Effect::Apply { key: "b".to_string(), value: "2".to_string() },
        ]
    );
}

#[test]
fn commit_needs_current_term_majority() {
    let mut node = RaftNode::new(1, vec![2, 3, 4, 5]);
    node.current_term = 2;
    node.role = RaftRole::Leader;
    node.log = vec![entry(0), entry(1), entry(2), entry(2)];
    for p in [2u64, 3, 4, 5] {
        node.next_index.insert(p, 4);
    }
    // index 1 has a majority but is from an older term; index 2 reaches a
    // majority (self + 2 and 3); index 3 only self + 2.
    node.match_index.insert(2, 3);
    node.match_index.insert(3, 2);
    node.match_index.insert(4, 1);
    let mut out = Vec::new();
    node.update_commit_index(&mut out);
    assert_eq!(node.commit_index, 2);
    assert_eq!(node.last_applied, 2);
    // a follower never advances it this way
    let mut follower = RaftNode::new(2, vec![1]);
    follower.log.push(entry(0));
    follower.match_index.insert(1, 1);
    follower.update_commit_index(&mut out);
    assert_eq!(follower.commit_index, 0);
}

#[test]
fn overwritten_proposal_is_told_it_failed_not_committed() {
    // Leader in term 1 proposes E at index 1.
    let mut node = RaftNode::new(1, vec![2]);
    let mut out = Vec::new();
    node.start_election(&mut out);
    let mut votes = 1;
    node.handle_vote_reply(RequestVoteReply { term: 1, vote_granted: true }, &mut votes, &mut out);
    assert_eq!(node.role, RaftRole::Leader);
    assert_eq!(node.handle_propose(put("e", "1"), &mut out), Ok(1));
    // A term-2 leader replaces index 1.
    let mut out = Vec::new();
    let args = AppendEntriesArgs {
        term: 2,
        leader_id: 2,
        prev_log_index: 0,
        prev_log_term: 0,
        entries: vec![LogEntry { term: 2, command: put("other", "2") }],
        leader_commit: 0,
    };
    assert!(node.handle_append_entries(args, &mut out).success);
    assert_eq!(notified(&out), Vec::<usize>::new());
    assert!(out.contains(&Effect::NotifyFailed { index: 1 }));
    assert!(node.pending_proposals.is_empty());
    // Leader again in term 3: a proposal at index 2 commits with its peer,
    // and only index 2 is acknowledged.
    node.current_term = 2;
    let mut out = Vec::new();
    node.start_election(&mut out);
    let mut votes = 1;
    node.handle_vote_reply(RequestVoteReply { term: 3, vote_granted: true }, &mut votes, &mut out);
    assert_eq!(node.handle_propose(put("f", "3"), &mut out), Ok(2));
    let mut out = Vec::new();
    let ok = AppendEntriesReply { term: 3, success: true, conflict_index: 0, conflict_term: 0 };
    assert!(node.handle_append_reply(2, 0, 2, ok, &mut out));
    node.update_commit_index(&mut out);
    assert_eq!(node.commit_index, 2);
    assert_eq!(notified(&out), vec![2]);
}

#[test]
fn vote_requests_only_from_candidates() {
    let mut node = RaftNode::new(1, vec![2, 3]);
    assert!(node.vote_requests().is_empty());
    node.start_election(&mut Vec::new());
    let reqs = node.vote_requests();
    assert_eq!(reqs.len(), 2);
    assert_eq!(reqs[1].peer, 3);
    assert_eq!(reqs[1].args, RequestVoteArgs { term: 1, candidate_id: 1, last_log_index: 0, last_log_term: 0 });
}
