use raft::raft::{RaftNode, RaftRole};

#[test]
fn lone_demo_node_becomes_leader_and_applies_sets() {
    let mut node = RaftNode::new(1, vec![]);
    assert_eq!(node.role, RaftRole::Follower);
    node.start_election();
    assert_eq!(node.role, RaftRole::Leader);
    assert_eq!(node.current_term, 1);
    assert_eq!(node.voted_for, Some(1));
    node.propose("set foo 42".to_string());
    node.propose("not a command".to_string());
    node.propose("set foo 43".to_string());
    node.propose("set bar baz".to_string());
    assert_eq!(node.log.len(), 4);
    assert_eq!(node.commit_index, 4);
    assert_eq!(node.last_applied, 4);
    assert_eq!(node.get("foo"), Some("43".to_string()));
    assert_eq!(node.get("bar"), Some("baz".to_string()));
    assert_eq!(node.get("not"), None);
}

#[test]
fn demo_follower_ignores_proposals() {
    let mut node = RaftNode::new(1, vec![2, 3]);
    node.propose("set a b".to_string());
    assert!(node.log.is_empty());
    assert_eq!(node.get("a"), None);
}

#[test]
fn demo_election_outcome_follows_votes() {
    let mut node = RaftNode::new(1, vec![2, 3, 4, 5]);
    node.finish_election(&vec![true, false, false, false]);
    assert_eq!(node.role, RaftRole::Follower);
    node.finish_election(&vec![true, true, false, false]);
    assert_eq!(node.role, RaftRole::Leader);
    node.tick();
    assert_eq!(node.role, RaftRole::Leader);
}

#[test]
fn demo_tick_waits_for_the_election_deadline() {
    let mut node = RaftNode::new(1, vec![2, 3, 4, 5]);
    node.tick();
    assert_eq!(node.role, RaftRole::Follower);
    assert_eq!(node.current_term, 0);
    assert!(node.election_deadline > std::time::Instant::now());
    node.send_heartbeats();
    assert!(node.election_deadline > std::time::Instant::now() + std::time::Duration::from_millis(100));
}
