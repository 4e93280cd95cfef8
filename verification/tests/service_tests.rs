use mykv::mem_storage::MemStorage;
use mykv::raft_node::{NodeState, RaftConfig, RaftNode};
use mykv::raft_service::{RaftService, ServiceAction};

fn service(id: u64) -> RaftService<MemStorage> {
    let config = RaftConfig { id, election_tick: 10, heartbeat_tick: 3, last_applied: 0 };
    let mut s = RaftService::new(id, RaftNode::with_timeout(&config, MemStorage {}, 200));
    for peer in [1, 2, 3] {
        s.add_network(peer);
    }
    s
}

#[test]
fn follower_waits_then_stands_for_election() {
    let mut s = service(1);
    assert_eq!(s.plan(), ServiceAction::AwaitRequest { timeout_ms: 200 });
    s.on_request_timeout();
    assert_eq!(s.node.state, NodeState::Candidate);
    assert_eq!(s.node.term, 1);
    assert!(s.node.vote_state.contains(&1));
    match s.plan() {
        ServiceAction::RequestVotes { mut peers, timeout_ms } => {
            peers.sort();
            assert_eq!(peers, vec![2, 3]);
            assert_eq!(timeout_ms, s.node.randomized_timeout as u64);
        }
        other => panic!("unexpected {:?}", other),
    }
}

#[test]
fn candidate_without_majority_moves_on() {
    let mut s = service(1);
    s.on_request_timeout();
    s.on_votes(false);
    assert_eq!(s.node.term, 2);
    assert_eq!(s.node.state, NodeState::Candidate);
    s.on_votes(true);
    assert_eq!(s.node.term, 3);
}

#[test]
fn candidate_with_majority_leads() {
    let mut s = service(1);
    s.on_request_timeout();
    s.node.vote_state.insert(2);
    s.node.vote_state.insert(3);
    s.on_votes(false);
    assert_eq!(s.node.state, NodeState::Leader);
    match s.plan() {
        ServiceAction::SendHeartbeats { mut peers } => {
            peers.sort();
            assert_eq!(peers, vec![2, 3]);
        }
        other => panic!("unexpected {:?}", other),
    }
}

#[test]
fn candidate_with_majority_is_elected_by_plan() {
    let mut s = service(1);
    s.on_request_timeout();
    s.node.vote_state.insert(2);
    s.node.vote_state.insert(3);
    assert_eq!(s.plan(), ServiceAction::Elected);
    assert!(s.node.is_leader());
    assert_eq!(s.id, 1);
}
