use mykv::mem_storage::MemStorage;
use mykv::raft_node::{
    NodeState, RaftConfig, RaftNode, SoftState, MAX_ELECTION_DURATION, MIN_ELECTION_DURATION,
};
use mykv::raft_rpc::{Entry, HardState, MessageType, RaftMessage};

fn config(id: u64) -> RaftConfig {
    RaftConfig { id, election_tick: 10, heartbeat_tick: 3, last_applied: 0 }
}

fn node(id: u64) -> RaftNode<MemStorage> {
    RaftNode::with_timeout(&config(id), MemStorage {}, 200)
}

fn msg(t: MessageType, from: u64, to: u64, term: u64) -> RaftMessage {
    RaftMessage {
        msg_type: t,
        log_term: term,
        index: 0,
        entries: Vec::new(),
        from,
        to,
        commit_index: None,
        commit_term: None,
        reject: false,
    }
}

#[test]
fn fresh_node_is_a_follower_at_term_zero() {
    let n = RaftNode::new(&config(7), MemStorage {});
    assert_eq!(n.id, 7);
    assert_eq!(n.term, 0);
    assert_eq!(n.state, NodeState::Follower);
    assert_eq!(n.voted_for, None);
    assert_eq!(n.heartbeat_timeout, 3);
    assert_eq!(n.election_timeout, 10);
    assert!(n.randomized_timeout >= MIN_ELECTION_DURATION);
    assert!(n.randomized_timeout < MAX_ELECTION_DURATION);
    assert!(n.msgs.is_empty());
    assert!(n.network.is_empty());
}

#[test]
fn reset_timeout_stays_in_range() {
    let mut n = node(1);
    for _ in 0..50 {
        n.reset_timeout();
        let t = n.get_timeout();
        assert!((MIN_ELECTION_DURATION..MAX_ELECTION_DURATION).contains(&t));
    }
    assert_eq!(n.term, 0);
}

#[test]
fn send_drops_vote_messages_without_term() {
    let mut n = node(1);
    n.send(msg(MessageType::RequestVote, 1, 2, 0));
    n.send(msg(MessageType::RequestVoteResponse, 1, 2, 0));
    assert!(n.msgs.is_empty());
    n.send(msg(MessageType::RequestVote, 1, 2, 4));
    assert_eq!(n.msgs.len(), 1);
    assert_eq!(n.msgs[0].log_term, 4);
}

#[test]
fn send_stamps_other_messages_with_the_term() {
    let mut n = node(1);
    n.set_term(5);
    n.send(msg(MessageType::Heartbeat, 1, 2, 3));
    assert!(n.msgs.is_empty());
    n.send(msg(MessageType::Heartbeat, 1, 2, 0));
    n.send(msg(MessageType::Propose, 1, 2, 0));
    n.send(msg(MessageType::ReadIndex, 1, 2, 0));
    assert_eq!(n.msgs.len(), 3);
    assert_eq!(n.msgs[0].log_term, 5);
    assert_eq!(n.msgs[1].log_term, 0);
    assert_eq!(n.msgs[2].log_term, 0);
}

#[test]
fn follower_answers_heartbeat() {
    let mut n = node(1);
    n.election_elapsed = 4;
    n.step(msg(MessageType::Heartbeat, 2, 1, 0)).unwrap();
    assert_eq!(n.election_elapsed, 0);
    assert_eq!(n.leader_id, 2);
    assert_eq!(n.msgs.len(), 1);
    let r = &n.msgs[0];
    assert_eq!(r.msg_type, MessageType::HeartbeatResponse);
    assert_eq!(r.from, 1);
    assert_eq!(r.to, 2);
    assert_eq!(r.log_term, 0);
}

#[test]
fn older_term_is_rejected() {
    let mut n = node(1);
    n.set_term(3);
    n.step(msg(MessageType::Propose, 2, 1, 1)).unwrap();
    assert_eq!(n.msgs.len(), 1);
    let r = &n.msgs[0];
    assert_eq!(r.msg_type, MessageType::AppendResponse);
    assert!(r.reject);
    assert_eq!(r.to, 2);
    assert_eq!(r.from, 0);
    assert_eq!(r.log_term, 3);
}

#[test]
fn stale_heartbeat_is_only_rejected() {
    let mut n = node(1);
    n.set_term(3);
    n.election_elapsed = 4;
    n.step(msg(MessageType::Heartbeat, 2, 1, 1)).unwrap();
    assert_eq!(n.election_elapsed, 4);
    assert_eq!(n.leader_id, 0);
    assert_eq!(n.state, NodeState::Follower);
    assert_eq!(n.term, 3);
    assert_eq!(n.msgs.len(), 1);
    assert_eq!(n.msgs[0].msg_type, MessageType::AppendResponse);
    assert!(n.msgs[0].reject);
    assert_eq!(n.msgs[0].to, 2);
}

#[test]
fn newer_term_makes_a_follower_but_keeps_the_term() {
    let mut n = node(1);
    n.set_term(2);
    n.become_leader();
    n.step(msg(MessageType::Append, 2, 1, 5)).unwrap();
    assert_eq!(n.state, NodeState::Follower);
    assert_eq!(n.term, 2);
    assert_eq!(n.election_elapsed, 0);
}

#[test]
fn vote_is_granted_once() {
    let mut n = node(1);
    n.step(msg(MessageType::RequestVote, 2, 1, 1)).unwrap();
    assert_eq!(n.voted_for, Some(2));
    assert_eq!(n.get_leader(), Some(2));
    assert_eq!(n.state, NodeState::Follower);
    // The granted vote is answered to the candidate, with the request's term.
    assert_eq!(n.msgs.len(), 1);
    assert_eq!(n.msgs[0].msg_type, MessageType::RequestVoteResponse);
    assert_eq!(n.msgs[0].from, 1);
    assert_eq!(n.msgs[0].to, 2);
    assert_eq!(n.msgs[0].log_term, 1);
    assert!(!n.msgs[0].reject);
    // A second candidate of a newer term is ignored while the timer runs.
    n.step(msg(MessageType::RequestVote, 3, 1, 2)).unwrap();
    assert_eq!(n.voted_for, Some(2));
    assert_eq!(n.msgs.len(), 1);
    // Once the election timer has run out, the request is answered with a
    // refusal and the vote stays.
    n.election_elapsed = 10;
    n.step(msg(MessageType::RequestVote, 3, 1, 2)).unwrap();
    assert_eq!(n.voted_for, Some(2));
    assert_eq!(n.msgs.len(), 2);
    assert_eq!(n.msgs[1].msg_type, MessageType::RequestVoteResponse);
    assert_eq!(n.msgs[1].to, 3);
    assert_eq!(n.msgs[1].log_term, 2);
    assert!(n.msgs[1].reject);
}

#[test]
fn vote_follows_log_comparison() {
    let mut n = node(1);
    n.log = vec![Entry { term: 1, commit_index: 1 }];
    let mut m = msg(MessageType::RequestVote, 2, 1, 0);
    m.entries = vec![Entry { term: 1, commit_index: 0 }];
    n.step(m).unwrap();
    assert_eq!(n.voted_for, None);
    let mut m = msg(MessageType::RequestVote, 2, 1, 0);
    m.entries = vec![Entry { term: 1, commit_index: 1 }];
    n.step(m).unwrap();
    assert_eq!(n.voted_for, Some(2));
    let mut m = msg(MessageType::RequestVote, 3, 1, 0);
    m.entries = vec![Entry { term: 2, commit_index: 0 }];
    n.step(m).unwrap();
    assert_eq!(n.voted_for, Some(2));
    // Both requests carried no term, so nothing was queued.
    assert!(n.msgs.is_empty());
}

#[test]
fn leader_broadcasts_beat_to_each_peer() {
    let mut n = node(1);
    for id in [1, 2, 3, 4] {
        n.add_to_network(id);
    }
    n.become_leader();
    n.step(msg(MessageType::Beat, 1, 0, 0)).unwrap();
    let mut to: Vec<u64> = n.msgs.iter().map(|m| m.to).collect();
    to.sort();
    assert_eq!(to, vec![2, 3, 4]);
    assert!(n.msgs.iter().all(|m| m.msg_type == MessageType::Beat && m.log_term == 0));
}

#[test]
fn candidate_steps_down() {
    let mut n = node(1);
    n.become_candidate();
    n.step(msg(MessageType::Heartbeat, 2, 1, 0)).unwrap();
    assert_eq!(n.state, NodeState::Candidate);
    n.step(msg(MessageType::Heartbeat, 2, 1, 1)).unwrap();
    assert_eq!(n.state, NodeState::Follower);
    n.become_candidate();
    n.step(msg(MessageType::Append, 2, 1, 2)).unwrap();
    assert_eq!(n.state, NodeState::Follower);
}

#[test]
fn become_candidate_votes_for_itself() {
    let mut n = node(4);
    n.vote_state.insert(9);
    n.become_candidate();
    assert_eq!(n.term, 1);
    assert!(n.is_candidate());
    assert_eq!(n.vote_state.len(), 1);
    assert!(n.vote_state.contains(&4));
    n.become_leader();
    assert!(n.is_leader());
    assert!(n.vote_state.is_empty());
    n.become_follower();
    assert!(n.is_follower());
    n.increment_term();
    assert_eq!(n.get_term(), 2);
}

#[test]
fn majority_is_more_than_half() {
    let mut n = node(1);
    for id in [1, 2, 3] {
        n.add_to_network(id);
    }
    n.vote_state.insert(1);
    assert!(!n.check_majority());
    n.vote_state.insert(2);
    assert!(n.check_majority());
    n.vote_state.insert(3);
    assert!(n.check_majority());
    n.vote_state.insert(8);
    assert!(n.check_majority());
    n.add_to_network(4);
    n.vote_state.remove(&3);
    assert!(!n.check_majority());
}

#[test]
fn lone_node_votes_itself_into_a_majority() {
    let mut n = node(1);
    n.add_to_network(1);
    assert!(!n.check_majority());
    n.become_candidate();
    assert!(n.check_majority());
}

#[test]
fn election_tick() {
    let mut n = node(1);
    assert!(!n.tick());
    assert_eq!(n.election_elapsed, 1);
    n.election_elapsed = 198;
    assert!(!n.tick_election());
    assert_eq!(n.election_elapsed, 199);
    assert!(n.tick_election());
    assert_eq!(n.election_elapsed, 0);
    n.become_candidate();
    n.election_elapsed = 250;
    assert!(n.tick());
    assert_eq!(n.election_elapsed, 0);
}

#[test]
fn leader_heartbeat_tick() {
    let mut n = node(1);
    n.become_leader();
    assert!(!n.tick());
    assert!(!n.tick());
    assert_eq!(n.heartbeat_elapsed, 2);
    assert!(n.tick());
    assert_eq!(n.heartbeat_elapsed, 0);
    assert!(n.is_leader());
    // At term 0 the heartbeat sent to itself produces nothing.
    assert!(n.msgs.is_empty());
    n.set_term(2);
    n.election_elapsed = 9;
    assert!(n.tick_heartbeat());
    assert_eq!(n.election_elapsed, 0);
    assert_eq!(n.heartbeat_elapsed, 1);
}

#[test]
fn leader_heartbeat_at_later_term_rejects_itself() {
    let mut n = node(1);
    n.set_term(2);
    n.become_leader();
    n.heartbeat_elapsed = 2;
    assert!(n.tick());
    assert_eq!(n.msgs.len(), 1);
    assert_eq!(n.msgs[0].msg_type, MessageType::AppendResponse);
    assert!(n.msgs[0].reject);
    assert_eq!(n.msgs[0].to, 1);
    assert_eq!(n.msgs[0].log_term, 2);
    assert!(n.is_leader());
}

#[test]
fn log_up_to_date_compares_last_entries() {
    let mut n = node(1);
    assert!(n.log_up_to_date(vec![]));
    assert!(n.log_up_to_date(vec![Entry { term: 1, commit_index: 1 }]));
    n.log = vec![Entry { term: 2, commit_index: 5 }];
    assert!(!n.log_up_to_date(vec![]));
    assert!(!n.log_up_to_date(vec![Entry { term: 2, commit_index: 4 }]));
    assert!(!n.log_up_to_date(vec![Entry { term: 1, commit_index: 9 }]));
    assert!(n.log_up_to_date(vec![Entry { term: 2, commit_index: 5 }]));
    assert!(n.log_up_to_date(vec![Entry { term: 2, commit_index: 6 }]));
    assert!(n.log_up_to_date(vec![Entry { term: 3, commit_index: 0 }]));
    let same = n.log.clone();
    assert!(n.log_up_to_date(same));
}

#[test]
fn soft_and_hard_state() {
    let mut n = node(1);
    assert_eq!(n.get_hardstate(), HardState { term: 0, vote: 0, commit_index: 0 });
    n.step(msg(MessageType::RequestVote, 3, 1, 1)).unwrap();
    n.commit_index = 4;
    assert_eq!(n.get_hardstate(), HardState { term: 0, vote: 3, commit_index: 4 });
    n.leader_id = 3;
    assert_eq!(
        n.get_softstate(),
        SoftState { leader_id: 3, raft_state: NodeState::Follower }
    );
    assert_eq!(*n.get_state(), NodeState::Follower);
    assert_eq!(n.get_network().len(), 0);
}

#[test]
fn timeouts_are_drawn_not_fixed() {
    let mut n = node(1);
    let mut seen = std::collections::HashSet::new();
    for _ in 0..200 {
        n.reset_timeout();
        seen.insert(n.get_timeout());
    }
    assert!(seen.len() > 1);
    assert!(seen.iter().any(|t| *t != MIN_ELECTION_DURATION));
}

#[test]
fn log_reconcile_finds_the_last_agreement() {
    let mut n = node(1);
    n.set_term(7);
    n.log = vec![
        Entry { term: 1, commit_index: 1 },
        Entry { term: 1, commit_index: 2 },
        Entry { term: 2, commit_index: 3 },
    ];
    let other = vec![
        Entry { term: 1, commit_index: 1 },
        Entry { term: 1, commit_index: 2 },
        Entry { term: 3, commit_index: 3 },
        Entry { term: 3, commit_index: 4 },
    ];
    assert_eq!(n.log_reconcile(other), (1, 1));
    let mut longer = n.log.clone();
    longer.push(Entry { term: 4, commit_index: 4 });
    assert_eq!(n.log_reconcile(longer), (2, 2));
    let shorter = vec![Entry { term: 1, commit_index: 1 }];
    assert_eq!(n.log_reconcile(shorter), (0, 1));
}
