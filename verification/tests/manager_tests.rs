use mykv::mem_storage::MemStorage;
use mykv::raft_manager::RaftManager;
use mykv::raft_node::{NodeState, RaftConfig, SoftState};
use mykv::raft_rpc::{Entry, HardState, MessageType, RaftMessage};

fn manager(id: u64) -> RaftManager<MemStorage> {
    let config = RaftConfig { id, election_tick: 10, heartbeat_tick: 3, last_applied: 0 };
    RaftManager::with_timeout(config, MemStorage {}, 200)
}

fn msg(t: MessageType, from: u64, to: u64, term: u64) -> RaftMessage {
    RaftMessage {
        msg_type: t,
        log_term: term,
        index: 0,
        entries: Vec::new(),
        from,
        to,
        commit_index: None,
        commit_term: None,
        reject: false,
    }
}

#[test]
fn fresh_manager_has_nothing_to_report() {
    let rm = manager(1);
    assert!(!rm.has_ready());
}

#[test]
fn new_manager_builds_a_follower() {
    let config = RaftConfig { id: 3, election_tick: 10, heartbeat_tick: 3, last_applied: 0 };
    let rm = RaftManager::new(config, MemStorage {});
    assert_eq!(rm.raft.id, 3);
    assert_eq!(rm.raft.state, NodeState::Follower);
    assert!(!rm.has_ready());
}

#[test]
fn quiet_ready_is_empty() {
    let mut rm = manager(1);
    let rd = rm.ready();
    assert_eq!(rd.number, 1);
    assert_eq!(rd.soft_state, None);
    assert_eq!(rd.hard_state, None);
    assert!(!rd.must_sync);
    assert!(rd.messages.is_empty());
    assert!(rd.entries.is_empty());
    assert!(rd.read_states.is_empty());
    assert!(rd.committed_entries.is_empty());
    assert_eq!(rd.commit_index, None);
    assert_eq!(rm.ready().number, 2);
}

#[test]
fn ready_hands_out_messages_once() {
    let mut rm = manager(1);
    rm.step(msg(MessageType::Heartbeat, 2, 1, 0)).unwrap();
    assert!(rm.has_ready());
    let rd = rm.ready();
    assert_eq!(rd.messages.len(), 1);
    assert_eq!(rd.messages[0].msg_type, MessageType::HeartbeatResponse);
    assert_eq!(rd.messages[0].to, 2);
    // The leader id changed, so the soft state is reported.
    assert_eq!(rd.soft_state, Some(SoftState { leader_id: 2, raft_state: NodeState::Follower }));
    assert!(rm.raft.msgs.is_empty());
    // The record is not updated, so the soft state is reported again.
    assert!(rm.has_ready());
    let rd = rm.ready();
    assert!(rd.messages.is_empty());
    assert!(rd.soft_state.is_some());
}

#[test]
fn vote_change_must_sync() {
    let mut rm = manager(1);
    rm.step(msg(MessageType::RequestVote, 2, 1, 1)).unwrap();
    let rd = rm.ready();
    assert!(rd.must_sync);
    assert_eq!(rd.hard_state, Some(HardState { term: 0, vote: 2, commit_index: 0 }));
}

#[test]
fn ready_carries_the_log() {
    let mut rm = manager(1);
    rm.raft.log = vec![Entry { term: 1, commit_index: 1 }, Entry { term: 1, commit_index: 2 }];
    let rd = rm.ready();
    assert_eq!(rd.entries, rm.raft.log);
}

#[test]
fn manager_tick_become_leader_and_network() {
    let mut rm = manager(1);
    assert!(!rm.tick());
    assert_eq!(rm.raft.election_elapsed, 1);
    rm.raft.election_elapsed = 199;
    assert!(rm.tick());
    assert_eq!(rm.raft.election_elapsed, 0);
    rm.add_network(1);
    rm.add_network(2);
    rm.become_leader();
    assert!(rm.raft.is_leader());
    assert!(rm.has_ready());
    assert_eq!(rm.raft.network.len(), 2);
    let rd = rm.ready();
    assert_eq!(rd.soft_state, Some(SoftState { leader_id: 0, raft_state: NodeState::Leader }));
}
