use std::collections::HashSet;

use mykv::kv_service::peer_plan;
use mykv::mem_storage::MemStorage;
use mykv::raft::{
    after_connect_attempt, after_send_attempt, heartbeat_nanos, route, ConnectStep, Raft,
    SendStep, MAX_RETRIES, MSG_RETRY_TIMEOUT, RAFT_SERVICE_TIMEOUT,
};
use mykv::raft_rpc::{MessageType, RaftMessage};

fn msg(t: MessageType, from: u64, to: u64, term: u64) -> RaftMessage {
    RaftMessage {
        msg_type: t,
        log_term: term,
        index: 0,
        entries: Vec::new(),
        from,
        to,
        commit_index: None,
        commit_term: None,
        reject: false,
    }
}

#[test]
fn send_retries_then_gives_up() {
    assert_eq!(after_send_attempt(true, 3), SendStep::Delivered);
    let mut retries = 0;
    let mut attempts = 1;
    loop {
        match after_send_attempt(false, retries) {
            SendStep::Retry { retries: r, wait_ms } => {
                assert_eq!(wait_ms, MSG_RETRY_TIMEOUT);
                assert_eq!(r, retries + 1);
                retries = r;
                attempts += 1;
            }
            SendStep::GiveUp => break,
            SendStep::Delivered => unreachable!(),
        }
    }
    assert_eq!(retries, MAX_RETRIES);
    assert_eq!(attempts, 6);
}

#[test]
fn connect_retries_then_fails() {
    assert_eq!(after_connect_attempt(true, 0), ConnectStep::Connected);
    assert_eq!(
        after_connect_attempt(false, 5),
        ConnectStep::Retry { retries: 6, wait_ms: RAFT_SERVICE_TIMEOUT }
    );
    assert_eq!(after_connect_attempt(false, 6), ConnectStep::Fail);
}

#[test]
fn route_splits_by_peer() {
    let peers: HashSet<u64> = [2, 3].into_iter().collect();
    let msgs = vec![
        msg(MessageType::Heartbeat, 1, 2, 1),
        msg(MessageType::Heartbeat, 1, 4, 1),
        msg(MessageType::Append, 1, 3, 1),
        msg(MessageType::Append, 1, 9, 1),
    ];
    let (known, unknown) = route(msgs, &peers);
    assert_eq!(known.iter().map(|m| m.to).collect::<Vec<_>>(), vec![2, 3]);
    assert_eq!(unknown.iter().map(|m| m.to).collect::<Vec<_>>(), vec![4, 9]);
}

#[test]
fn peer_plan_marks_self() {
    let plan = peer_plan(2, &vec![1, 2, 3]);
    assert_eq!(plan, vec![(1, false), (2, true), (3, false)]);
    assert!(peer_plan(2, &vec![]).is_empty());
}

#[test]
fn heartbeat_period() {
    assert_eq!(heartbeat_nanos(), 100_000_000);
}

#[test]
fn raft_loop_ticks_and_reports() {
    let mut raft = Raft::new(1, MemStorage {});
    raft.add_node(1, true);
    raft.add_node(2, false);
    // Nothing received, little time passed: no tick, nothing to report.
    let (known, unknown) = raft.iterate(None, 1_000);
    assert!(known.is_empty() && unknown.is_empty());
    // A heartbeat from node 2 is answered to node 2, a reachable peer.
    let (known, unknown) = raft.iterate(Some(msg(MessageType::Heartbeat, 2, 1, 0)), 0);
    assert_eq!(known.len(), 1);
    assert_eq!(known[0].to, 2);
    assert_eq!(known[0].msg_type, MessageType::HeartbeatResponse);
    assert!(unknown.is_empty());
    // A heartbeat from an unknown node is answered, but cannot be routed.
    let (known, unknown) = raft.iterate(Some(msg(MessageType::Heartbeat, 5, 1, 0)), 0);
    assert!(known.is_empty());
    assert_eq!(unknown.len(), 1);
    assert_eq!(unknown[0].to, 5);
    assert_eq!(raft.node().raft.network.len(), 2);
}

#[test]
fn raft_step_and_on_ready() {
    let mut raft = Raft::new(1, MemStorage {});
    raft.add_node(3, false);
    let (known, unknown) = raft.on_ready();
    assert!(known.is_empty() && unknown.is_empty());
    raft.step(msg(MessageType::Heartbeat, 3, 1, 0)).unwrap();
    let (known, _) = raft.on_ready();
    assert_eq!(known.len(), 1);
    assert_eq!(raft.node().raft.leader_id, 3);
}
