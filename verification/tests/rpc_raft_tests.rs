use mykv::mykv_raft;
use mykv::rpc_raft::{
    AppendEntries, AppendEntriesResult, Command, LogEntry, NodeState, RaftService, RequestVote,
};

fn entry(term: u32) -> LogEntry {
    LogEntry { command: Command::Get { key: "k".to_string() }, term }
}

fn put(term: u32, value: i32) -> LogEntry {
    LogEntry { command: Command::Put { key: "k".to_string(), value }, term }
}

fn append(term: u32, prev_index: u32, prev_term: u32, entries: Vec<LogEntry>, commit: u32) -> AppendEntries {
    AppendEntries {
        term,
        leaderId: 9,
        prevLogIndex: prev_index,
        prevLogTerm: prev_term,
        entries,
        leaderCommit: commit,
    }
}

#[test]
fn new_service_is_a_follower_at_term_one() {
    let s = RaftService::new(4);
    assert_eq!(s._id, 4);
    assert_eq!(s.currentTerm, 1);
    assert_eq!(s.state, NodeState::Follower);
    assert!(s.log.is_empty());
    assert_eq!(s.nextIndex, 1);
    assert_eq!(s.matchIndex, 1);
    assert!((150..300).contains(&s.timeout));
}

#[test]
fn append_of_other_term_is_refused() {
    let mut s = RaftService::with_timeout(1, 200);
    s.becomeLeader();
    let r = s.append_entries(append(3, 1, 1, vec![entry(3)], 1));
    assert_eq!(
        r,
        AppendEntriesResult { term: 1, success: false, conflictingEntryTerm: None, conflictingFirstIndex: None }
    );
    assert_eq!(s.currentTerm, 3);
    assert_eq!(s.state, NodeState::Follower);
    assert!(s.log.is_empty());
    let r = s.append_entries(append(2, 1, 1, vec![], 0));
    assert!(!r.success);
    assert_eq!(r.term, 3);
    assert_eq!(s.currentTerm, 3);
}

#[test]
fn append_past_log_is_refused() {
    let mut s = RaftService::with_timeout(1, 200);
    let r = s.append_entries(append(1, 1, 1, vec![entry(1)], 1));
    assert!(!r.success);
    assert!(s.log.is_empty());
}

#[test]
fn append_extends_and_commits() {
    let mut s = RaftService::with_timeout(1, 200);
    s.log = vec![entry(1)];
    let r = s.append_entries(append(1, 1, 1, vec![put(1, 5), put(1, 6)], 2));
    assert!(r.success);
    assert_eq!(r.conflictingEntryTerm, None);
    assert_eq!(s.log.len(), 3);
    assert_eq!(s.log[2], put(1, 6));
    assert_eq!(s.commitIndex, 2);
    let r = s.append_entries(append(1, 1, 1, vec![], 10));
    assert!(r.success);
    assert_eq!(s.commitIndex, 3);
}

#[test]
fn append_with_conflict_cuts_the_log() {
    let mut s = RaftService::with_timeout(1, 200);
    s.log = vec![entry(1), entry(1), entry(1), entry(1)];
    let r = s.append_entries(append(1, 3, 2, vec![put(1, 7)], 0));
    assert!(r.success);
    assert_eq!(r.conflictingEntryTerm, Some(1));
    assert_eq!(r.conflictingFirstIndex, Some(1));
    // The entry at index 3 and those after it go; the new one follows.
    assert_eq!(s.log, vec![entry(1), entry(1), put(1, 7)]);
    assert_eq!(s.commitIndex, 0);
}

#[test]
fn conflict_reports_term_and_its_first_index() {
    let mut s = RaftService::with_timeout(1, 200);
    s.log = vec![entry(1), entry(2), entry(2), entry(3), entry(3)];
    let r = s.append_entries(append(1, 4, 2, vec![put(2, 7)], 9));
    assert!(r.success);
    assert_eq!(r.conflictingEntryTerm, Some(3));
    assert_eq!(r.conflictingFirstIndex, Some(4));
    assert_eq!(s.log, vec![entry(1), entry(2), entry(2), put(2, 7)]);
    assert_eq!(s.commitIndex, 4);
    let mut s = RaftService::with_timeout(1, 200);
    s.log = vec![entry(1), entry(2), entry(2), entry(3), entry(3)];
    let r = s.append_entries(append(1, 2, 1, vec![], 0));
    assert!(r.success);
    assert_eq!(r.conflictingEntryTerm, Some(2));
    assert_eq!(r.conflictingFirstIndex, Some(2));
    assert_eq!(s.log, vec![entry(1)]);
}

#[test]
fn repeated_append_adds_nothing() {
    let mut s = RaftService::with_timeout(1, 200);
    s.log = vec![entry(1)];
    let call = append(1, 1, 1, vec![put(1, 5), put(1, 6)], 2);
    let first = s.append_entries(call.clone());
    let log = s.log.clone();
    let second = s.append_entries(call);
    assert_eq!(first, second);
    assert_eq!(s.log, log);
    assert_eq!(s.log.len(), 3);
    assert_eq!(s.commitIndex, 2);
}

#[test]
fn append_keeps_matching_entries_and_replaces_from_a_mismatch() {
    let mut s = RaftService::with_timeout(1, 200);
    s.log = vec![entry(1), put(1, 5)];
    let r = s.append_entries(append(1, 1, 1, vec![put(1, 5), put(2, 6)], 0));
    assert!(r.success);
    assert_eq!(s.log, vec![entry(1), put(1, 5), put(2, 6)]);
    s.log.push(put(2, 9));
    let r = s.append_entries(append(1, 1, 1, vec![put(1, 5), put(3, 8)], 0));
    assert!(r.success);
    assert_eq!(r.conflictingEntryTerm, None);
    assert_eq!(s.log, vec![entry(1), put(1, 5), put(3, 8)]);
}

#[test]
fn rpc_vote_is_granted_once() {
    let mut s = RaftService::with_timeout(1, 200);
    s.log = vec![entry(1)];
    let r = s.request_vote(RequestVote { term: 1, candidateId: 5, lastLogIndex: 1, lastLogTerm: 1 });
    assert!(r.voteGranted);
    assert_eq!(r.term, 1);
    assert_eq!(s.votedFor, Some(5));
    let r = s.request_vote(RequestVote { term: 2, candidateId: 6, lastLogIndex: 1, lastLogTerm: 1 });
    assert!(!r.voteGranted);
    assert_eq!(s.votedFor, Some(5));
}

#[test]
fn vote_needs_matching_entry_and_term() {
    let mut s = RaftService::with_timeout(1, 200);
    s.currentTerm = 3;
    s.log = vec![entry(2)];
    let r = s.request_vote(RequestVote { term: 2, candidateId: 5, lastLogIndex: 0, lastLogTerm: 0 });
    assert!(!r.voteGranted);
    let r = s.request_vote(RequestVote { term: 3, candidateId: 5, lastLogIndex: 1, lastLogTerm: 1 });
    assert!(!r.voteGranted);
    let r = s.request_vote(RequestVote { term: 3, candidateId: 5, lastLogIndex: 2, lastLogTerm: 2 });
    assert!(!r.voteGranted);
    assert_eq!(s.votedFor, None);
}

#[test]
fn role_changes() {
    let mut s = RaftService::with_timeout(1, 200);
    s.becomeCandidate();
    assert_eq!(s.state, NodeState::Candidate);
    s.becomeLeader();
    assert_eq!(s.state, NodeState::Leader);
    s.becomeFollower();
    assert_eq!(s.state, NodeState::Follower);
}

fn light(term: u32) -> mykv_raft::RaftService {
    mykv_raft::RaftService {
        currentTerm: term,
        votedFor: None,
        log: vec![entry(1)],
        commitIndex: 0,
        lastApplied: 0,
        nextIndex: vec![],
        matchIndex: vec![],
        state: NodeState::Leader,
    }
}

#[test]
fn light_node_accepts_newer_terms_without_adopting_them() {
    let mut s = light(1);
    let r = s.append_entries(append(4, 1, 1, vec![entry(4)], 2));
    assert!(r.success);
    assert_eq!(r.term, 1);
    assert_eq!(s.currentTerm, 1);
    assert_eq!(s.state, NodeState::Leader);
    assert_eq!(s.log.len(), 2);
    assert_eq!(s.commitIndex, 2);
    let r = s.append_entries(append(0, 1, 1, vec![entry(4)], 2));
    assert!(!r.success);
    assert_eq!(s.log.len(), 2);
    let r = s.append_entries(append(2, 1, 1, vec![entry(4)], 2));
    assert!(r.success);
    assert_eq!(s.log.len(), 2);
    let r = s.append_entries(append(2, 2, 1, vec![], 0));
    assert_eq!(r.conflictingEntryTerm, Some(4));
    assert_eq!(r.conflictingFirstIndex, Some(2));
    assert_eq!(s.log.len(), 1);
}

#[test]
fn light_node_votes_once() {
    let mut s = light(1);
    let r = s.request_vote(RequestVote { term: 1, candidateId: 2, lastLogIndex: 1, lastLogTerm: 1 });
    assert!(r.voteGranted);
    let r = s.request_vote(RequestVote { term: 1, candidateId: 3, lastLogIndex: 1, lastLogTerm: 1 });
    assert!(!r.voteGranted);
    assert_eq!(s.votedFor, Some(2));
}
