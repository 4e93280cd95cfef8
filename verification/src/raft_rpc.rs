//! The values that Raft nodes exchange and persist: log entries, hard state,
//! snapshots and messages.

use vstd::prelude::*;

verus! {

/// One entry of the replicated log: the index it occupies and the term in
/// which it was created.
#[derive(Clone, Copy, Debug, PartialEq, Eq, Structural)]
pub struct Entry {
    pub term: u64,
    pub commit_index: u64,
}

/// The state a node must persist before answering: current term, the node it
/// voted for (0 for none) and the highest index known to be committed.
#[derive(Clone, Copy, Debug, PartialEq, Eq, Structural)]
pub struct HardState {
    pub term: u64,
    pub vote: u64,
    pub commit_index: u64,
}

impl HardState {
    /// The hard state of a node that has never run: all zero.
    pub fn new() -> (hs: HardState)
        ensures
            hs == (HardState { term: 0, vote: 0, commit_index: 0 }),
    {
        HardState { term: 0, vote: 0, commit_index: 0 }
    }
}

/// Where a snapshot ends: the last index it covers and that entry's term.
#[derive(Clone, Copy, Debug, PartialEq, Eq, Structural)]
pub struct SnapshotMetadata {
    pub index: u64,
    pub term: u64,
}

impl SnapshotMetadata {
    pub fn new() -> (m: SnapshotMetadata)
        ensures
            m == (SnapshotMetadata { index: 0, term: 0 }),
    {
        SnapshotMetadata { index: 0, term: 0 }
    }
}

/// A snapshot of the state machine, described by its metadata.
#[derive(Clone, Copy, Debug, PartialEq, Eq, Structural)]
pub struct Snapshot {
    pub metadata: Option<SnapshotMetadata>,
}

/// The kinds of message that Raft nodes exchange.
#[derive(Clone, Copy, Debug, PartialEq, Eq, Structural)]
pub enum MessageType {
    Hup,
    Beat,
    Propose,
    Append,
    AppendResponse,
    RequestVote,
    RequestVoteResponse,
    Snapshot,
    Heartbeat,
    HeartbeatResponse,
    ReadIndex,
    ReadIndexResponse,
}

/// A message between Raft nodes.
#[derive(Clone, Debug, PartialEq, Eq)]
pub struct RaftMessage {
    pub msg_type: MessageType,
    pub log_term: u64,
    pub index: u64,
    pub entries: Vec<Entry>,
    pub from: u64,
    pub to: u64,
    pub commit_index: Option<u64>,
    pub commit_term: Option<u64>,
    pub reject: bool,
}

/// The mathematical value of a message: its fields, with the entries as a
/// sequence.
pub struct MessageModel {
    pub msg_type: MessageType,
    pub log_term: u64,
    pub index: u64,
    pub entries: Seq<Entry>,
    pub from: u64,
    pub to: u64,
    pub commit_index: Option<u64>,
    pub commit_term: Option<u64>,
    pub reject: bool,
}

impl View for RaftMessage {
    type V = MessageModel;

    open spec fn view(&self) -> MessageModel {
        MessageModel {
            msg_type: self.msg_type,
            log_term: self.log_term,
            index: self.index,
            entries: self.entries@,
            from: self.from,
            to: self.to,
            commit_index: self.commit_index,
            commit_term: self.commit_term,
            reject: self.reject,
        }
    }
}

impl DeepView for RaftMessage {
    type V = MessageModel;

    open spec fn deep_view(&self) -> MessageModel {
        self@
    }
}

/// Copies a sequence of entries one by one.
pub fn copy_entries(entries: &Vec<Entry>) -> (out: Vec<Entry>)
    ensures
        out@ == entries@,
{
    let mut out: Vec<Entry> = Vec::new();
    let mut i: usize = 0;
    while i < entries.len()
        invariant
            i <= entries.len(),
            out@ == entries@.subrange(0, i as int),
        decreases entries.len() - i,
    {
        out.push(entries[i]);
        i = i + 1;
        assert(out@ =~= entries@.subrange(0, i as int));
    }
    assert(out@ =~= entries@);
    out
}

impl RaftMessage {
    /// A field-by-field copy of the message.
    pub fn duplicate(&self) -> (m: RaftMessage)
        ensures
            m@ == self@,
    {
        RaftMessage {
            msg_type: self.msg_type,
            log_term: self.log_term,
            index: self.index,
            entries: copy_entries(&self.entries),
            from: self.from,
            to: self.to,
            commit_index: self.commit_index,
            commit_term: self.commit_term,
            reject: self.reject,
        }
    }
}

} // verus!
