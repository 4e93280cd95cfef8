//! In-memory storage of a Raft log: the hard state, the entries that follow
//! the last snapshot, and the snapshot's metadata.

use vstd::prelude::*;

use crate::error::{RaftError, RaftResult};
use crate::raft_rpc::{Entry, HardState, Snapshot, SnapshotMetadata};

verus! {

/// What a node recovers on start: its hard state.
#[derive(Debug)]
pub struct RaftState {
    pub hard_state: HardState,
}

impl RaftState {
    pub fn new() -> (rs: RaftState)
        ensures
            rs.hard_state == (HardState { term: 0, vote: 0, commit_index: 0 }),
    {
        RaftState { hard_state: HardState::new() }
    }
}

impl Default for RaftState {
    fn default() -> (rs: RaftState)
        ensures
            rs.hard_state == (HardState { term: 0, vote: 0, commit_index: 0 }),
    {
        RaftState::new()
    }
}

/// The interface a log storage offers to a Raft node.
pub trait StorageTest {
    fn initial_state(&self) -> RaftResult<RaftState>;

    fn entries(&self, low: u64, high: u64) -> RaftResult<Vec<Entry>>;

    fn term(&self, idx: u64) -> RaftResult<u64>;

    fn first_index(&self) -> RaftResult<u64>;

    fn last_index(&self) -> RaftResult<u64>;

    fn snapshot(&self, request_index: u64, to: u64) -> RaftResult<Snapshot>;
}

/// Marker for the storages a Raft node can be built on.
pub trait Storage {
}

/// Whether the entries carry consecutive indices.
pub open spec fn consecutive(entries: Seq<Entry>) -> bool {
    forall|i: int|
        0 <= i < entries.len() ==> #[trigger] entries[i].commit_index == entries[0].commit_index
            + i
}

/// The mathematical value of a `MemStorageInner`.
pub struct StorageModel {
    pub hard_state: HardState,
    pub entries: Seq<Entry>,
    pub snapshot_metadata: SnapshotMetadata,
    pub snapshot_unavailable: bool,
    pub log_unavailable: bool,
}

impl StorageModel {
    /// The index of the first entry held, or the one after the snapshot when
    /// no entry is held.
    pub open spec fn first_index(self) -> int {
        if self.entries.len() > 0 {
            self.entries[0].commit_index as int
        } else {
            self.snapshot_metadata.index + 1
        }
    }

    /// The index of the last entry held, or the snapshot's when no entry is
    /// held.
    pub open spec fn last_index(self) -> int {
        if self.entries.len() > 0 {
            self.entries.last().commit_index as int
        } else {
            self.snapshot_metadata.index as int
        }
    }

    pub open spec fn has_entry_at(self, index: int) -> bool {
        self.entries.len() > 0 && self.first_index() <= index <= self.last_index()
    }

    /// The stored entries carry consecutive indices.
    pub open spec fn contiguous(self) -> bool {
        consecutive(self.entries)
    }

    /// The position in `entries` of the entry with index `index`.
    pub open spec fn offset_of(self, index: int) -> int {
        index - self.entries[0].commit_index
    }

    /// The storage once `index` is recorded as committed, with the term of
    /// the entry stored there.
    pub open spec fn committed(self, index: u64) -> StorageModel {
        StorageModel {
            hard_state: HardState {
                commit_index: index,
                term: self.entries[self.offset_of(index as int)].term,
                ..self.hard_state
            },
            ..self
        }
    }

    /// The storage once the snapshot described by `meta` replaces the log:
    /// the entries are dropped, the commit index moves to the snapshot's
    /// index and the term rises to the snapshot's term if that is greater.
    pub open spec fn applied(self, meta: SnapshotMetadata) -> StorageModel {
        StorageModel {
            hard_state: HardState {
                term: if self.hard_state.term >= meta.term {
                    self.hard_state.term
                } else {
                    meta.term
                },
                commit_index: meta.index,
                ..self.hard_state
            },
            entries: Seq::<Entry>::empty(),
            snapshot_metadata: meta,
            ..self
        }
    }

    /// The snapshot that ends at the committed index, with that entry's term
    /// (the snapshot's own term when nothing was committed since it).
    pub open spec fn snapshot_at_commit(self) -> Snapshot {
        Snapshot {
            metadata: Some(
                SnapshotMetadata {
                    index: self.hard_state.commit_index,
                    term: if self.hard_state.commit_index == self.snapshot_metadata.index {
                        self.snapshot_metadata.term
                    } else {
                        self.entries[self.offset_of(self.hard_state.commit_index as int)].term
                    },
                },
            ),
        }
    }

    /// The storage without the entries before `index`.
    pub open spec fn compacted(self, index: u64) -> StorageModel {
        if index <= self.first_index() {
            self
        } else {
            StorageModel { entries: self.entries.skip(self.offset_of(index as int)), ..self }
        }
    }

    /// The storage once `entries` is appended: the stored entries from the
    /// index of the first new one on are replaced by the new ones.
    pub open spec fn appended(self, entries: Seq<Entry>) -> StorageModel {
        if entries.len() == 0 {
            self
        } else {
            StorageModel {
                entries: self.entries.take(entries[0].commit_index - self.first_index()) + entries,
                ..self
            }
        }
    }

    /// Whether `snapshot` may be called: the commit index does not precede
    /// the snapshot, and an entry is stored at it when it follows the
    /// snapshot.
    pub open spec fn can_snapshot(self) -> bool {
        &&& self.hard_state.commit_index >= self.snapshot_metadata.index
        &&& self.hard_state.commit_index > self.snapshot_metadata.index ==> {
            &&& self.entries.len() > 0
            &&& self.hard_state.commit_index >= self.entries[0].commit_index
            &&& self.offset_of(self.hard_state.commit_index as int) < self.entries.len()
        }
    }

    /// Whether `append(entries)` may be called: the first new entry falls
    /// between the first stored index and the one after the last.
    pub open spec fn can_append(self, entries: Seq<Entry>) -> bool {
        entries.len() > 0 ==> {
            &&& self.entries.len() > 0 || self.snapshot_metadata.index < u64::MAX
            &&& self.first_index() <= entries[0].commit_index
            &&& self.last_index() < u64::MAX
            &&& entries[0].commit_index <= self.last_index() + 1
            &&& entries[0].commit_index - self.first_index() <= self.entries.len()
        }
    }

    /// Whether `compact(index)` may be called.
    pub open spec fn can_compact(self, index: u64) -> bool {
        &&& self.entries.len() > 0 || self.snapshot_metadata.index < u64::MAX
        &&& index > self.first_index() ==> {
            &&& self.last_index() < u64::MAX
            &&& index <= self.last_index() + 1
            &&& self.entries.len() > 0 ==> self.offset_of(index as int) <= self.entries.len()
        }
    }
}

/// The in-memory storage of a Raft log.
#[derive(Debug)]
pub struct MemStorageInner {
    raft_state: RaftState,
    entries: Vec<Entry>,
    snapshot_metadata: SnapshotMetadata,
    snapshot_unavailable: bool,
    log_unavailable: bool,
}

impl View for MemStorageInner {
    type V = StorageModel;

    closed spec fn view(&self) -> StorageModel {
        StorageModel {
            hard_state: self.raft_state.hard_state,
            entries: self.entries@,
            snapshot_metadata: self.snapshot_metadata,
            snapshot_unavailable: self.snapshot_unavailable,
            log_unavailable: self.log_unavailable,
        }
    }
}

impl Default for MemStorageInner {
    fn default() -> (s: MemStorageInner)
        ensures
            s@.hard_state == (HardState { term: 0, vote: 0, commit_index: 0 }),
            s@.entries == Seq::<Entry>::empty(),
            s@.snapshot_metadata == (SnapshotMetadata { index: 0, term: 0 }),
            !s@.snapshot_unavailable,
            !s@.log_unavailable,
    {
        MemStorageInner::new()
    }
}

impl MemStorageInner {
    /// An empty storage: zero hard state, no entries, an all-zero snapshot.
    pub fn new() -> (s: MemStorageInner)
        ensures
            s@.hard_state == (HardState { term: 0, vote: 0, commit_index: 0 }),
            s@.entries == Seq::<Entry>::empty(),
            s@.snapshot_metadata == (SnapshotMetadata { index: 0, term: 0 }),
            !s@.snapshot_unavailable,
            !s@.log_unavailable,
    {
        MemStorageInner {
            raft_state: RaftState::new(),
            entries: Vec::new(),
            snapshot_metadata: SnapshotMetadata::new(),
            snapshot_unavailable: false,
            log_unavailable: false,
        }
    }

    pub fn set_hardstate(&mut self, hs: HardState)
        ensures
            final(self)@ == (StorageModel { hard_state: hs, ..old(self)@ }),
    {
        self.raft_state.hard_state = hs;
    }

    pub fn hard_state(&self) -> (hs: &HardState)
        ensures
            *hs == self@.hard_state,
    {
        &self.raft_state.hard_state
    }

    pub fn first_index(&self) -> (idx: u64)
        requires
            self@.entries.len() > 0 || self@.snapshot_metadata.index < u64::MAX,
        ensures
            idx == self@.first_index(),
    {
        if self.entries.len() > 0 {
            self.entries[0].commit_index
        } else {
            self.snapshot_metadata.index + 1
        }
    }

    pub fn last_index(&self) -> (idx: u64)
        ensures
            idx == self@.last_index(),
    {
        if self.entries.len() > 0 {
            self.entries[self.entries.len() - 1].commit_index
        } else {
            self.snapshot_metadata.index
        }
    }

    pub fn has_entry_at(&self, index: u64) -> (b: bool)
        ensures
            b == self@.has_entry_at(index as int),
    {
        self.entries.len() > 0 && index >= self.first_index() && index <= self.last_index()
    }

    /// Records `index` as committed, with the term of the entry stored there.
    pub fn commit_to_index(&mut self, index: u64) -> (r: RaftResult<()>)
        requires
            old(self)@.has_entry_at(index as int),
            old(self)@.offset_of(index as int) < old(self)@.entries.len(),
        ensures
            r is Ok,
            final(self)@ == old(self)@.committed(index),
    {
        let d: u64 = index - self.entries[0].commit_index;
        assert(d < self.entries.len());
        let offset = d as usize;
        self.raft_state.hard_state.commit_index = index;
        self.raft_state.hard_state.term = self.entries[offset].term;
        Ok(())
    }

    /// Replaces the log by a snapshot. A snapshot without metadata leaves the
    /// storage as it is; one that ends before the first index held is out of
    /// date: it is refused and the storage is left as it is.
    pub fn apply_snapshot(&mut self, snapshot: Snapshot) -> (r: RaftResult<()>)
        requires
            snapshot.metadata is Some ==> (old(self)@.entries.len() > 0
                || old(self)@.snapshot_metadata.index < u64::MAX),
        ensures
            match snapshot.metadata {
                None => r is Ok && final(self)@ == old(self)@,
                Some(meta) => if old(self)@.first_index() > meta.index {
                    r matches Err(RaftError::SnapshotOutOfDate) && final(self)@ == old(self)@
                } else {
                    r is Ok && final(self)@ == old(self)@.applied(meta)
                },
            },
    {
        let meta = match snapshot.metadata {
            Some(meta) => meta,
            None => {
                return Ok(());
            },
        };
        let index = meta.index;
        if self.first_index() > index {
            return Err(RaftError::SnapshotOutOfDate);
        }
        self.snapshot_metadata = meta;
        if self.raft_state.hard_state.term < self.snapshot_metadata.term {
            self.raft_state.hard_state.term = self.snapshot_metadata.term;
        }
        self.raft_state.hard_state.commit_index = index;
        self.entries.clear();
        Ok(())
    }

    /// A snapshot that ends at the committed index, with that entry's term.
    pub fn snapshot(&self) -> (snap: Snapshot)
        requires
            self@.can_snapshot(),
        ensures
            snap == self@.snapshot_at_commit(),
    {
        let index = self.raft_state.hard_state.commit_index;
        let term = if index == self.snapshot_metadata.index {
            self.snapshot_metadata.term
        } else {
            let d: u64 = index - self.entries[0].commit_index;
            assert(d < self.entries.len());
            self.entries[d as usize].term
        };
        Snapshot { metadata: Some(SnapshotMetadata { index, term }) }
    }

    /// Drops the entries before `index`. An index at or before the first
    /// entry leaves the storage as it is.
    pub fn compact(&mut self, index: u64) -> (r: RaftResult<()>)
        requires
            old(self)@.can_compact(index),
        ensures
            r is Ok,
            final(self)@ == old(self)@.compacted(index),
    {
        if index <= self.first_index() {
            return Ok(());
        }
        if self.entries.len() > 0 {
            let offset: u64 = index - self.entries[0].commit_index;
            assert(offset <= self.entries.len());
            let rest = self.entries.split_off(offset as usize);
            self.entries = rest;
        }
        Ok(())
    }

    /// Appends `entries`, first dropping every stored entry at or after the
    /// index of the first one.
    pub fn append(&mut self, entries: &[Entry]) -> (r: RaftResult<()>)
        requires
            old(self)@.can_append(entries@),
        ensures
            r is Ok,
            final(self)@ == old(self)@.appended(entries@),
    {
        if entries.len() == 0 {
            return Ok(());
        }
        let offset: u64 = entries[0].commit_index - self.first_index();
        assert(offset <= self.entries.len());
        self.entries.truncate(offset as usize);
        let mut i: usize = 0;
        let ghost kept = self.entries@;
        let ghost pre = self@;
        while i < entries.len()
            invariant
                i <= entries@.len(),
                self.entries@ == kept + entries@.subrange(0, i as int),
                self@ == (StorageModel { entries: self.entries@, ..pre }),
            decreases entries@.len() - i,
        {
            self.entries.push(entries[i]);
            i = i + 1;
            assert(self.entries@ =~= kept + entries@.subrange(0, i as int));
        }
        assert(entries@.subrange(0, entries@.len() as int) =~= entries@);
        Ok(())
    }

    pub fn set_snapshot_unavailable(&mut self)
        ensures
            final(self)@ == (StorageModel { snapshot_unavailable: true, ..old(self)@ }),
    {
        self.snapshot_unavailable = true;
    }

    pub fn set_log_unavailable(&mut self, state: bool)
        ensures
            final(self)@ == (StorageModel { log_unavailable: state, ..old(self)@ }),
    {
        self.log_unavailable = state;
    }
}

/// Taking a snapshot right after applying one gives back the applied
/// snapshot's metadata.
pub proof fn law_snapshot_round_trip(s: StorageModel, meta: SnapshotMetadata)
    ensures
        s.applied(meta).can_snapshot(),
        s.applied(meta).snapshot_at_commit() == (Snapshot { metadata: Some(meta) }),
{
}

/// Reading the hard state gives what was last written.
pub proof fn law_hard_state_read_after_write(s: StorageModel, hs: HardState)
    ensures
        (StorageModel { hard_state: hs, ..s }).hard_state == hs,
{
}

/// Applying a snapshot, committing, and setting the hard state or the
/// availability flags keep a log of consecutive entries consecutive.
pub proof fn law_other_writes_keep_log_consecutive(
    s: StorageModel,
    meta: SnapshotMetadata,
    index: u64,
    hs: HardState,
    flag: bool,
)
    requires
        s.contiguous(),
    ensures
        s.applied(meta).contiguous(),
        s.committed(index).contiguous(),
        (StorageModel { hard_state: hs, ..s }).contiguous(),
        (StorageModel { snapshot_unavailable: true, ..s }).contiguous(),
        (StorageModel { log_unavailable: flag, ..s }).contiguous(),
{
}

/// Appending a run of consecutive entries to a log of consecutive entries
/// keeps the log consecutive; the log then ends at the last new entry and
/// holds every new index.
pub proof fn law_append_keeps_log_consecutive(s: StorageModel, entries: Seq<Entry>)
    requires
        s.contiguous(),
        consecutive(entries),
        entries.len() > 0,
        s.can_append(entries),
    ensures
        s.appended(entries).contiguous(),
        s.appended(entries).last_index() == entries.last().commit_index,
        forall|i: int|
            0 <= i < entries.len() ==> s.appended(entries).has_entry_at(
                #[trigger] entries[i].commit_index as int,
            ),
{
    let a = s.appended(entries);
    let off = entries[0].commit_index - s.first_index();
    assert(a.entries.len() == off + entries.len());
    assert forall|i: int| 0 <= i < a.entries.len() implies #[trigger] a.entries[i].commit_index
        == a.entries[0].commit_index + i by {
        if off > 0 {
            assert(a.entries[0] == s.entries[0]);
            if i < off {
                assert(a.entries[i] == s.entries[i]);
            } else {
                assert(a.entries[i] == entries[i - off]);
            }
        } else {
            assert(a.entries[i] == entries[i]);
        }
    }
    assert(a.entries.last() == entries.last());
}

/// In a log of consecutive entries, the entry stored at each held index
/// carries that index, so `commit_to_index` can be called on every held
/// index.
pub proof fn law_held_index_is_committable(s: StorageModel, index: u64)
    requires
        s.contiguous(),
        s.has_entry_at(index as int),
    ensures
        0 <= s.offset_of(index as int) < s.entries.len(),
        s.entries[s.offset_of(index as int)].commit_index == index,
{
    let n = s.entries.len() - 1;
    assert(s.entries[n].commit_index == s.entries[0].commit_index + n);
    let k = s.offset_of(index as int);
    assert(s.entries[k].commit_index == s.entries[0].commit_index + k);
}

/// Once an index that follows the snapshot is committed, a snapshot ends at
/// that index with the term of the entry stored there.
pub proof fn law_snapshot_after_commit(s: StorageModel, index: u64)
    requires
        s.contiguous(),
        s.has_entry_at(index as int),
        s.entries[0].commit_index > s.snapshot_metadata.index,
    ensures
        s.committed(index).can_snapshot(),
        s.committed(index).snapshot_at_commit() == (Snapshot {
            metadata: Some(
                SnapshotMetadata { index, term: s.entries[s.offset_of(index as int)].term },
            ),
        }),
{
    law_held_index_is_committable(s, index);
}

/// Compacting a log of consecutive entries keeps it consecutive and keeps
/// every index from the compaction index on; a log left non-empty starts at
/// the compaction index.
pub proof fn law_compact_keeps_later_entries(s: StorageModel, index: u64)
    requires
        s.contiguous(),
        s.can_compact(index),
        index > s.first_index(),
    ensures
        s.compacted(index).contiguous(),
        s.compacted(index).entries.len() > 0 ==> s.compacted(index).first_index() == index,
        forall|i: int|
            index <= i && #[trigger] s.has_entry_at(i) ==> s.compacted(index).has_entry_at(i),
{
    let c = s.compacted(index);
    let off = s.offset_of(index as int);
    let n = s.entries.len() - 1;
    assert(s.entries[n].commit_index == s.entries[0].commit_index + n);
    assert forall|i: int| 0 <= i < c.entries.len() implies #[trigger] c.entries[i].commit_index
        == c.entries[0].commit_index + i by {
        assert(c.entries[i] == s.entries[off + i]);
        assert(c.entries[0] == s.entries[off]);
    }
    if c.entries.len() > 0 {
        assert(c.entries[0] == s.entries[off]);
        assert(c.entries.last() == s.entries.last());
    }
}

/// Appending keeps every stored entry whose index precedes the first new
/// one, at its place, and keeps the first index of the log; the new entries
/// follow the kept ones.
pub proof fn law_append_keeps_earlier_entries(s: StorageModel, entries: Seq<Entry>)
    requires
        s.contiguous(),
        consecutive(entries),
        entries.len() > 0,
        s.can_append(entries),
    ensures
        s.appended(entries).first_index() == s.first_index(),
        forall|i: int|
            0 <= i < s.entries.len() && s.entries[i].commit_index < entries[0].commit_index
                ==> #[trigger] s.appended(entries).entries[i] == s.entries[i],
        forall|i: int|
            0 <= i < s.entries.len() && s.entries[i].commit_index < entries[0].commit_index
                ==> s.appended(entries).has_entry_at(#[trigger] s.entries[i].commit_index as int),
        forall|j: int|
            0 <= j < entries.len() ==> #[trigger] s.appended(entries).entries[s.appended(
                entries,
            ).entries.len() - entries.len() + j] == entries[j],
{
    let a = s.appended(entries);
    let off = entries[0].commit_index - s.first_index();
    law_append_keeps_log_consecutive(s, entries);
    assert(a.entries.len() == off + entries.len());
    if s.entries.len() > 0 {
        assert forall|i: int|
            0 <= i < s.entries.len() && s.entries[i].commit_index < entries[0].commit_index
                implies i < off by {
            assert(s.entries[i].commit_index == s.entries[0].commit_index + i);
        }
        if off > 0 {
            assert(a.entries[0] == s.entries[0]);
        }
    }
    assert forall|i: int|
        0 <= i < s.entries.len() && s.entries[i].commit_index < entries[0].commit_index
            implies #[trigger] a.entries[i] == s.entries[i] && a.has_entry_at(
            s.entries[i].commit_index as int,
        ) by {
        assert(s.entries[i].commit_index == s.entries[0].commit_index + i);
        assert(a.entries[i] == s.entries[i]);
        let n = a.entries.len() - 1;
        assert(a.entries[n].commit_index == a.entries[0].commit_index + n);
        assert(a.entries[i].commit_index == a.entries[0].commit_index + i);
    }
    assert forall|j: int| 0 <= j < entries.len() implies #[trigger] a.entries[a.entries.len()
        - entries.len() + j] == entries[j] by {
        assert(a.entries[off + j] == entries[j]);
    }
}

} // verus!
