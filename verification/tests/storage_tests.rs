use mykv::raft_rpc::{Entry, HardState, Snapshot, SnapshotMetadata};
use mykv::error::RaftError;
use mykv::storage::MemStorageInner;

fn entries(first: u64, terms: &[u64]) -> Vec<Entry> {
    terms
        .iter()
        .enumerate()
        .map(|(i, t)| Entry { term: *t, commit_index: first + i as u64 })
        .collect()
}

#[test]
fn empty_storage_indices() {
    let s = MemStorageInner::new();
    assert_eq!(s.first_index(), 1);
    assert_eq!(s.last_index(), 0);
    assert!(!s.has_entry_at(0));
    assert!(!s.has_entry_at(1));
    assert_eq!(*s.hard_state(), HardState { term: 0, vote: 0, commit_index: 0 });
}

#[test]
fn set_hardstate_then_read() {
    let mut s = MemStorageInner::new();
    let hs = HardState { term: 4, vote: 2, commit_index: 9 };
    s.set_hardstate(hs);
    assert_eq!(*s.hard_state(), hs);
}

#[test]
fn append_to_empty_log() {
    let mut s = MemStorageInner::new();
    assert!(s.append(&entries(1, &[1, 1, 2])).is_ok());
    assert_eq!(s.first_index(), 1);
    assert_eq!(s.last_index(), 3);
    assert!(s.has_entry_at(1));
    assert!(s.has_entry_at(3));
    assert!(!s.has_entry_at(4));
}

#[test]
fn append_nothing_changes_nothing() {
    let mut s = MemStorageInner::new();
    s.append(&entries(1, &[1, 2])).unwrap();
    s.append(&[]).unwrap();
    assert_eq!(s.first_index(), 1);
    assert_eq!(s.last_index(), 2);
}

#[test]
fn append_overwrites_the_tail() {
    let mut s = MemStorageInner::new();
    s.append(&entries(1, &[1, 1, 1, 1])).unwrap();
    s.append(&entries(3, &[5])).unwrap();
    assert_eq!(s.last_index(), 3);
    s.commit_to_index(3).unwrap();
    assert_eq!(*s.hard_state(), HardState { term: 5, vote: 0, commit_index: 3 });
    s.commit_to_index(2).unwrap();
    assert_eq!(s.hard_state().term, 1);
}

#[test]
fn commit_to_index_takes_term_of_entry() {
    let mut s = MemStorageInner::new();
    s.append(&entries(1, &[1, 2, 3])).unwrap();
    s.set_hardstate(HardState { term: 7, vote: 3, commit_index: 0 });
    s.commit_to_index(2).unwrap();
    assert_eq!(*s.hard_state(), HardState { term: 2, vote: 3, commit_index: 2 });
}

#[test]
fn apply_snapshot_without_metadata_is_ignored() {
    let mut s = MemStorageInner::new();
    s.append(&entries(1, &[1, 2])).unwrap();
    s.apply_snapshot(Snapshot { metadata: None }).unwrap();
    assert_eq!(s.last_index(), 2);
    assert_eq!(s.hard_state().commit_index, 0);
}

#[test]
fn apply_snapshot_replaces_the_log() {
    let mut s = MemStorageInner::new();
    s.append(&entries(1, &[1, 2])).unwrap();
    s.set_hardstate(HardState { term: 3, vote: 1, commit_index: 1 });
    let meta = SnapshotMetadata { index: 10, term: 2 };
    s.apply_snapshot(Snapshot { metadata: Some(meta) }).unwrap();
    assert_eq!(s.first_index(), 11);
    assert_eq!(s.last_index(), 10);
    assert_eq!(*s.hard_state(), HardState { term: 3, vote: 1, commit_index: 10 });
    let meta = SnapshotMetadata { index: 12, term: 8 };
    s.apply_snapshot(Snapshot { metadata: Some(meta) }).unwrap();
    assert_eq!(s.hard_state().term, 8);
}

#[test]
fn snapshot_round_trip() {
    let mut s = MemStorageInner::new();
    s.append(&entries(1, &[1, 1])).unwrap();
    let meta = SnapshotMetadata { index: 7, term: 3 };
    s.apply_snapshot(Snapshot { metadata: Some(meta) }).unwrap();
    assert_eq!(s.snapshot(), Snapshot { metadata: Some(meta) });
}

#[test]
fn snapshot_after_commit() {
    let mut s = MemStorageInner::new();
    s.append(&entries(1, &[1, 2, 4])).unwrap();
    s.commit_to_index(3).unwrap();
    assert_eq!(
        s.snapshot(),
        Snapshot { metadata: Some(SnapshotMetadata { index: 3, term: 4 }) }
    );
}

#[test]
fn snapshot_of_fresh_storage() {
    let s = MemStorageInner::new();
    assert_eq!(
        s.snapshot(),
        Snapshot { metadata: Some(SnapshotMetadata { index: 0, term: 0 }) }
    );
}

#[test]
fn compact_drops_earlier_entries() {
    let mut s = MemStorageInner::new();
    s.append(&entries(1, &[1, 2, 3, 4])).unwrap();
    s.compact(3).unwrap();
    assert_eq!(s.first_index(), 3);
    assert_eq!(s.last_index(), 4);
    assert!(!s.has_entry_at(2));
    assert!(s.has_entry_at(3));
}

#[test]
fn compact_at_or_before_first_is_ignored() {
    let mut s = MemStorageInner::new();
    s.append(&entries(1, &[1, 2])).unwrap();
    s.compact(1).unwrap();
    s.compact(0).unwrap();
    assert_eq!(s.first_index(), 1);
    assert_eq!(s.last_index(), 2);
}

#[test]
fn compact_everything() {
    let mut s = MemStorageInner::new();
    s.append(&entries(1, &[1, 2])).unwrap();
    s.compact(3).unwrap();
    assert_eq!(s.first_index(), 1);
    assert_eq!(s.last_index(), 0);
}

#[test]
fn unavailability_flags_do_not_touch_the_log() {
    let mut s = MemStorageInner::new();
    s.append(&entries(1, &[1])).unwrap();
    s.set_snapshot_unavailable();
    s.set_log_unavailable(true);
    s.set_log_unavailable(false);
    assert_eq!(s.last_index(), 1);
}

#[test]
fn outdated_snapshot_is_refused() {
    let mut s = MemStorageInner::new();
    s.append(&entries(1, &[1, 2])).unwrap();
    let r = s.apply_snapshot(Snapshot { metadata: Some(SnapshotMetadata { index: 0, term: 1 }) });
    assert!(matches!(r, Err(RaftError::SnapshotOutOfDate)));
    assert_eq!(s.first_index(), 1);
    assert_eq!(s.last_index(), 2);
    s.apply_snapshot(Snapshot { metadata: Some(SnapshotMetadata { index: 10, term: 2 }) }).unwrap();
    s.set_hardstate(HardState { term: 3, vote: 1, commit_index: 10 });
    let r = s.apply_snapshot(Snapshot { metadata: Some(SnapshotMetadata { index: 5, term: 9 }) });
    assert!(matches!(r, Err(RaftError::SnapshotOutOfDate)));
    assert_eq!(s.first_index(), 11);
    assert_eq!(*s.hard_state(), HardState { term: 3, vote: 1, commit_index: 10 });
    assert_eq!(s.snapshot(), Snapshot { metadata: Some(SnapshotMetadata { index: 10, term: 2 }) });
}
