use raftify::error::Error;
use raftify::storage::{LogEntry, LogStore, Snapshot, SnapshotMeta};

fn entry(index: u64, term: u64, data: Vec<u8>) -> LogEntry {
    LogEntry {
        index,
        term,
        data,
        context: None,
        conf: None,
    }
}

#[test]
fn append_then_load_returns_all_completed_batches() {
    let mut store = LogStore::new();
    assert!(store
        .append(vec![entry(1, 1, vec![1]), entry(2, 1, vec![2])])
        .is_ok());
    assert!(store.append(vec![entry(3, 1, vec![3])]).is_ok());

    // a batch that would leave a gap is rejected whole: no partial batch
    assert!(matches!(
        store.append(vec![entry(7, 1, vec![7]), entry(8, 1, vec![8])]),
        Err(Error::LogGap)
    ));

    // simulated crash and reload
    let durable = store.load();
    let reloaded = LogStore::from_state(durable);
    let state = reloaded.load();
    assert_eq!(state.entries.len(), 3);
    for (i, e) in state.entries.iter().enumerate() {
        assert_eq!(e.index, (i + 1) as u64);
        assert_eq!(e.data, vec![(i + 1) as u8]);
    }
}

#[test]
fn append_batch_is_atomic() {
    let mut store = LogStore::new();
    assert!(store.append(vec![entry(1, 1, vec![1])]).is_ok());
    // an internally non-contiguous batch is rejected whole
    assert!(matches!(
        store.append(vec![entry(2, 1, vec![2]), entry(4, 1, vec![4])]),
        Err(Error::LogGap)
    ));
    let state = store.load();
    assert_eq!(state.entries.len(), 1);
    assert_eq!(state.entries[0].index, 1);
}

#[test]
fn compaction_hides_covered_entries_and_keeps_the_rest() {
    let mut store = LogStore::new();
    for i in 1u64..=6 {
        assert!(store.append(vec![entry(i, 1, vec![i as u8])]).is_ok());
    }
    store.set_commit(6);
    assert!(store.create_snapshot(vec![9, 9], 3, 1).is_ok());
    assert!(store.compact(3).is_ok());

    // entries at or below the snapshot index are gone, with a defined error
    assert!(matches!(store.entries(1, 4), Err(Error::LogCompacted)));
    assert!(matches!(store.entries(3, 5), Err(Error::LogCompacted)));

    // entries above remain intact and contiguous
    let kept = store.entries(4, 7).unwrap();
    assert_eq!(kept.len(), 3);
    for (k, e) in kept.iter().enumerate() {
        assert_eq!(e.index, 4 + k as u64);
        assert_eq!(e.data, vec![(4 + k) as u8]);
    }

    // reads past the end have their own error
    assert!(matches!(store.entries(4, 9), Err(Error::LogOutOfRange)));
    // compacting past the snapshot is refused
    assert!(matches!(store.compact(5), Err(Error::WrongArgumentError)));
}

#[test]
fn apply_snapshot_rejects_stale_and_installs_newer() {
    let mut store = LogStore::new();
    for i in 1u64..=4 {
        assert!(store.append(vec![entry(i, 1, vec![i as u8])]).is_ok());
    }
    store.set_commit(4);
    assert!(store.create_snapshot(vec![1], 2, 1).is_ok());

    // stale: does not exceed the current snapshot index
    let stale = Snapshot {
        meta: SnapshotMeta { index: 2, term: 1 },
        data: vec![0],
    };
    assert!(matches!(store.apply_snapshot(stale), Err(Error::RestoreError)));

    // newer: installs, keeps the tail beyond it
    let newer = Snapshot {
        meta: SnapshotMeta { index: 3, term: 1 },
        data: vec![7],
    };
    assert!(store.apply_snapshot(newer).is_ok());
    let state = store.load();
    assert_eq!(state.compacted, 3);
    assert_eq!(state.entries.len(), 1);
    assert_eq!(state.entries[0].index, 4);
    assert_eq!(state.hard_state.commit, 4);
    let meta = store.snapshot_meta().unwrap();
    assert_eq!(meta.index, 3);
}

#[test]
fn snapshot_creation_bounds() {
    let mut store = LogStore::new();
    assert!(store.append(vec![entry(1, 1, vec![1])]).is_ok());
    // a snapshot cannot cover more than the log holds
    assert!(matches!(store.create_snapshot(vec![], 5, 1), Err(Error::SnapshotError)));
    assert!(store.create_snapshot(vec![], 1, 1).is_ok());
    // and never regresses
    assert!(matches!(store.create_snapshot(vec![], 0, 1), Err(Error::SnapshotError)));
}

#[test]
fn overwrite_of_uncommitted_suffix() {
    let mut store = LogStore::new();
    for i in 1u64..=3 {
        assert!(store.append(vec![entry(i, 1, vec![i as u8])]).is_ok());
    }
    // a batch overlapping the uncommitted tail replaces it
    assert!(store
        .append(vec![entry(2, 2, vec![9]), entry(3, 2, vec![8])])
        .is_ok());
    let state = store.load();
    assert_eq!(state.entries.len(), 3);
    assert_eq!(state.entries[1].term, 2);
    assert_eq!(state.entries[1].data, vec![9]);
    // but nothing at or below the commit index can be overwritten
    store.set_commit(3);
    assert!(matches!(store.append(vec![entry(3, 3, vec![0])]), Err(Error::LogGap)));
}

#[test]
fn empty_batch_appends_nothing() {
    let mut store = LogStore::new();
    assert!(store.append(vec![]).is_ok());
    assert_eq!(store.load().entries.len(), 0);
    assert_eq!(store.last_index(), 0);
}

#[test]
fn reversed_range_is_a_wrong_argument() {
    let mut store = LogStore::new();
    assert!(store.append(vec![entry(1, 1, vec![1])]).is_ok());
    assert!(matches!(store.entries(2, 1), Err(Error::WrongArgumentError)));
}
