//! The durable append-only log and snapshot store, with compaction.
//!
//! The store keeps the durable triple of hard state, contiguous log
//! entries and an optional snapshot. Every mutation is atomic per
//! call: it either installs its whole effect or returns an error and
//! leaves the store exactly as it was, so a crash between calls can
//! never expose a partial batch. `load` hands out the full durable
//! state and `from_state` rebuilds a store from it, which together
//! model a crash and reload.

use vstd::prelude::*;

use crate::error::Error;

verus! {

/// A single or joint membership mutation request, carried by the log
/// entry that proposes it.
#[derive(Clone, Copy, PartialEq, Eq, Structural, Debug)]
pub enum ConfChangeType {
    AddNode,
    RemoveNode,
    AddLearnerNode,
}

/// A membership mutation: transient until the entry carrying it
/// commits or is rejected.
pub struct ConfChange {
    pub change_type: ConfChangeType,
    pub node_id: u64,
    pub address: String,
}

/// The mathematical image of a `ConfChange`.
pub ghost struct ConfChangeModel {
    pub change_type: ConfChangeType,
    pub node_id: u64,
    pub address: Seq<char>,
}

impl View for ConfChange {
    type V = ConfChangeModel;

    open spec fn view(&self) -> ConfChangeModel {
        ConfChangeModel {
            change_type: self.change_type,
            node_id: self.node_id,
            address: self.address@,
        }
    }
}

impl ConfChange {
    pub fn new(change_type: ConfChangeType, node_id: u64, address: &str) -> (r: ConfChange)
        ensures
            r@ == (ConfChangeModel { change_type, node_id, address: address@ }),
    {
        ConfChange { change_type, node_id, address: String::from_str(address) }
    }

    pub fn duplicate(&self) -> (r: ConfChange)
        ensures
            r@ == self@,
    {
        ConfChange {
            change_type: self.change_type,
            node_id: self.node_id,
            address: self.address.clone(),
        }
    }
}

/// Copies a byte vector, element by element.
pub fn dup_bytes(v: &Vec<u8>) -> (r: Vec<u8>)
    ensures
        r@ == v@,
{
    let mut r: Vec<u8> = Vec::new();
    let mut i: usize = 0;
    while i < v.len()
        invariant
            0 <= i <= v.len(),
            r@ == v@.take(i as int),
        decreases v.len() - i,
    {
        r.push(v[i]);
        proof {
            assert(r@ =~= v@.take(i + 1));
        }
        i += 1;
    }
    proof {
        assert(r@ =~= v@);
    }
    r
}

/// One log record. Index/term pairs are unique and the indexes are
/// contiguous per store.
pub struct LogEntry {
    pub index: u64,
    pub term: u64,
    pub data: Vec<u8>,
    pub context: Option<Vec<u8>>,
    pub conf: Option<ConfChange>,
}

/// The mathematical image of a `LogEntry`.
pub ghost struct EntryModel {
    pub index: u64,
    pub term: u64,
    pub data: Seq<u8>,
    pub context: Option<Seq<u8>>,
    pub conf: Option<ConfChangeModel>,
}

impl View for LogEntry {
    type V = EntryModel;

    open spec fn view(&self) -> EntryModel {
        EntryModel {
            index: self.index,
            term: self.term,
            data: self.data@,
            context: match self.context {
                Some(c) => Some(c@),
                None => None,
            },
            conf: match self.conf {
                Some(c) => Some(c@),
                None => None,
            },
        }
    }
}

impl LogEntry {
    pub fn duplicate(&self) -> (r: LogEntry)
        ensures
            r@ == self@,
    {
        LogEntry {
            index: self.index,
            term: self.term,
            data: dup_bytes(&self.data),
            context: match &self.context {
                Some(c) => Some(dup_bytes(c)),
                None => None,
            },
            conf: match &self.conf {
                Some(c) => Some(c.duplicate()),
                None => None,
            },
        }
    }
}

/// The view of a whole entry sequence.
pub open spec fn entries_view(s: Seq<LogEntry>) -> Seq<EntryModel> {
    s.map(|i: int, e: LogEntry| e@)
}

/// The minimal durable algorithm state: current term, vote and commit
/// index.
#[derive(Clone, Copy, PartialEq, Eq, Structural, Debug)]
pub struct HardState {
    pub term: u64,
    pub vote: u64,
    pub commit: u64,
}

/// What identifies a snapshot: the last log position it covers.
#[derive(Clone, Copy, PartialEq, Eq, Structural, Debug)]
pub struct SnapshotMeta {
    pub index: u64,
    pub term: u64,
}

/// A serialized state machine together with the log position it
/// covers.
pub struct Snapshot {
    pub meta: SnapshotMeta,
    pub data: Vec<u8>,
}

/// The mathematical image of a `Snapshot`.
pub ghost struct SnapshotModel {
    pub index: u64,
    pub term: u64,
    pub data: Seq<u8>,
}

impl View for Snapshot {
    type V = SnapshotModel;

    open spec fn view(&self) -> SnapshotModel {
        SnapshotModel { index: self.meta.index, term: self.meta.term, data: self.data@ }
    }
}

impl Snapshot {
    pub fn duplicate(&self) -> (r: Snapshot)
        ensures
            r@ == self@,
    {
        Snapshot { meta: self.meta, data: dup_bytes(&self.data) }
    }
}

/// The abstract durable state of one store.
pub ghost struct StorageModel {
    pub hard_state: HardState,
    /// The highest discarded index: entries start at `compacted + 1`.
    pub compacted: u64,
    pub entries: Seq<EntryModel>,
    pub snapshot: Option<SnapshotModel>,
}

/// The last appended index, or `compacted` for an empty log.
pub open spec fn spec_last_index(m: StorageModel) -> int {
    m.compacted + m.entries.len()
}

/// Well-formedness of a store: the log is contiguous from
/// `compacted + 1`, the commit index never passes the end of the log,
/// and compaction never passes the snapshot.
pub open spec fn storage_wf(m: StorageModel) -> bool {
    &&& forall|i: int|
        0 <= i < m.entries.len() ==> (#[trigger] m.entries[i].index) == m.compacted + 1 + i
    &&& m.hard_state.commit <= spec_last_index(m)
    &&& match m.snapshot {
        Some(s) => m.compacted <= s.index,
        None => m.compacted == 0,
    }
}

/// A batch is contiguous and ascending from its first index.
pub open spec fn batch_contiguous(b: Seq<EntryModel>) -> bool {
    forall|i: int| 0 <= i < b.len() ==> (#[trigger] b[i].index) == b[0].index + i
}

/// What `append` does: either the whole batch becomes durable, after
/// discarding any overlapping suffix of the log, or nothing changes.
pub open spec fn append_spec(m: StorageModel, b: Seq<EntryModel>) -> Result<StorageModel, Error> {
    if b.len() == 0 {
        Ok(m)
    } else if !batch_contiguous(b) {
        Err(Error::LogGap)
    } else if b[0].index <= m.hard_state.commit {
        Err(Error::LogGap)
    } else if b[0].index <= m.compacted {
        Err(Error::LogCompacted)
    } else if b[0].index > spec_last_index(m) + 1 {
        Err(Error::LogGap)
    } else {
        Ok(StorageModel {
            entries: m.entries.take(b[0].index - 1 - m.compacted) + b,
            ..m
        })
    }
}

/// What `entries` returns for the half-open range `[lo, hi)`.
pub open spec fn entries_spec(m: StorageModel, lo: u64, hi: u64) -> Result<Seq<EntryModel>, Error> {
    if lo > hi {
        Err(Error::WrongArgumentError)
    } else if lo <= m.compacted {
        Err(Error::LogCompacted)
    } else if hi > spec_last_index(m) + 1 {
        Err(Error::LogOutOfRange)
    } else {
        Ok(m.entries.subrange(lo - m.compacted - 1, hi - m.compacted - 1))
    }
}

/// What `create_snapshot` does: records a snapshot covering the log up
/// to `index`, never regressing an existing snapshot.
pub open spec fn create_snapshot_spec(m: StorageModel, data: Seq<u8>, index: u64, term: u64)
    -> Result<StorageModel, Error> {
    if index > spec_last_index(m) {
        Err(Error::SnapshotError)
    } else if m.snapshot is Some && index < m.snapshot.unwrap().index {
        Err(Error::SnapshotError)
    } else {
        Ok(StorageModel { snapshot: Some(SnapshotModel { index, term, data }), ..m })
    }
}

/// What `compact` does: discards entries at or below `up_to`, which
/// must already be covered by the persisted snapshot.
pub open spec fn compact_spec(m: StorageModel, up_to: u64) -> Result<StorageModel, Error> {
    match m.snapshot {
        None => Err(Error::WrongArgumentError),
        Some(s) => {
            if up_to > s.index || up_to > spec_last_index(m) {
                Err(Error::WrongArgumentError)
            } else if up_to <= m.compacted {
                Ok(m)
            } else {
                Ok(StorageModel {
                    compacted: up_to,
                    entries: m.entries.skip(up_to - m.compacted),
                    ..m
                })
            }
        },
    }
}

/// What `apply_snapshot` does: installs a strictly newer snapshot,
/// keeps any log tail beyond it, and advances the commit index to at
/// least the snapshot position. A stale snapshot is rejected.
pub open spec fn apply_snapshot_spec(m: StorageModel, snap: SnapshotModel)
    -> Result<StorageModel, Error> {
    let cur: int = match m.snapshot {
        Some(s) => s.index as int,
        None => 0,
    };
    if snap.index <= cur || snap.index <= m.compacted {
        Err(Error::RestoreError)
    } else {
        Ok(StorageModel {
            hard_state: HardState {
                term: if m.hard_state.term >= snap.term { m.hard_state.term } else { snap.term },
                vote: m.hard_state.vote,
                commit: if m.hard_state.commit >= snap.index {
                    m.hard_state.commit
                } else {
                    snap.index
                },
            },
            compacted: snap.index,
            entries: if snap.index < spec_last_index(m) {
                m.entries.skip(snap.index - m.compacted)
            } else {
                Seq::empty()
            },
            snapshot: Some(snap),
        })
    }
}

/// The durable triple handed out by `load`.
pub struct StorageState {
    pub hard_state: HardState,
    pub compacted: u64,
    pub entries: Vec<LogEntry>,
    pub snapshot: Option<Snapshot>,
}

impl View for StorageState {
    type V = StorageModel;

    open spec fn view(&self) -> StorageModel {
        StorageModel {
            hard_state: self.hard_state,
            compacted: self.compacted,
            entries: entries_view(self.entries@),
            snapshot: match self.snapshot {
                Some(s) => Some(s@),
                None => None,
            },
        }
    }
}

/// The in-process handle on one node's durable log and snapshot.
pub struct LogStore {
    hard_state: HardState,
    compacted: u64,
    entries: Vec<LogEntry>,
    snapshot: Option<Snapshot>,
}

impl View for LogStore {
    type V = StorageModel;

    closed spec fn view(&self) -> StorageModel {
        StorageModel {
            hard_state: self.hard_state,
            compacted: self.compacted,
            entries: entries_view(self.entries@),
            snapshot: match self.snapshot {
                Some(s) => Some(s@),
                None => None,
            },
        }
    }
}

impl LogStore {
    pub open spec fn wf(&self) -> bool {
        storage_wf(self@)
    }

    /// An empty store: no entries, no snapshot, zeroed hard state.
    pub fn new() -> (r: LogStore)
        ensures
            r.wf(),
            r@.hard_state == (HardState { term: 0, vote: 0, commit: 0 }),
            r@.compacted == 0,
            r@.entries == Seq::<EntryModel>::empty(),
            r@.snapshot is None,
    {
        let r = LogStore {
            hard_state: HardState { term: 0, vote: 0, commit: 0 },
            compacted: 0,
            entries: Vec::new(),
            snapshot: None,
        };
        proof {
            assert(r@.entries =~= Seq::<EntryModel>::empty());
        }
        r
    }

    pub fn hard_state(&self) -> (r: HardState)
        ensures
            r == self@.hard_state,
    {
        self.hard_state
    }

    pub fn compacted_index(&self) -> (r: u64)
        ensures
            r == self@.compacted,
    {
        self.compacted
    }

    pub fn snapshot_meta(&self) -> (r: Option<SnapshotMeta>)
        ensures
            match r {
                Some(meta) => self@.snapshot == Some(
                    SnapshotModel {
                        index: meta.index,
                        term: meta.term,
                        data: self@.snapshot.unwrap().data,
                    },
                ),
                None => self@.snapshot is None,
            },
    {
        match &self.snapshot {
            Some(s) => Some(s.meta),
            None => None,
        }
    }

    /// A copy of the stored snapshot, if any.
    pub fn snapshot(&self) -> (r: Option<Snapshot>)
        ensures
            match r {
                Some(s) => self@.snapshot == Some(s@),
                None => self@.snapshot is None,
            },
    {
        match &self.snapshot {
            Some(s) => Some(s.duplicate()),
            None => None,
        }
    }

    /// The last appended index, or the compacted index for an empty
    /// log.
    pub fn last_index(&self) -> (r: u64)
        requires
            self.wf(),
        ensures
            r == spec_last_index(self@),
    {
        if self.entries.len() == 0 {
            self.compacted
        } else {
            proof {
                assert(self@.entries[self.entries@.len() - 1].index == self.compacted
                    + self.entries@.len());
            }
            self.entries[self.entries.len() - 1].index
        }
    }

    pub fn set_term_vote(&mut self, term: u64, vote: u64)
        requires
            old(self).wf(),
        ensures
            final(self).wf(),
            final(self)@ == (StorageModel {
                hard_state: HardState { term, vote, commit: old(self)@.hard_state.commit },
                ..old(self)@
            }),
    {
        self.hard_state = HardState { term, vote, commit: self.hard_state.commit };
    }

    pub fn set_commit(&mut self, commit: u64)
        requires
            old(self).wf(),
            commit <= spec_last_index(old(self)@),
        ensures
            final(self).wf(),
            final(self)@ == (StorageModel {
                hard_state: HardState {
                    term: old(self)@.hard_state.term,
                    vote: old(self)@.hard_state.vote,
                    commit,
                },
                ..old(self)@
            }),
    {
        self.hard_state = HardState { term: self.hard_state.term, vote: self.hard_state.vote, commit };
    }

    /// The entry at `index`, which must be present in the log.
    pub fn entry_at(&self, index: u64) -> (r: LogEntry)
        requires
            self.wf(),
            self@.compacted < index <= spec_last_index(self@),
        ensures
            r@ == self@.entries[index - self@.compacted - 1],
    {
        let n = self.entries.len();
        proof {
            assert(index - self@.compacted - 1 < n as int);
        }
        let pos = (index - self.compacted - 1) as usize;
        proof {
            assert(self@.entries[pos as int] == self.entries@[pos as int]@);
        }
        self.entries[pos].duplicate()
    }

    /// Appends a batch crash-atomically: either every entry of the
    /// batch is durable afterwards, or the store is unchanged and the
    /// batch's rejection reason is returned.
    pub fn append(&mut self, batch: Vec<LogEntry>) -> (r: Result<(), Error>)
        requires
            old(self).wf(),
        ensures
            final(self).wf(),
            match r {
                Ok(_) => append_spec(old(self)@, entries_view(batch@)) == Ok::<
                    StorageModel,
                    Error,
                >(final(self)@),
                Err(e) => final(self)@ == old(self)@ && append_spec(
                    old(self)@,
                    entries_view(batch@),
                ) == Err::<StorageModel, Error>(e),
            },
    {
        let ghost m = self@;
        let ghost bv = entries_view(batch@);
        if batch.len() == 0 {
            proof {
                assert(bv.len() == 0);
            }
            return Ok(());
        }
        let first = batch[0].index;
        proof {
            assert(bv[0] == batch@[0]@);
        }
        let mut k: usize = 1;
        while k < batch.len()
            invariant
                old(self).wf(),
                self@ == old(self)@,
                1 <= k <= batch.len(),
                bv == entries_view(batch@),
                batch.len() == bv.len(),
                first == bv[0].index,
                forall|j: int| 0 <= j < k ==> (#[trigger] bv[j].index) == bv[0].index + j,
            decreases batch.len() - k,
        {
            proof {
                assert(bv[k as int] == batch@[k as int]@);
                assert(bv[k - 1] == batch@[k - 1]@);
            }
            if batch[k - 1].index == u64::MAX || batch[k].index != batch[k - 1].index + 1 {
                proof {
                    assert(!batch_contiguous(bv)) by {
                        if batch_contiguous(bv) {
                            assert(bv[k - 1].index == bv[0].index + k - 1);
                            assert(bv[k as int].index == bv[0].index + k);
                        }
                    }
                }
                return Err(Error::LogGap);
            }
            proof {
                assert(bv[k - 1].index == bv[0].index + (k - 1));
                assert(bv[k as int].index == bv[0].index + k as int);
            }
            k += 1;
        }
        proof {
            assert(batch_contiguous(bv));
        }
        if first <= self.hard_state.commit {
            return Err(Error::LogGap);
        }
        if first <= self.compacted {
            return Err(Error::LogCompacted);
        }
        let last = self.last_index();
        if first - 1 > last {
            return Err(Error::LogGap);
        }
        let n = self.entries.len();
        proof {
            assert(first - 1 - self@.compacted <= n as int);
        }
        let keep = (first - 1 - self.compacted) as usize;
        self.entries.truncate(keep);
        let mut tail = batch;
        self.entries.append(&mut tail);
        proof {
            assert(self@.entries =~= m.entries.take(first - 1 - m.compacted) + bv);
            assert(self@ == append_spec(m, bv).unwrap());
            assert(storage_wf(self@)) by {
                let e2 = self@.entries;
                let keep_n = first - 1 - m.compacted;
                assert(forall|i: int| 0 <= i < e2.len() ==> (#[trigger] e2[i].index)
                    == m.compacted + 1 + i) by {
                    assert(forall|i: int|
                        0 <= i < keep_n ==> e2[i] == m.entries.take(keep_n)[i]);
                    assert(forall|i: int|
                        keep_n <= i < e2.len() ==> e2[i] == bv[i - keep_n]);
                }
            }
        }
        Ok(())
    }

    /// The entries of the half-open range `[lo, hi)`. Reads at or
    /// below the compacted index fail with `LogCompacted`; reads past
    /// the end fail with `LogOutOfRange`.
    pub fn entries(&self, lo: u64, hi: u64) -> (r: Result<Vec<LogEntry>, Error>)
        requires
            self.wf(),
        ensures
            match r {
                Ok(v) => entries_spec(self@, lo, hi) == Ok::<Seq<EntryModel>, Error>(
                    entries_view(v@),
                ),
                Err(e) => entries_spec(self@, lo, hi) == Err::<Seq<EntryModel>, Error>(e),
            },
    {
        if lo > hi {
            return Err(Error::WrongArgumentError);
        }
        if lo <= self.compacted {
            return Err(Error::LogCompacted);
        }
        let last = self.last_index();
        if hi > last && hi - 1 > last {
            return Err(Error::LogOutOfRange);
        }
        let ghost m = self@;
        let ghost plo = lo - m.compacted - 1;
        let mut out: Vec<LogEntry> = Vec::new();
        let n = self.entries.len();
        proof {
            assert(lo - m.compacted - 1 <= n as int);
            assert(hi - m.compacted - 1 <= n as int);
        }
        let mut i = (lo - self.compacted - 1) as usize;
        let hi_pos = (hi - self.compacted - 1) as usize;
        while i < hi_pos
            invariant
                m == self@,
                self.wf(),
                0 <= plo <= i <= hi_pos <= m.entries.len(),
                entries_view(out@) =~= m.entries.subrange(plo, i as int),
            decreases hi_pos - i,
        {
            proof {
                assert(m.entries[i as int] == self.entries@[i as int]@);
            }
            let e = self.entries[i].duplicate();
            let ghost prev = out@;
            out.push(e);
            proof {
                assert(entries_view(out@) =~= m.entries.subrange(plo, i + 1)) by {
                    assert(entries_view(prev).len() == prev.len());
                    assert(prev.len() == i - plo);
                    assert(out@.len() == prev.len() + 1);
                    assert(out@[prev.len() as int]@ == m.entries[i as int]);
                    assert(forall|j: int|
                        0 <= j < out@.len() ==> entries_view(out@)[j] == out@[j]@);
                    assert(forall|j: int|
                        0 <= j < prev.len() ==> entries_view(prev)[j] == prev[j]@);
                    assert(forall|j: int| 0 <= j < prev.len() ==> out@[j] == prev[j]);
                }
            }
            i += 1;
        }
        proof {
            assert(entries_view(out@) =~= entries_spec(m, lo, hi).unwrap());
        }
        Ok(out)
    }

    /// Records a snapshot of the state machine, with the last applied
    /// position as its metadata.
    pub fn create_snapshot(&mut self, data: Vec<u8>, index: u64, term: u64) -> (r: Result<
        (),
        Error,
    >)
        requires
            old(self).wf(),
        ensures
            final(self).wf(),
            match r {
                Ok(_) => create_snapshot_spec(old(self)@, data@, index, term) == Ok::<
                    StorageModel,
                    Error,
                >(final(self)@),
                Err(e) => final(self)@ == old(self)@ && create_snapshot_spec(
                    old(self)@,
                    data@,
                    index,
                    term,
                ) == Err::<StorageModel, Error>(e),
            },
    {
        let last = self.last_index();
        if index > last {
            return Err(Error::SnapshotError);
        }
        match &self.snapshot {
            Some(s) => {
                if index < s.meta.index {
                    return Err(Error::SnapshotError);
                }
            },
            None => {},
        }
        self.snapshot = Some(Snapshot { meta: SnapshotMeta { index, term }, data });
        Ok(())
    }

    /// Discards log entries at or below `up_to`, which must already be
    /// covered by the persisted snapshot.
    pub fn compact(&mut self, up_to: u64) -> (r: Result<(), Error>)
        requires
            old(self).wf(),
        ensures
            final(self).wf(),
            match r {
                Ok(_) => compact_spec(old(self)@, up_to) == Ok::<StorageModel, Error>(
                    final(self)@,
                ),
                Err(e) => final(self)@ == old(self)@ && compact_spec(old(self)@, up_to)
                    == Err::<StorageModel, Error>(e),
            },
    {
        let ghost m = self@;
        let snap_index = match &self.snapshot {
            Some(s) => s.meta.index,
            None => {
                return Err(Error::WrongArgumentError);
            },
        };
        let last = self.last_index();
        if up_to > snap_index || up_to > last {
            return Err(Error::WrongArgumentError);
        }
        if up_to <= self.compacted {
            return Ok(());
        }
        let n = self.entries.len();
        proof {
            assert(up_to - m.compacted <= n as int);
        }
        let drop_n = (up_to - self.compacted) as usize;
        let rest = self.entries.split_off(drop_n);
        self.entries = rest;
        self.compacted = up_to;
        proof {
            assert(self@.entries =~= m.entries.skip(up_to - m.compacted));
            assert(self@ == compact_spec(m, up_to).unwrap());
            assert(storage_wf(self@)) by {
                assert(forall|i: int|
                    0 <= i < self@.entries.len() ==> self@.entries[i] == m.entries[i + (up_to
                        - m.compacted)]);
            }
        }
        Ok(())
    }

    /// Installs a snapshot received from the leader. A snapshot whose
    /// index does not exceed the current one is stale and rejected.
    pub fn apply_snapshot(&mut self, snap: Snapshot) -> (r: Result<(), Error>)
        requires
            old(self).wf(),
        ensures
            final(self).wf(),
            match r {
                Ok(_) => apply_snapshot_spec(old(self)@, snap@) == Ok::<StorageModel, Error>(
                    final(self)@,
                ),
                Err(e) => final(self)@ == old(self)@ && apply_snapshot_spec(old(self)@, snap@)
                    == Err::<StorageModel, Error>(e),
            },
    {
        let ghost m = self@;
        let cur = match &self.snapshot {
            Some(s) => s.meta.index,
            None => 0,
        };
        if snap.meta.index <= cur || snap.meta.index <= self.compacted {
            return Err(Error::RestoreError);
        }
        let last = self.last_index();
        let snap_index = snap.meta.index;
        let snap_term = snap.meta.term;
        if snap_index < last {
            let n = self.entries.len();
            proof {
                assert(snap_index - m.compacted <= n as int);
            }
            let drop_n = (snap_index - self.compacted) as usize;
            let rest = self.entries.split_off(drop_n);
            self.entries = rest;
            proof {
                assert(self@.entries =~= m.entries.skip(snap_index - m.compacted));
            }
        } else {
            self.entries = Vec::new();
            proof {
                assert(self@.entries =~= Seq::<EntryModel>::empty());
            }
        }
        self.compacted = snap_index;
        self.hard_state = HardState {
            term: if self.hard_state.term >= snap_term {
                self.hard_state.term
            } else {
                snap_term
            },
            vote: self.hard_state.vote,
            commit: if self.hard_state.commit >= snap_index {
                self.hard_state.commit
            } else {
                snap_index
            },
        };
        self.snapshot = Some(snap);
        proof {
            assert(self@ == apply_snapshot_spec(m, self@.snapshot.unwrap()).unwrap());
            assert(storage_wf(self@)) by {
                if snap_index < spec_last_index(m) {
                    assert(forall|i: int|
                        0 <= i < self@.entries.len() ==> self@.entries[i] == m.entries[i + (
                        snap_index - m.compacted)]);
                }
            }
        }
        Ok(())
    }

    /// Hands out the complete durable state.
    pub fn load(&self) -> (r: StorageState)
        ensures
            r@ == self@,
    {
        let mut out: Vec<LogEntry> = Vec::new();
        let mut i: usize = 0;
        while i < self.entries.len()
            invariant
                0 <= i <= self.entries.len(),
                entries_view(out@) =~= entries_view(self.entries@).take(i as int),
            decreases self.entries.len() - i,
        {
            proof {
                assert(entries_view(self.entries@)[i as int] == self.entries@[i as int]@);
            }
            let e = self.entries[i].duplicate();
            let ghost prev = out@;
            out.push(e);
            proof {
                assert(entries_view(out@) =~= entries_view(self.entries@).take(i + 1)) by {
                    assert(entries_view(prev).len() == prev.len());
                    assert(prev.len() == i);
                    assert(out@.len() == prev.len() + 1);
                    assert(out@[prev.len() as int]@ == self.entries@[i as int]@);
                    assert(forall|j: int|
                        0 <= j < out@.len() ==> entries_view(out@)[j] == out@[j]@);
                    assert(forall|j: int|
                        0 <= j < prev.len() ==> entries_view(prev)[j] == prev[j]@);
                    assert(forall|j: int| 0 <= j < prev.len() ==> out@[j] == prev[j]);
                    assert(forall|j: int|
                        0 <= j < self.entries@.len() ==> entries_view(self.entries@)[j]
                            == self.entries@[j]@);
                }
            }
            i += 1;
        }
        let r = StorageState {
            hard_state: self.hard_state,
            compacted: self.compacted,
            entries: out,
            snapshot: match &self.snapshot {
                Some(s) => Some(s.duplicate()),
                None => None,
            },
        };
        proof {
            assert(entries_view(r.entries@) =~= entries_view(self.entries@));
        }
        r
    }

    /// Rebuilds a store from a previously loaded durable state: the
    /// reload half of a crash-and-reload cycle.
    pub fn from_state(st: StorageState) -> (r: LogStore)
        requires
            storage_wf(st@),
        ensures
            r.wf(),
            r@ == st@,
    {
        LogStore {
            hard_state: st.hard_state,
            compacted: st.compacted,
            entries: st.entries,
            snapshot: st.snapshot,
        }
    }

    /// An independent copy of the store with the same durable state.
    pub fn duplicate(&self) -> (r: LogStore)
        requires
            self.wf(),
        ensures
            r.wf(),
            r@ == self@,
    {
        LogStore::from_state(self.load())
    }

    /// Whether the log's payload size exceeds `threshold` bytes: the
    /// compaction trigger.
    pub fn size_exceeds(&self, threshold: u64) -> (r: bool)
        ensures
            r == (spec_log_size(self@.entries) > threshold),
    {
        let mut acc: u128 = 0;
        let mut i: usize = 0;
        while i < self.entries.len()
            invariant
                0 <= i <= self.entries.len(),
                acc == spec_log_size(entries_view(self.entries@).take(i as int)),
                acc <= i * 0x1_0000_0000_0000_0000,
            decreases self.entries.len() - i,
        {
            proof {
                assert(entries_view(self.entries@).take(i + 1).drop_last() =~= entries_view(
                    self.entries@,
                ).take(i as int));
                assert(entries_view(self.entries@).take(i + 1).last() == self.entries@[i as int]@);
            }
            acc = acc + self.entries[i].data.len() as u128;
            i += 1;
        }
        proof {
            assert(entries_view(self.entries@).take(self.entries@.len() as int) =~= entries_view(
                self.entries@,
            ));
        }
        acc > threshold as u128
    }
}

/// The total payload size of a log, in bytes.
pub open spec fn spec_log_size(entries: Seq<EntryModel>) -> int
    decreases entries.len(),
{
    if entries.len() == 0 {
        0
    } else {
        spec_log_size(entries.drop_last()) + entries.last().data.len()
    }
}

/// The concatenation of a sequence of batches.
pub open spec fn concat_batches(batches: Seq<Seq<EntryModel>>) -> Seq<EntryModel>
    decreases batches.len(),
{
    if batches.len() == 0 {
        Seq::empty()
    } else {
        concat_batches(batches.drop_last()) + batches.last()
    }
}

/// The store state after a sequence of `append` calls: each batch
/// either lands whole or leaves the state untouched.
pub open spec fn apply_append_batches(m: StorageModel, batches: Seq<Seq<EntryModel>>)
    -> StorageModel
    decreases batches.len(),
{
    if batches.len() == 0 {
        m
    } else {
        let m1 = apply_append_batches(m, batches.drop_last());
        match append_spec(m1, batches.last()) {
            Ok(m2) => m2,
            Err(_) => m1,
        }
    }
}

/// Each batch in turn continues the log exactly where it then ends.
pub open spec fn batches_extend(m: StorageModel, batches: Seq<Seq<EntryModel>>) -> bool
    decreases batches.len(),
{
    if batches.len() == 0 {
        true
    } else {
        let m1 = apply_append_batches(m, batches.drop_last());
        let b = batches.last();
        &&& batches_extend(m, batches.drop_last())
        &&& (b.len() == 0 || (batch_contiguous(b) && b[0].index == spec_last_index(m1) + 1))
    }
}

/// Durability: after any sequence of `append` calls each of which
/// extends the log, the durable entries are exactly the initial
/// entries followed by the concatenation of all completed batches —
/// no partial batch ever appears, and hard state and snapshot are
/// untouched.
pub proof fn lemma_append_durability(m: StorageModel, batches: Seq<Seq<EntryModel>>)
    requires
        storage_wf(m),
        batches_extend(m, batches),
    ensures
        storage_wf(apply_append_batches(m, batches)),
        apply_append_batches(m, batches).entries == m.entries + concat_batches(batches),
        apply_append_batches(m, batches).hard_state == m.hard_state,
        apply_append_batches(m, batches).compacted == m.compacted,
        apply_append_batches(m, batches).snapshot == m.snapshot,
    decreases batches.len(),
{
    if batches.len() == 0 {
        assert(apply_append_batches(m, batches).entries =~= m.entries + concat_batches(batches));
    } else {
        let pre = batches.drop_last();
        let b = batches.last();
        lemma_append_durability(m, pre);
        let m1 = apply_append_batches(m, pre);
        if b.len() == 0 {
            assert(apply_append_batches(m, batches).entries =~= m.entries + concat_batches(
                batches,
            ));
        } else {
            assert(b[0].index == spec_last_index(m1) + 1);
            assert(b[0].index > m1.hard_state.commit);
            assert(b[0].index > m1.compacted);
            let m2 = append_spec(m1, b).unwrap();
            assert(m2.entries =~= m1.entries + b) by {
                assert(m1.entries.take(b[0].index - 1 - m1.compacted) =~= m1.entries);
            }
            assert(storage_wf(m2)) by {
                assert(forall|i: int|
                    0 <= i < m2.entries.len() ==> (#[trigger] m2.entries[i].index) == m2.compacted
                        + 1 + i) by {
                    assert(forall|i: int|
                        0 <= i < m1.entries.len() ==> m2.entries[i] == m1.entries[i]);
                    assert(forall|i: int|
                        m1.entries.len() <= i < m2.entries.len() ==> m2.entries[i] == b[i
                            - m1.entries.len()]);
                }
            }
            assert(apply_append_batches(m, batches).entries =~= m.entries + concat_batches(
                batches,
            ));
        }
    }
}

/// Compaction correctness: after compacting up to `up_to`, reads of
/// ranges that start at or below `up_to` fail with `LogCompacted`,
/// while every range strictly above `up_to` reads back exactly what it
/// read before compaction.
pub proof fn lemma_compaction_correctness(m: StorageModel, up_to: u64, lo: u64, hi: u64)
    requires
        storage_wf(m),
        compact_spec(m, up_to) is Ok,
        lo <= hi,
    ensures
        storage_wf(compact_spec(m, up_to).unwrap()),
        lo <= up_to ==> entries_spec(compact_spec(m, up_to).unwrap(), lo, hi) == Err::<
            Seq<EntryModel>,
            Error,
        >(Error::LogCompacted),
        lo > up_to ==> entries_spec(compact_spec(m, up_to).unwrap(), lo, hi) == entries_spec(
            m,
            lo,
            hi,
        ),
{
    let m2 = compact_spec(m, up_to).unwrap();
    assert(storage_wf(m2)) by {
        if up_to > m.compacted {
            assert(forall|i: int|
                0 <= i < m2.entries.len() ==> m2.entries[i] == m.entries[i + (up_to
                    - m.compacted)]);
        }
    }
    if lo > up_to && lo > m2.compacted && lo > m.compacted && hi <= spec_last_index(m) + 1 {
        if lo <= hi {
            assert(m2.entries.subrange(lo - m2.compacted - 1, hi - m2.compacted - 1)
                =~= m.entries.subrange(lo - m.compacted - 1, hi - m.compacted - 1)) by {
                if up_to > m.compacted {
                    assert(forall|i: int|
                        0 <= i < m2.entries.len() ==> m2.entries[i] == m.entries[i + (up_to
                            - m.compacted)]);
                }
            }
        }
    }
}

} // verus!
