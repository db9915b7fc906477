//! The consensus messages one node sends another.

use vstd::prelude::*;

use crate::storage::{entries_view, EntryModel, LogEntry, Snapshot, SnapshotModel};

verus! {

/// The payload of one peer-to-peer message.
pub enum MessageKind {
    /// A candidate asks for a vote in its term.
    RequestVote,
    /// A vote reply; `granted` only ever in the candidate's term.
    Vote { granted: bool },
    /// Log replication and heartbeat: entries following `prev_index`,
    /// and the leader's commit index.
    Append { prev_index: u64, entries: Vec<LogEntry>, commit: u64 },
    /// A follower reports how far its log reaches.
    AppendResponse { last_index: u64, success: bool },
    /// The leader ships a whole snapshot to a follower that is behind
    /// the compacted log.
    InstallSnapshot { snapshot: Snapshot },
}

/// The mathematical image of a message payload.
pub ghost enum KindModel {
    RequestVote,
    Vote { granted: bool },
    Append { prev_index: u64, entries: Seq<EntryModel>, commit: u64 },
    AppendResponse { last_index: u64, success: bool },
    InstallSnapshot { snapshot: SnapshotModel },
}

impl View for MessageKind {
    type V = KindModel;

    open spec fn view(&self) -> KindModel {
        match self {
            MessageKind::RequestVote => KindModel::RequestVote,
            MessageKind::Vote { granted } => KindModel::Vote { granted: *granted },
            MessageKind::Append { prev_index, entries, commit } => KindModel::Append {
                prev_index: *prev_index,
                entries: entries_view(entries@),
                commit: *commit,
            },
            MessageKind::AppendResponse { last_index, success } => KindModel::AppendResponse {
                last_index: *last_index,
                success: *success,
            },
            MessageKind::InstallSnapshot { snapshot } => KindModel::InstallSnapshot {
                snapshot: snapshot@,
            },
        }
    }
}

/// One message between two nodes, tagged with the sender's term.
pub struct RaftMessage {
    pub from: u64,
    pub to: u64,
    pub term: u64,
    pub kind: MessageKind,
}

/// The mathematical image of a message.
pub ghost struct MsgModel {
    pub from: u64,
    pub to: u64,
    pub term: u64,
    pub kind: KindModel,
}

impl View for RaftMessage {
    type V = MsgModel;

    open spec fn view(&self) -> MsgModel {
        MsgModel { from: self.from, to: self.to, term: self.term, kind: self.kind@ }
    }
}

} // verus!
