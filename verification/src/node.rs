//! The node driver: owns the consensus state, the storage and the
//! peer registry, and turns ticks and inbound messages into persisted
//! entries, outbound messages, applied commands and responses.
//!
//! Every mutation of one node is serialized through these methods; a
//! `Ready`-style batch is always handled persist-first, send-second,
//! apply-last, so no message ever references an entry that is not yet
//! durable, and nothing is applied that could vanish on a crash.

use vstd::prelude::*;

use crate::config::Config;
use crate::error::Error;
use crate::message::{KindModel, MessageKind, RaftMessage};
use crate::peers::{spec_contains, spec_index_of, Peer, PeerModel, Peers};
use crate::response_message::{
    ConfChangeResponseResult, LocalResponseMsg, ResponseMessage, ResponseResult, ServerResponseMsg,
};
use crate::state_machine::{fold_apply, AbstractStateMachine};
use crate::storage::{
    ConfChange, ConfChangeModel, ConfChangeType, EntryModel, LogEntry, LogStore, StorageModel,
};

verus! {

/// A node's lifetime: it runs, then stops, and never comes back.
#[derive(Clone, Copy, PartialEq, Eq, Structural, Debug)]
pub enum Lifecycle {
    Initializing,
    Running,
    Stopping,
    Stopped,
}

/// The consensus role of a node.
#[derive(Clone, Copy, PartialEq, Eq, Structural, Debug)]
pub enum Role {
    Follower,
    Candidate,
    Leader,
}

/// The leader's knowledge of how far one follower's log reaches.
#[derive(Clone, Copy, PartialEq, Eq, Structural, Debug)]
pub struct Progress {
    pub id: u64,
    pub matched: u64,
}

/// An in-flight dynamic-join request, keyed by the joiner's address:
/// the reserved id and the log index of the configuration change that
/// must commit before the join is acknowledged.
pub struct PendingJoin {
    pub address: String,
    pub reserved_id: u64,
    pub index: u64,
}

/// The mathematical image of a pending join.
pub ghost struct JoinModel {
    pub address: Seq<char>,
    pub reserved_id: u64,
    pub index: u64,
}

impl View for PendingJoin {
    type V = JoinModel;

    open spec fn view(&self) -> JoinModel {
        JoinModel { address: self.address@, reserved_id: self.reserved_id, index: self.index }
    }
}

/// The view of a whole pending-join list.
pub open spec fn joins_view(s: Seq<PendingJoin>) -> Seq<JoinModel> {
    s.map(|i: int, j: PendingJoin| j@)
}

/// An in-flight configuration-change request awaiting its commit,
/// tagged with the channel its response belongs on.
#[derive(Clone, Copy, PartialEq, Eq, Structural, Debug)]
pub struct PendingConf {
    pub index: u64,
    pub node_id: u64,
    pub remove: bool,
    pub local: bool,
}

/// Whether some pending join carries the address `addr`.
pub open spec fn join_pending(joins: Seq<JoinModel>, addr: Seq<char>) -> bool {
    exists|i: int| 0 <= i < joins.len() && joins[i].address == addr
}

/// The largest id among registered peers and reserved joins.
pub open spec fn spec_max_reserved(peers: Seq<PeerModel>, joins: Seq<JoinModel>) -> int {
    let pm = spec_peers_max(peers);
    let jm = spec_joins_max(joins);
    if pm >= jm {
        pm
    } else {
        jm
    }
}

pub open spec fn spec_peers_max(peers: Seq<PeerModel>) -> int
    decreases peers.len(),
{
    if peers.len() == 0 {
        0
    } else {
        let rest = spec_peers_max(peers.drop_last());
        if peers.last().id >= rest {
            peers.last().id as int
        } else {
            rest
        }
    }
}

pub open spec fn spec_joins_max(joins: Seq<JoinModel>) -> int
    decreases joins.len(),
{
    if joins.len() == 0 {
        0
    } else {
        let rest = spec_joins_max(joins.drop_last());
        if joins.last().reserved_id >= rest {
            joins.last().reserved_id as int
        } else {
            rest
        }
    }
}

/// The join-relevant slice of a leader's state.
pub ghost struct JoinState {
    pub peers: Seq<PeerModel>,
    pub joins: Seq<JoinModel>,
    pub last_index: int,
}

/// What a leader does with one `RequestId` from `addr`: an address
/// already holding a reservation gets nothing new; otherwise the next
/// unused id is reserved and one configuration-change entry is
/// proposed.
pub open spec fn request_id_step(st: JoinState, addr: Seq<char>) -> JoinState {
    if join_pending(st.joins, addr) {
        st
    } else {
        JoinState {
            peers: st.peers,
            joins: st.joins.push(
                JoinModel {
                    address: addr,
                    reserved_id: (spec_max_reserved(st.peers, st.joins) + 1) as u64,
                    index: (st.last_index + 1) as u64,
                },
            ),
            last_index: st.last_index + 1,
        }
    }
}

/// Idempotent join requests: the first `RequestId` from an
/// unestablished address reserves exactly one id, and a repeat of the
/// same request before the change commits reserves nothing further.
pub proof fn lemma_join_idempotent(st: JoinState, addr: Seq<char>)
    ensures
        request_id_step(request_id_step(st, addr), addr) == request_id_step(st, addr),
        !join_pending(st.joins, addr) ==> request_id_step(st, addr).joins.len() == st.joins.len()
            + 1,
        join_pending(st.joins, addr) ==> request_id_step(st, addr) == st,
{
    let st1 = request_id_step(st, addr);
    if !join_pending(st.joins, addr) {
        assert(st1.joins[st.joins.len() as int].address == addr);
        assert(join_pending(st1.joins, addr));
    }
}

/// One membership mutation, as the registry applies it when the entry
/// carrying it commits.
pub open spec fn apply_conf(s: Seq<PeerModel>, c: ConfChangeModel) -> Seq<PeerModel> {
    match c.change_type {
        ConfChangeType::RemoveNode => {
            if spec_contains(s, c.node_id) {
                s.remove(spec_index_of(s, c.node_id))
            } else {
                s
            }
        },
        _ => {
            let p = PeerModel { id: c.node_id, address: c.address };
            if spec_contains(s, c.node_id) {
                s.update(spec_index_of(s, c.node_id), p)
            } else {
                s.push(p)
            }
        },
    }
}

/// The registry after applying, in log order, every configuration
/// change carried by entries `(lo, hi]` of `log`.
pub open spec fn peers_fold(
    s: Seq<PeerModel>,
    log: Seq<EntryModel>,
    compacted: u64,
    lo: int,
    hi: int,
) -> Seq<PeerModel>
    decreases hi - lo,
{
    if hi <= lo {
        s
    } else {
        let prev = peers_fold(s, log, compacted, lo, hi - 1);
        let e = log[hi - compacted - 1];
        match e.conf {
            Some(c) => apply_conf(prev, c),
            None => prev,
        }
    }
}

/// The payloads of the normal (non-membership) entries `(lo, hi]` of
/// `log`, in log order.
pub open spec fn normal_datas(log: Seq<EntryModel>, compacted: u64, lo: int, hi: int) -> Seq<
    Seq<u8>,
>
    decreases hi - lo,
{
    if hi <= lo {
        Seq::empty()
    } else {
        let prev = normal_datas(log, compacted, lo, hi - 1);
        let e = log[hi - compacted - 1];
        match e.conf {
            Some(c) => prev,
            None => if e.data.len() > 0 {
                prev.push(e.data)
            } else {
                prev
            },
        }
    }
}

/// A request arriving on the in-process channel.
pub enum LocalRequestMsg {
    IsLeader,
    GetId,
    GetLeaderId,
    GetPeers,
    AddPeer { peer: Peer },
    Store,
    Storage,
    GetClusterSize,
    ConfigChange { change: ConfChange },
    Quit,
    MakeSnapshot,
    Propose { data: Vec<u8> },
    DebugNode,
}

/// A request arriving from the network.
pub enum ServerRequestMsg {
    MemberBootstrapReady,
    ClusterBootstrapReady,
    Propose { data: Vec<u8> },
    ConfigChange { change: ConfChange },
    RequestId { addr: String },
    ReportUnreachable { node_id: u64 },
    DebugNode,
    RaftMessage { message: RaftMessage },
}

/// What one driver step hands back to its surroundings: messages to
/// forward to peers, and responses that completed in this step for
/// requests answered after their commit.
pub struct Output<FSM: AbstractStateMachine> {
    pub msgs: Vec<RaftMessage>,
    pub completions: Vec<ResponseMessage<FSM>>,
}

impl<FSM: AbstractStateMachine> Output<FSM> {
    pub fn empty() -> (r: Output<FSM>)
        ensures
            r.msgs@.len() == 0,
            r.completions@.len() == 0,
    {
        Output { msgs: Vec::new(), completions: Vec::new() }
    }
}

/// One cluster member's driver.
pub struct RaftNode<FSM: AbstractStateMachine> {
    pub config: Config,
    pub lifecycle: Lifecycle,
    pub role: Role,
    pub leader_id: u64,
    pub election_elapsed: u64,
    pub heartbeat_elapsed: u64,
    pub votes: Vec<u64>,
    pub progress: Vec<Progress>,
    pub applied: u64,
    pub storage: LogStore,
    pub peers: Peers,
    pub fsm: FSM,
    pub pending_joins: Vec<PendingJoin>,
    pub pending_confs: Vec<PendingConf>,
}

impl<FSM: AbstractStateMachine> RaftNode<FSM> {
    pub open spec fn id(&self) -> u64 {
        self.config.raft_config.id
    }

    pub open spec fn term(&self) -> u64 {
        self.storage@.hard_state.term
    }

    pub open spec fn commit(&self) -> u64 {
        self.storage@.hard_state.commit
    }

    pub open spec fn wf(&self) -> bool {
        &&& self.storage.wf()
        &&& self.peers.wf()
        &&& 1 <= self.config.raft_config.id
        &&& 1 <= self.config.raft_config.election_tick
        &&& 1 <= self.config.raft_config.heartbeat_tick
        &&& self.storage@.compacted <= self.applied <= self.commit()
        &&& (self.role is Leader ==> self.leader_id == self.id())
        &&& forall|i: int, j: int|
            0 <= i < j < joins_view(self.pending_joins@).len() ==> joins_view(
                self.pending_joins@,
            )[i].address != joins_view(self.pending_joins@)[j].address
    }

    /// Everything observable about the node is the same in `a` and
    /// `b`.
    pub open spec fn same_state(a: &Self, b: &Self) -> bool {
        &&& a.config.raft_config == b.config.raft_config
        &&& a.lifecycle == b.lifecycle
        &&& a.role == b.role
        &&& a.leader_id == b.leader_id
        &&& a.election_elapsed == b.election_elapsed
        &&& a.heartbeat_elapsed == b.heartbeat_elapsed
        &&& a.votes@ == b.votes@
        &&& a.progress@ == b.progress@
        &&& a.applied == b.applied
        &&& a.storage@ == b.storage@
        &&& a.peers@ == b.peers@
        &&& a.fsm.state() == b.fsm.state()
        &&& joins_view(a.pending_joins@) == joins_view(b.pending_joins@)
        &&& a.pending_confs@ == b.pending_confs@
    }

    /// A fresh, running node with the given bootstrap membership.
    pub fn new(config: Config, peers: Peers, fsm: FSM) -> (r: RaftNode<FSM>)
        requires
            1 <= config.raft_config.id,
            1 <= config.raft_config.election_tick,
            1 <= config.raft_config.heartbeat_tick,
            peers.wf(),
        ensures
            r.wf(),
            r.lifecycle is Running,
            r.role is Follower,
            r.leader_id == 0,
            r.applied == 0,
            r.term() == 0,
            r.commit() == 0,
            r.storage@.entries.len() == 0,
            r.peers@ == peers@,
            r.fsm.state() == fsm.state(),
            r.config.raft_config == config.raft_config,
            joins_view(r.pending_joins@).len() == 0,
            r.pending_confs@.len() == 0,
    {
        let r = RaftNode {
            config,
            lifecycle: Lifecycle::Running,
            role: Role::Follower,
            leader_id: 0,
            election_elapsed: 0,
            heartbeat_elapsed: 0,
            votes: Vec::new(),
            progress: Vec::new(),
            applied: 0,
            storage: LogStore::new(),
            peers,
            fsm,
            pending_joins: Vec::new(),
            pending_confs: Vec::new(),
        };
        proof {
            assert(joins_view(r.pending_joins@) =~= Seq::<JoinModel>::empty());
        }
        r
    }

    pub fn is_leader(&self) -> (r: bool)
        ensures
            r == (self.role is Leader),
    {
        match self.role {
            Role::Leader => true,
            _ => false,
        }
    }

    pub fn get_id(&self) -> (r: u64)
        ensures
            r == self.id(),
    {
        self.config.raft_config.id
    }

    pub fn get_leader_id(&self) -> (r: u64)
        ensures
            r == self.leader_id,
    {
        self.leader_id
    }

    pub fn get_peers(&self) -> (r: Peers)
        ensures
            r@ == self.peers@,
    {
        self.peers.snapshot()
    }

    pub fn get_cluster_size(&self) -> (r: usize)
        ensures
            r == self.peers@.len(),
    {
        self.peers.len()
    }

    pub fn is_running(&self) -> (r: bool)
        ensures
            r == (self.lifecycle is Running),
    {
        match self.lifecycle {
            Lifecycle::Running => true,
            _ => false,
        }
    }

    /// Stops the node: it drains no further ticks and processes no
    /// further messages. Terminal.
    pub fn quit(&mut self)
        requires
            old(self).wf(),
        ensures
            final(self).wf(),
            final(self).lifecycle is Stopped,
            final(self).role == old(self).role,
            final(self).storage@ == old(self).storage@,
            final(self).peers@ == old(self).peers@,
            final(self).fsm.state() == old(self).fsm.state(),
            final(self).applied == old(self).applied,
            final(self).config.raft_config == old(self).config.raft_config,
            final(self).leader_id == old(self).leader_id,
            final(self).election_elapsed == old(self).election_elapsed,
            final(self).heartbeat_elapsed == old(self).heartbeat_elapsed,
            final(self).votes@ == old(self).votes@,
            final(self).progress@ == old(self).progress@,
            joins_view(final(self).pending_joins@) == joins_view(old(self).pending_joins@),
            final(self).pending_confs@ == old(self).pending_confs@,
    {
        self.lifecycle = Lifecycle::Stopped;
    }
}

/// The view of a whole message list.
pub open spec fn msgs_view(v: Seq<RaftMessage>) -> Seq<crate::message::MsgModel> {
    v.map(|i: int, m: RaftMessage| m@)
}

/// The replication fan-out of a leader: one message per tracked
/// follower, carrying the log past what it acknowledged, or the whole
/// snapshot where the log has been compacted past it.
pub open spec fn spec_heartbeats(
    my_id: u64,
    term: u64,
    m: StorageModel,
    progress: Seq<Progress>,
) -> Seq<crate::message::MsgModel>
    decreases progress.len(),
{
    if progress.len() == 0 {
        Seq::empty()
    } else {
        let rest = spec_heartbeats(my_id, term, m, progress.drop_last());
        let p = progress.last();
        if p.matched == u64::MAX || crate::storage::spec_last_index(m) == u64::MAX {
            rest
        } else if p.matched + 1 <= m.compacted {
            match m.snapshot {
                Some(s) => rest.push(
                    crate::message::MsgModel {
                        from: my_id,
                        to: p.id,
                        term,
                        kind: KindModel::InstallSnapshot { snapshot: s },
                    },
                ),
                None => rest,
            }
        } else {
            match crate::storage::entries_spec(
                m,
                (p.matched + 1) as u64,
                (crate::storage::spec_last_index(m) + 1) as u64,
            ) {
                Ok(es) => rest.push(
                    crate::message::MsgModel {
                        from: my_id,
                        to: p.id,
                        term,
                        kind: KindModel::Append {
                            prev_index: p.matched,
                            entries: es,
                            commit: m.hard_state.commit,
                        },
                    },
                ),
                Err(_) => rest,
            }
        }
    }
}

/// The vote fan-out of a new candidate: one request per other member.
pub open spec fn spec_vote_requests(peers: Seq<PeerModel>, my_id: u64, term: u64) -> Seq<
    crate::message::MsgModel,
>
    decreases peers.len(),
{
    if peers.len() == 0 {
        Seq::empty()
    } else {
        let rest = spec_vote_requests(peers.drop_last(), my_id, term);
        if peers.last().id == my_id {
            rest
        } else {
            rest.push(
                crate::message::MsgModel {
                    from: my_id,
                    to: peers.last().id,
                    term,
                    kind: KindModel::RequestVote,
                },
            )
        }
    }
}

/// The progress a new leader starts from: every other member at
/// match index zero.
pub open spec fn spec_fresh_progress(peers: Seq<PeerModel>, my_id: u64) -> Seq<Progress>
    decreases peers.len(),
{
    if peers.len() == 0 {
        Seq::empty()
    } else {
        let rest = spec_fresh_progress(peers.drop_last(), my_id);
        if peers.last().id == my_id {
            rest
        } else {
            rest.push(Progress { id: peers.last().id, matched: 0 })
        }
    }
}

/// The suffix of a replication batch past the commit index `c`: what
/// a follower still has to place in its log.
pub open spec fn above_commit(es: Seq<EntryModel>, c: u64) -> Seq<EntryModel>
    decreases es.len(),
{
    if es.len() == 0 {
        Seq::empty()
    } else {
        let prev = above_commit(es.drop_last(), c);
        if es.last().index > c {
            prev.push(es.last())
        } else {
            prev
        }
    }
}

/// Every entry the filter keeps lies above the commit index.
pub proof fn lemma_above_commit(es: Seq<EntryModel>, c: u64)
    ensures
        forall|i: int|
            0 <= i < above_commit(es, c).len() ==> (#[trigger] above_commit(es, c)[i]).index > c,
    decreases es.len(),
{
    if es.len() > 0 {
        lemma_above_commit(es.drop_last(), c);
    }
}

/// How one acknowledgment updates a follower's progress entry: a
/// success raises the match index, a rejection lowers it toward the
/// follower's reported log end.
pub open spec fn spec_new_matched(p: Progress, last: u64, success: bool) -> Progress {
    if success {
        if last > p.matched {
            Progress { id: p.id, matched: last }
        } else {
            p
        }
    } else {
        if last < p.matched {
            Progress { id: p.id, matched: last }
        } else {
            p
        }
    }
}

/// The progress list after one acknowledgment from `from`: only the
/// first entry for `from` changes.
pub open spec fn spec_update_progress(s: Seq<Progress>, from: u64, last: u64, success: bool)
    -> Seq<Progress>
    decreases s.len(),
{
    if s.len() == 0 {
        s
    } else if s[0].id == from {
        s.update(0, spec_new_matched(s[0], last, success))
    } else {
        seq![s[0]] + spec_update_progress(s.skip(1), from, last, success)
    }
}

/// If position `i` holds the first entry for `from`, the update
/// touches exactly that position.
pub proof fn lemma_update_progress_at(s: Seq<Progress>, from: u64, last: u64, success: bool, i: int)
    requires
        0 <= i < s.len(),
        s[i].id == from,
        forall|j: int| 0 <= j < i ==> s[j].id != from,
    ensures
        spec_update_progress(s, from, last, success) == s.update(
            i,
            spec_new_matched(s[i], last, success),
        ),
    decreases s.len(),
{
    if i == 0 {
    } else {
        let tail = s.skip(1);
        assert(forall|j: int| 0 <= j < tail.len() ==> tail[j] == s[j + 1]);
        lemma_update_progress_at(tail, from, last, success, i - 1);
        assert(seq![s[0]] + spec_update_progress(tail, from, last, success) =~= s.update(
            i,
            spec_new_matched(s[i], last, success),
        ));
    }
}

/// With no entry for `from`, the update changes nothing.
pub proof fn lemma_update_progress_none(s: Seq<Progress>, from: u64, last: u64, success: bool)
    requires
        forall|j: int| 0 <= j < s.len() ==> s[j].id != from,
    ensures
        spec_update_progress(s, from, last, success) == s,
    decreases s.len(),
{
    if s.len() > 0 {
        let tail = s.skip(1);
        assert(forall|j: int| 0 <= j < tail.len() ==> tail[j] == s[j + 1]);
        lemma_update_progress_none(tail, from, last, success);
        assert(seq![s[0]] + tail =~= s);
    }
}

/// How many followers report a match index of at least `n`.
pub open spec fn spec_count_matched(s: Seq<Progress>, n: u64) -> int
    decreases s.len(),
{
    if s.len() == 0 {
        0
    } else {
        spec_count_matched(s.drop_last(), n) + if s.last().matched >= n {
            1int
        } else {
            0int
        }
    }
}

/// The commit index after the leader counts replication acks: it
/// advances through every next index that a majority of the cluster
/// holds.
pub open spec fn spec_commit_advance(s: Seq<Progress>, total: int, commit: u64, last: int) -> int
    decreases last - commit,
{
    if commit >= last || commit == u64::MAX {
        commit as int
    } else if 2 * (spec_count_matched(s, (commit + 1) as u64) + 1) > total {
        spec_commit_advance(s, total, (commit + 1) as u64, last)
    } else {
        commit as int
    }
}

impl<FSM: AbstractStateMachine> RaftNode<FSM> {
    /// The last index of the node's own log.
    pub fn last_index(&self) -> (r: u64)
        requires
            self.wf(),
        ensures
            r == crate::storage::spec_last_index(self.storage@),
    {
        self.storage.last_index()
    }

    /// Appends one entry, proposed by this node in its current term,
    /// at the next free index of its own log.
    fn append_local_entry(&mut self, data: Vec<u8>, conf: Option<ConfChange>) -> (r: Result<
        u64,
        Error,
    >)
        requires
            old(self).wf(),
        ensures
            final(self).wf(),
            match r {
                Ok(idx) => {
                    &&& idx == crate::storage::spec_last_index(old(self).storage@) + 1
                    &&& final(self).storage@.entries == old(self).storage@.entries.push(
                        EntryModel {
                            index: idx,
                            term: old(self).term(),
                            data: data@,
                            context: None,
                            conf: match conf {
                                Some(c) => Some(c@),
                                None => None,
                            },
                        },
                    )
                    &&& final(self).storage@.hard_state == old(self).storage@.hard_state
                    &&& final(self).storage@.compacted == old(self).storage@.compacted
                    &&& final(self).storage@.snapshot == old(self).storage@.snapshot
                },
                Err(_) => final(self).storage@ == old(self).storage@,
            },
            r is Err <==> crate::storage::spec_last_index(old(self).storage@) == u64::MAX,
            final(self).lifecycle == old(self).lifecycle,
            final(self).role == old(self).role,
            final(self).leader_id == old(self).leader_id,
            final(self).peers@ == old(self).peers@,
            final(self).fsm.state() == old(self).fsm.state(),
            final(self).applied == old(self).applied,
            final(self).config.raft_config == old(self).config.raft_config,
            joins_view(final(self).pending_joins@) == joins_view(old(self).pending_joins@),
            final(self).pending_confs@ == old(self).pending_confs@,
            final(self).progress@ == old(self).progress@,
            final(self).votes@ == old(self).votes@,
            final(self).election_elapsed == old(self).election_elapsed,
            final(self).heartbeat_elapsed == old(self).heartbeat_elapsed,
    {
        let last = self.storage.last_index();
        if last == u64::MAX {
            return Err(Error::WrongArgumentError);
        }
        let term = self.storage.hard_state().term;
        let entry = LogEntry { index: last + 1, term, data, context: None, conf };
        let ghost em = entry@;
        let mut batch: Vec<LogEntry> = Vec::new();
        batch.push(entry);
        proof {
            assert(crate::storage::entries_view(batch@) =~= seq![em]);
        }
        let ghost m = self.storage@;
        match self.storage.append(batch) {
            Ok(_) => {
                proof {
                    assert(m.entries.take(last + 1 - 1 - m.compacted) =~= m.entries);
                    assert(self.storage@.entries =~= m.entries.push(em));
                }
                Ok(last + 1)
            },
            Err(e) => {
                proof {
                    let b = crate::storage::entries_view(batch@);
                    assert(b =~= seq![em]);
                    assert(b[0].index == em.index);
                    assert(crate::storage::batch_contiguous(b));
                    assert(crate::storage::append_spec(m, b) is Ok);
                    assert(false);
                }
                Err(e)
            },
        }
    }

    /// Counts the followers whose logs are known to reach `n`.
    fn count_matched(&self, n: u64) -> (c: usize)
        ensures
            c == spec_count_matched(self.progress@, n),
    {
        let mut c: usize = 0;
        let mut i: usize = 0;
        while i < self.progress.len()
            invariant
                0 <= i <= self.progress.len(),
                c <= i,
                c == spec_count_matched(self.progress@.take(i as int), n),
            decreases self.progress.len() - i,
        {
            proof {
                assert(self.progress@.take(i + 1).drop_last() =~= self.progress@.take(i as int));
                assert(self.progress@.take(i + 1).last() == self.progress@[i as int]);
            }
            if self.progress[i].matched >= n {
                c = c + 1;
            }
            i += 1;
        }
        proof {
            assert(self.progress@.take(self.progress@.len() as int) =~= self.progress@);
        }
        c
    }

    /// Whether `count` voters or holders are a strict majority of the
    /// cluster.
    fn has_majority(&self, count: u128) -> (r: bool)
        requires
            count <= 0x1_0000_0000_0000_0000u128,
        ensures
            r == (2 * count > self.peers@.len()),
    {
        let total = self.peers.len();
        count * 2 > (total as u128)
    }

    /// The leader advances its commit index over every entry that a
    /// majority of the cluster holds.
    fn maybe_commit(&mut self)
        requires
            old(self).wf(),
        ensures
            final(self).wf(),
            final(self).commit() == spec_commit_advance(
                old(self).progress@,
                old(self).peers@.len() as int,
                old(self).commit(),
                crate::storage::spec_last_index(old(self).storage@),
            ),
            final(self).commit() >= old(self).commit(),
            final(self).storage@.entries == old(self).storage@.entries,
            final(self).storage@.compacted == old(self).storage@.compacted,
            final(self).storage@.snapshot == old(self).storage@.snapshot,
            final(self).storage@.hard_state.term == old(self).storage@.hard_state.term,
            final(self).storage@.hard_state.vote == old(self).storage@.hard_state.vote,
            final(self).lifecycle == old(self).lifecycle,
            final(self).role == old(self).role,
            final(self).leader_id == old(self).leader_id,
            final(self).peers@ == old(self).peers@,
            final(self).fsm.state() == old(self).fsm.state(),
            final(self).applied == old(self).applied,
            final(self).config.raft_config == old(self).config.raft_config,
            joins_view(final(self).pending_joins@) == joins_view(old(self).pending_joins@),
            final(self).pending_confs@ == old(self).pending_confs@,
            final(self).progress@ == old(self).progress@,
            final(self).votes@ == old(self).votes@,
            final(self).election_elapsed == old(self).election_elapsed,
            final(self).heartbeat_elapsed == old(self).heartbeat_elapsed,
    {
        let last = self.storage.last_index();
        let mut c = self.storage.hard_state().commit;
        let ghost p = self.progress@;
        let ghost total = self.peers@.len() as int;
        let ghost goal = spec_commit_advance(p, total, c, last as int);
        let mut done = false;
        while !done && c < last
            invariant
                self == old(self),
                p == self.progress@,
                total == self.peers@.len() as int,
                self.wf(),
                old(self).commit() <= c <= last,
                last == crate::storage::spec_last_index(self.storage@),
                goal == if done {
                    c as int
                } else {
                    spec_commit_advance(p, total, c, last as int)
                },
            decreases last - c, (if done { 0int } else { 1int }),
        {
            let cnt = self.count_matched(c + 1);
            if self.has_majority(cnt as u128 + 1) {
                c = c + 1;
            } else {
                proof {
                    assert(spec_commit_advance(p, total, c, last as int) == c as int);
                }
                done = true;
            }
        }
        proof {
            assert(goal == c as int);
        }
        self.storage.set_commit(c);
    }
}

impl<FSM: AbstractStateMachine> RaftNode<FSM> {
    /// Applies every committed, not yet applied entry, in log order:
    /// normal payloads go to the state machine, configuration changes
    /// go to the peer registry exactly once each, and every pending
    /// join or configuration-change request whose entry just
    /// committed is answered now — never before its commit.
    pub fn advance_apply(&mut self) -> (out: Vec<ResponseMessage<FSM>>)
        requires
            old(self).wf(),
        ensures
            final(self).wf(),
            final(self).applied == old(self).commit(),
            final(self).storage@ == old(self).storage@,
            final(self).peers@ == peers_fold(
                old(self).peers@,
                old(self).storage@.entries,
                old(self).storage@.compacted,
                old(self).applied as int,
                old(self).commit() as int,
            ),
            final(self).fsm.state() == fold_apply::<FSM>(
                old(self).fsm.state(),
                normal_datas(
                    old(self).storage@.entries,
                    old(self).storage@.compacted,
                    old(self).applied as int,
                    old(self).commit() as int,
                ),
            ),
            final(self).lifecycle == old(self).lifecycle,
            final(self).config.raft_config == old(self).config.raft_config,
            final(self).leader_id == old(self).leader_id,
            final(self).role == old(self).role || final(self).role is Follower,
            final(self).election_elapsed == old(self).election_elapsed,
            final(self).heartbeat_elapsed == old(self).heartbeat_elapsed,
            (forall|x: int|
                old(self).applied < x <= old(self).commit() ==> (#[trigger] old(self).storage@.entries[x - old(self).storage@.compacted - 1]).conf is None) ==> final(self).progress@ == old(self).progress@,
    {
        let mut out: Vec<ResponseMessage<FSM>> = Vec::new();
        let commit = self.storage.hard_state().commit;
        let ghost s0 = self.peers@;
        let ghost f0 = self.fsm.state();
        let ghost log = self.storage@.entries;
        let ghost comp = self.storage@.compacted;
        let ghost lo = self.applied as int;
        while self.applied < commit
            invariant
                self.wf(),
                self.storage@ == old(self).storage@,
                commit == self.commit(),
                log == self.storage@.entries,
                comp == self.storage@.compacted,
                lo == old(self).applied as int,
                lo <= self.applied <= commit,
                self.peers@ == peers_fold(s0, log, comp, lo, self.applied as int),
                self.fsm.state() == fold_apply::<FSM>(
                    f0,
                    normal_datas(log, comp, lo, self.applied as int),
                ),
                s0 == old(self).peers@,
                f0 == old(self).fsm.state(),
                self.lifecycle == old(self).lifecycle,
                self.config.raft_config == old(self).config.raft_config,
                self.leader_id == old(self).leader_id,
                self.role == old(self).role || self.role is Follower,
                self.election_elapsed == old(self).election_elapsed,
                self.heartbeat_elapsed == old(self).heartbeat_elapsed,
                (forall|x: int|
                    lo < x <= self.applied ==> (#[trigger] log[x - comp - 1]).conf is None)
                    ==> self.progress@ == old(self).progress@,
            decreases commit - self.applied,
        {
            let idx = self.applied + 1;
            let e = self.storage.entry_at(idx);
            let ghost em = e@;
            let ghost peers_before = self.peers@;
            let ghost nd_before = normal_datas(log, comp, lo, self.applied as int);
            match &e.conf {
                None => {
                    if e.data.len() > 0 {
                        match self.fsm.apply(e.data.as_slice()) {
                            Ok(_) => {},
                            Err(err) => {
                                out.push(
                                    ResponseMessage::Server(
                                        ServerResponseMsg::Propose {
                                            result: ResponseResult::Error(err),
                                        },
                                    ),
                                );
                            },
                        }
                        proof {
                            let nd = normal_datas(log, comp, lo, idx as int);
                            assert(nd == nd_before.push(em.data));
                            assert(nd.drop_last() =~= nd_before);
                            assert(self.fsm.state() == fold_apply::<FSM>(f0, nd));
                        }
                    } else {
                        proof {
                            assert(normal_datas(log, comp, lo, idx as int) == nd_before);
                        }
                    }
                    proof {
                        assert(peers_fold(s0, log, comp, lo, idx as int) == peers_before);
                    }
                },
                Some(cc) => {
                    let ghost cm = cc@;
                    let change_id = cc.node_id;
                    match cc.change_type {
                        ConfChangeType::RemoveNode => {
                            self.peers.remove(change_id);
                            let mut k: usize = 0;
                            let mut found = self.progress.len();
                            while k < self.progress.len()
                                invariant
                                    0 <= k <= self.progress@.len(),
                                    found <= self.progress@.len(),
                                decreases self.progress.len() - k,
                            {
                                if self.progress[k].id == change_id {
                                    found = k;
                                    break ;
                                }
                                k += 1;
                            }
                            if found < self.progress.len() {
                                self.progress.remove(found);
                            }
                            if change_id == self.config.raft_config.id {
                                self.role = Role::Follower;
                            }
                        },
                        _ => {
                            let p = Peer { id: cc.node_id, address: cc.address.clone() };
                            self.peers.insert_or_update(p);
                            if self.is_leader() && change_id != self.config.raft_config.id {
                                let mut k: usize = 0;
                                let mut present = false;
                                while k < self.progress.len()
                                    invariant
                                        0 <= k <= self.progress@.len(),
                                    decreases self.progress.len() - k,
                                {
                                    if self.progress[k].id == change_id {
                                        present = true;
                                        break ;
                                    }
                                    k += 1;
                                }
                                if !present {
                                    self.progress.push(Progress { id: change_id, matched: 0 });
                                }
                            }
                        },
                    }
                    proof {
                        assert(self.peers@ == apply_conf(peers_before, cm));
                        assert(peers_fold(s0, log, comp, lo, idx as int) == apply_conf(
                            peers_fold(s0, log, comp, lo, (idx - 1) as int),
                            cm,
                        ));
                        assert(normal_datas(log, comp, lo, idx as int) == nd_before);
                    }
                    self.answer_committed(idx, &mut out);
                },
            }
            self.applied = idx;
        }
        out
    }

    /// Emits the deferred response of every pending join or
    /// configuration change whose entry is the one that just applied.
    fn answer_committed(&mut self, idx: u64, out: &mut Vec<ResponseMessage<FSM>>)
        requires
            old(self).wf(),
        ensures
            final(self).wf(),
            final(self).storage@ == old(self).storage@,
            final(self).peers@ == old(self).peers@,
            final(self).fsm.state() == old(self).fsm.state(),
            final(self).applied == old(self).applied,
            final(self).lifecycle == old(self).lifecycle,
            final(self).config.raft_config == old(self).config.raft_config,
            final(self).leader_id == old(self).leader_id,
            final(self).role == old(self).role,
            final(self).election_elapsed == old(self).election_elapsed,
            final(self).heartbeat_elapsed == old(self).heartbeat_elapsed,
            final(self).progress@ == old(self).progress@,
            final(self).votes@ == old(self).votes@,
    {
        let my_id = self.config.raft_config.id;
        let mut k: usize = 0;
        let mut join_found = self.pending_joins.len();
        while k < self.pending_joins.len()
            invariant
                0 <= k <= self.pending_joins@.len(),
                join_found <= self.pending_joins@.len(),
            decreases self.pending_joins.len() - k,
        {
            if self.pending_joins[k].index == idx {
                join_found = k;
                break ;
            }
            k += 1;
        }
        if join_found < self.pending_joins.len() {
            let ghost js = joins_view(self.pending_joins@);
            let j = self.pending_joins.remove(join_found);
            proof {
                assert(joins_view(self.pending_joins@) =~= js.remove(join_found as int));
                assert(forall|a: int, b: int|
                    0 <= a < b < joins_view(self.pending_joins@).len() ==> joins_view(
                        self.pending_joins@,
                    )[a].address != joins_view(self.pending_joins@)[b].address) by {
                    let js2 = joins_view(self.pending_joins@);
                    assert(forall|a: int|
                        0 <= a < js2.len() ==> js2[a] == (if a < join_found {
                            js[a]
                        } else {
                            js[a + 1]
                        }));
                }
            }
            let leader_addr = match self.peers.get(my_id) {
                Some(p) => Some(p.address),
                None => None,
            };
            out.push(
                ResponseMessage::Server(
                    ServerResponseMsg::RequestId {
                        result: ResponseResult::Success,
                        reserved_id: Some(j.reserved_id),
                        leader_id: Some(my_id),
                        leader_addr,
                        peers: Some(self.peers.snapshot()),
                    },
                ),
            );
        }
        let mut k2: usize = 0;
        let mut conf_found = self.pending_confs.len();
        while k2 < self.pending_confs.len()
            invariant
                0 <= k2 <= self.pending_confs@.len(),
                conf_found <= self.pending_confs@.len(),
            decreases self.pending_confs.len() - k2,
        {
            if self.pending_confs[k2].index == idx {
                conf_found = k2;
                break ;
            }
            k2 += 1;
        }
        if conf_found < self.pending_confs.len() {
            let pc = self.pending_confs.remove(conf_found);
            let result = if pc.remove {
                ConfChangeResponseResult::RemoveSuccess
            } else {
                ConfChangeResponseResult::JoinSuccess {
                    assigned_id: pc.node_id,
                    peers: self.peers.snapshot(),
                }
            };
            if pc.local {
                out.push(ResponseMessage::Local(LocalResponseMsg::ConfigChange { result }));
            } else {
                out.push(ResponseMessage::Server(ServerResponseMsg::ConfigChange { result }));
            }
        }
    }

    /// Takes a snapshot of the state machine at the last applied
    /// position and compacts the log up to it. A failure to serialize
    /// skips compaction for this cycle; it is retried at the next
    /// trigger.
    pub fn make_snapshot(&mut self)
        requires
            old(self).wf(),
        ensures
            final(self).wf(),
            final(self).applied == old(self).applied,
            final(self).commit() == old(self).commit(),
            final(self).term() == old(self).term(),
            final(self).peers@ == old(self).peers@,
            final(self).fsm.state() == old(self).fsm.state(),
            final(self).lifecycle == old(self).lifecycle,
            final(self).role == old(self).role,
            final(self).leader_id == old(self).leader_id,
            final(self).config.raft_config == old(self).config.raft_config,
            joins_view(final(self).pending_joins@) == joins_view(old(self).pending_joins@),
            final(self).pending_confs@ == old(self).pending_confs@,
            final(self).progress@ == old(self).progress@,
            final(self).votes@ == old(self).votes@,
            final(self).election_elapsed == old(self).election_elapsed,
            final(self).heartbeat_elapsed == old(self).heartbeat_elapsed,
            final(self).storage@.entries.len() <= old(self).storage@.entries.len(),
            crate::storage::spec_last_index(final(self).storage@) == crate::storage::spec_last_index(
                old(self).storage@,
            ),
            final(self).storage@ == old(self).storage@ || ({
                let m1 = crate::storage::create_snapshot_spec(
                    old(self).storage@,
                    old(self).fsm.state(),
                    old(self).applied,
                    spec_applied_term(old(self).storage@, old(self).applied),
                );
                &&& m1 is Ok
                &&& crate::storage::compact_spec(m1.unwrap(), old(self).applied) == Ok::<
                    StorageModel,
                    Error,
                >(final(self).storage@)
            }),
    {
        if self.applied == 0 {
            return ;
        }
        let data = match self.fsm.snapshot() {
            Ok(d) => d,
            Err(_) => {
                return ;
            },
        };
        let term_at = if self.applied > self.storage.compacted_index() {
            self.storage.entry_at(self.applied).term
        } else {
            match self.storage.snapshot_meta() {
                Some(meta) => meta.term,
                None => 0,
            }
        };
        match self.storage.create_snapshot(data, self.applied, term_at) {
            Ok(_) => {
                let _ = self.storage.compact(self.applied);
            },
            Err(_) => {},
        }
    }

    /// Compaction trigger: when the persisted log passes the
    /// configured size threshold, snapshot and compact.
    pub fn maybe_compact(&mut self)
        requires
            old(self).wf(),
        ensures
            final(self).wf(),
            final(self).applied == old(self).applied,
            final(self).commit() == old(self).commit(),
            final(self).term() == old(self).term(),
            final(self).peers@ == old(self).peers@,
            final(self).fsm.state() == old(self).fsm.state(),
            final(self).lifecycle == old(self).lifecycle,
            final(self).role == old(self).role,
            final(self).leader_id == old(self).leader_id,
            final(self).config.raft_config == old(self).config.raft_config,
            joins_view(final(self).pending_joins@) == joins_view(old(self).pending_joins@),
            final(self).pending_confs@ == old(self).pending_confs@,
            final(self).progress@ == old(self).progress@,
            final(self).votes@ == old(self).votes@,
            crate::storage::spec_last_index(final(self).storage@) == crate::storage::spec_last_index(
                old(self).storage@,
            ),
            crate::storage::spec_log_size(old(self).storage@.entries) <= old(self).config.compacted_log_size_threshold ==> final(self).storage@ == old(self).storage@,
            final(self).storage@ == old(self).storage@ || ({
                let m1 = crate::storage::create_snapshot_spec(
                    old(self).storage@,
                    old(self).fsm.state(),
                    old(self).applied,
                    spec_applied_term(old(self).storage@, old(self).applied),
                );
                &&& crate::storage::spec_log_size(old(self).storage@.entries) > old(self).config.compacted_log_size_threshold
                &&& m1 is Ok
                &&& crate::storage::compact_spec(m1.unwrap(), old(self).applied) == Ok::<
                    StorageModel,
                    Error,
                >(final(self).storage@)
            }),
    {
        if self.storage.size_exceeds(self.config.compacted_log_size_threshold) {
            self.make_snapshot();
        }
    }
}

impl<FSM: AbstractStateMachine> RaftNode<FSM> {
    /// One replication message per follower: the entries past what it
    /// already acknowledged, or the whole snapshot where the log has
    /// been compacted past it.
    fn broadcast_heartbeats(&self) -> (msgs: Vec<RaftMessage>)
        requires
            self.wf(),
        ensures
            forall|i: int|
                0 <= i < msgs@.len() ==> (#[trigger] msgs@[i]@).from == self.id() && msgs@[i]@.term
                    == self.term(),
            msgs_view(msgs@) == spec_heartbeats(self.id(), self.term(), self.storage@, self.progress@),
    {
        let my_id = self.config.raft_config.id;
        let term = self.storage.hard_state().term;
        let commit = self.storage.hard_state().commit;
        let last = self.storage.last_index();
        let mut msgs: Vec<RaftMessage> = Vec::new();
        let mut i: usize = 0;
        while i < self.progress.len()
            invariant
                self.wf(),
                my_id == self.id(),
                term == self.term(),
                commit == self.commit(),
                last == crate::storage::spec_last_index(self.storage@),
                0 <= i <= self.progress@.len(),
                forall|k: int|
                    0 <= k < msgs@.len() ==> (#[trigger] msgs@[k]@).from == self.id()
                        && msgs@[k]@.term == self.term(),
                msgs_view(msgs@) == spec_heartbeats(
                    my_id,
                    term,
                    self.storage@,
                    self.progress@.take(i as int),
                ),
            decreases self.progress.len() - i,
        {
            proof {
                assert(self.progress@.take(i + 1).drop_last() =~= self.progress@.take(i as int));
                assert(self.progress@.take(i + 1).last() == self.progress@[i as int]);
            }
            let ghost prevm = msgs@;
            let p = self.progress[i];
            if p.matched < u64::MAX && last < u64::MAX {
                let lo = p.matched + 1;
                if lo <= self.storage.compacted_index() {
                    match self.storage.snapshot() {
                        Some(snapshot) => {
                            msgs.push(
                                RaftMessage {
                                    from: my_id,
                                    to: p.id,
                                    term,
                                    kind: MessageKind::InstallSnapshot { snapshot },
                                },
                            );
                        },
                        None => {},
                    }
                } else {
                    match self.storage.entries(lo, last + 1) {
                        Ok(entries) => {
                            msgs.push(
                                RaftMessage {
                                    from: my_id,
                                    to: p.id,
                                    term,
                                    kind: MessageKind::Append {
                                        prev_index: p.matched,
                                        entries,
                                        commit,
                                    },
                                },
                            );
                        },
                        Err(_) => {},
                    }
                }
            }
            proof {
                assert(msgs_view(msgs@) =~= spec_heartbeats(
                    my_id,
                    term,
                    self.storage@,
                    self.progress@.take(i + 1),
                )) by {
                    assert(forall|k: int|
                        0 <= k < msgs@.len() ==> msgs_view(msgs@)[k] == msgs@[k]@);
                    assert(forall|k: int|
                        0 <= k < prevm.len() ==> msgs_view(prevm)[k] == prevm[k]@);
                    assert(forall|k: int| 0 <= k < prevm.len() ==> msgs@[k] == prevm[k]);
                }
            }
            i += 1;
        }
        proof {
            assert(self.progress@.take(self.progress@.len() as int) =~= self.progress@);
        }
        msgs
    }

    /// This node takes leadership of its term: it starts tracking
    /// every other member's progress and announces itself at once.
    fn become_leader(&mut self) -> (msgs: Vec<RaftMessage>)
        requires
            old(self).wf(),
        ensures
            final(self).wf(),
            final(self).role is Leader,
            final(self).leader_id == old(self).id(),
            final(self).votes@ == old(self).votes@,
            final(self).lifecycle == old(self).lifecycle,
            final(self).config.raft_config == old(self).config.raft_config,
            final(self).storage@ == old(self).storage@,
            final(self).peers@ == old(self).peers@,
            final(self).fsm.state() == old(self).fsm.state(),
            final(self).applied == old(self).applied,
            joins_view(final(self).pending_joins@) == joins_view(old(self).pending_joins@),
            final(self).pending_confs@ == old(self).pending_confs@,
            final(self).progress@ == spec_fresh_progress(old(self).peers@, old(self).id()),
            msgs_view(msgs@) == spec_heartbeats(
                old(self).id(),
                old(self).term(),
                old(self).storage@,
                spec_fresh_progress(old(self).peers@, old(self).id()),
            ),
            forall|i: int|
                0 <= i < msgs@.len() ==> (#[trigger] msgs@[i]@).from == old(self).id()
                    && msgs@[i]@.term == old(self).term(),
    {
        let my_id = self.config.raft_config.id;
        self.role = Role::Leader;
        self.leader_id = my_id;
        self.heartbeat_elapsed = 0;
        let mut progress: Vec<Progress> = Vec::new();
        let n = self.peers.len();
        let mut i: usize = 0;
        while i < n
            invariant
                self.wf(),
                my_id == self.id(),
                self.peers@ == old(self).peers@,
                self.storage@ == old(self).storage@,
                self.fsm.state() == old(self).fsm.state(),
                self.applied == old(self).applied,
                self.lifecycle == old(self).lifecycle,
                self.config.raft_config == old(self).config.raft_config,
                self.role is Leader,
                self.leader_id == my_id,
                joins_view(self.pending_joins@) == joins_view(old(self).pending_joins@),
                self.pending_confs@ == old(self).pending_confs@,
                self.votes@ == old(self).votes@,
                n == self.peers@.len(),
                0 <= i <= n,
                progress@ == spec_fresh_progress(self.peers@.take(i as int), my_id),
            decreases n - i,
        {
            proof {
                assert(self.peers@.take(i + 1).drop_last() =~= self.peers@.take(i as int));
                assert(self.peers@.take(i + 1).last() == self.peers@[i as int]);
            }
            let p = self.peers.at(i);
            if p.id != my_id {
                progress.push(Progress { id: p.id, matched: 0 });
            }
            i += 1;
        }
        proof {
            assert(self.peers@.take(self.peers@.len() as int) =~= self.peers@);
        }
        self.progress = progress;
        self.broadcast_heartbeats()
    }

    /// An election timeout fired: the node advances its term, votes
    /// for itself and asks every other member for a vote. A node that
    /// is a majority by itself takes leadership at once.
    fn campaign(&mut self) -> (msgs: Vec<RaftMessage>)
        requires
            old(self).wf(),
        ensures
            final(self).wf(),
            final(self).term() >= old(self).term(),
            old(self).term() < u64::MAX ==> final(self).term() == old(self).term() + 1 && (final(self).role is Candidate || final(self).role is Leader),
            old(self).term() < u64::MAX ==> msgs_view(msgs@) == (if 2 > old(self).peers@.len() {
                spec_heartbeats(
                    old(self).id(),
                    (old(self).term() + 1) as u64,
                    final(self).storage@,
                    spec_fresh_progress(old(self).peers@, old(self).id()),
                )
            } else {
                spec_vote_requests(old(self).peers@, old(self).id(), (old(self).term() + 1) as u64)
            }),
            old(self).term() == u64::MAX ==> msgs@.len() == 0,
            final(self).commit() == old(self).commit(),
            final(self).lifecycle == old(self).lifecycle,
            final(self).config.raft_config == old(self).config.raft_config,
            final(self).storage@.entries == old(self).storage@.entries,
            final(self).storage@.compacted == old(self).storage@.compacted,
            final(self).storage@.snapshot == old(self).storage@.snapshot,
            final(self).peers@ == old(self).peers@,
            final(self).fsm.state() == old(self).fsm.state(),
            final(self).applied == old(self).applied,
            joins_view(final(self).pending_joins@) == joins_view(old(self).pending_joins@),
            final(self).pending_confs@ == old(self).pending_confs@,
            forall|i: int| 0 <= i < msgs@.len() ==> (#[trigger] msgs@[i]@).from == old(self).id(),
    {
        let my_id = self.config.raft_config.id;
        let term = self.storage.hard_state().term;
        if term == u64::MAX {
            return Vec::new();
        }
        self.storage.set_term_vote(term + 1, my_id);
        self.role = Role::Candidate;
        self.leader_id = 0;
        self.votes = Vec::new();
        self.election_elapsed = 0;
        if self.has_majority(1) {
            self.become_leader()
        } else {
            let new_term = term + 1;
            let mut msgs: Vec<RaftMessage> = Vec::new();
            let n = self.peers.len();
            let mut i: usize = 0;
            while i < n
                invariant
                    self.wf(),
                    my_id == self.id(),
                    self.peers@ == old(self).peers@,
                    self.storage@.hard_state.term == new_term,
                    self.storage@.entries == old(self).storage@.entries,
                    self.storage@.compacted == old(self).storage@.compacted,
                    self.storage@.snapshot == old(self).storage@.snapshot,
                    self.commit() == old(self).commit(),
                    self.fsm.state() == old(self).fsm.state(),
                    self.applied == old(self).applied,
                    self.lifecycle == old(self).lifecycle,
                    self.config.raft_config == old(self).config.raft_config,
                    self.role is Candidate,
                    joins_view(self.pending_joins@) == joins_view(old(self).pending_joins@),
                    self.pending_confs@ == old(self).pending_confs@,
                    n == self.peers@.len(),
                    0 <= i <= n,
                    forall|k: int|
                        0 <= k < msgs@.len() ==> (#[trigger] msgs@[k]@).from == self.id(),
                    msgs_view(msgs@) == spec_vote_requests(
                        self.peers@.take(i as int),
                        my_id,
                        new_term,
                    ),
                decreases n - i,
            {
                proof {
                    assert(self.peers@.take(i + 1).drop_last() =~= self.peers@.take(i as int));
                    assert(self.peers@.take(i + 1).last() == self.peers@[i as int]);
                }
                let ghost prevm = msgs@;
                let p = self.peers.at(i);
                if p.id != my_id {
                    msgs.push(
                        RaftMessage {
                            from: my_id,
                            to: p.id,
                            term: new_term,
                            kind: MessageKind::RequestVote,
                        },
                    );
                }
                proof {
                    assert(msgs_view(msgs@) =~= spec_vote_requests(
                        self.peers@.take(i + 1),
                        my_id,
                        new_term,
                    )) by {
                        assert(forall|k: int|
                            0 <= k < msgs@.len() ==> msgs_view(msgs@)[k] == msgs@[k]@);
                        assert(forall|k: int|
                            0 <= k < prevm.len() ==> msgs_view(prevm)[k] == prevm[k]@);
                        assert(forall|k: int| 0 <= k < prevm.len() ==> msgs@[k] == prevm[k]);
                    }
                }
                i += 1;
            }
            proof {
                assert(self.peers@.take(self.peers@.len() as int) =~= self.peers@);
            }
            msgs
        }
    }

    /// One clock tick: a leader emits heartbeats on its heartbeat
    /// interval; anyone else counts toward its election timeout and
    /// campaigns when it fires. A stopped node ignores ticks entirely
    /// and stays exactly as it is.
    pub fn tick(&mut self) -> (out: Output<FSM>)
        requires
            old(self).wf(),
        ensures
            final(self).wf(),
            !(old(self).lifecycle is Running) ==> Self::same_state(final(self), old(self))
                && out.msgs@.len() == 0 && out.completions@.len() == 0,
            final(self).lifecycle == old(self).lifecycle,
            final(self).config.raft_config == old(self).config.raft_config,
            final(self).peers@ == old(self).peers@,
            final(self).fsm.state() == old(self).fsm.state(),
            final(self).applied == old(self).applied,
            final(self).storage@.entries == old(self).storage@.entries,
            final(self).storage@.compacted == old(self).storage@.compacted,
            final(self).storage@.snapshot == old(self).storage@.snapshot,
            final(self).commit() == old(self).commit(),
            final(self).term() >= old(self).term(),
            joins_view(final(self).pending_joins@) == joins_view(old(self).pending_joins@),
            final(self).pending_confs@ == old(self).pending_confs@,
            out.completions@.len() == 0,
            old(self).role is Leader ==> final(self).role is Leader && final(self).term() == old(self).term(),
            (old(self).lifecycle is Running && !(old(self).role is Leader)
                && old(self).election_elapsed < u64::MAX && old(self).election_elapsed + 1
                < spec_election_timeout(old(self).config.raft_config)) ==> final(self).election_elapsed
                == old(self).election_elapsed + 1 && final(self).role == old(self).role && final(self).term() == old(self).term() && out.msgs@.len() == 0,
            (old(self).lifecycle is Running && !(old(self).role is Leader)
                && old(self).election_elapsed < u64::MAX && old(self).election_elapsed + 1
                >= spec_election_timeout(old(self).config.raft_config) && old(self).term() < u64::MAX)
                ==> final(self).term() == old(self).term() + 1 && (final(self).role is Candidate
                || final(self).role is Leader),
            (old(self).lifecycle is Running && old(self).role is Leader) ==> final(self).heartbeat_elapsed == (if old(self).heartbeat_elapsed == u64::MAX {
                0
            } else if old(self).heartbeat_elapsed + 1 >= old(self).config.raft_config.heartbeat_tick {
                0
            } else {
                old(self).heartbeat_elapsed + 1
            }),
            (old(self).lifecycle is Running && old(self).role is Leader && (old(self).heartbeat_elapsed == u64::MAX || old(self).heartbeat_elapsed + 1 >= old(self).config.raft_config.heartbeat_tick)) ==> msgs_view(out.msgs@)
                == spec_heartbeats(
                old(self).id(),
                old(self).term(),
                old(self).storage@,
                old(self).progress@,
            ),
            (old(self).lifecycle is Running && old(self).role is Leader && !(old(self).heartbeat_elapsed == u64::MAX || old(self).heartbeat_elapsed + 1 >= old(self).config.raft_config.heartbeat_tick)) ==> out.msgs@.len() == 0,
            (old(self).lifecycle is Running && !(old(self).role is Leader) && old(self).election_elapsed < u64::MAX && old(self).election_elapsed + 1 >= spec_election_timeout(
                old(self).config.raft_config,
            ) && old(self).term() < u64::MAX) ==> msgs_view(out.msgs@) == (if 2 > old(self).peers@.len() {
                spec_heartbeats(
                    old(self).id(),
                    (old(self).term() + 1) as u64,
                    final(self).storage@,
                    spec_fresh_progress(old(self).peers@, old(self).id()),
                )
            } else {
                spec_vote_requests(old(self).peers@, old(self).id(), (old(self).term() + 1) as u64)
            }),
            forall|i: int|
                0 <= i < out.msgs@.len() ==> (#[trigger] out.msgs@[i]@).from == old(self).id(),
    {
        match self.lifecycle {
            Lifecycle::Running => {},
            _ => {
                return Output::empty();
            },
        }
        if self.is_leader() {
            if self.heartbeat_elapsed < u64::MAX {
                self.heartbeat_elapsed = self.heartbeat_elapsed + 1;
            }
            if self.heartbeat_elapsed >= self.config.raft_config.heartbeat_tick {
                self.heartbeat_elapsed = 0;
                let msgs = self.broadcast_heartbeats();
                return Output { msgs, completions: Vec::new() };
            }
            Output::empty()
        } else {
            if self.election_elapsed < u64::MAX {
                self.election_elapsed = self.election_elapsed + 1;
            }
            let et = self.config.raft_config.election_tick;
            let idv = self.config.raft_config.id;
            let timeout = if et > u64::MAX - idv {
                u64::MAX
            } else {
                et + idv
            };
            if self.election_elapsed >= timeout {
                let msgs = self.campaign();
                Output { msgs, completions: Vec::new() }
            } else {
                Output::empty()
            }
        }
    }
}

impl<FSM: AbstractStateMachine> RaftNode<FSM> {
    fn single_message(&self, to: u64, term: u64, kind: MessageKind) -> (out: Output<FSM>)
        ensures
            out.completions@.len() == 0,
            out.msgs@.len() == 1,
            out.msgs@[0]@ == (crate::message::MsgModel {
                from: self.id(),
                to,
                term,
                kind: kind@,
            }),
            forall|i: int|
                0 <= i < out.msgs@.len() ==> (#[trigger] out.msgs@[i]@).from == self.id(),
    {
        let mut msgs: Vec<RaftMessage> = Vec::new();
        msgs.push(RaftMessage { from: self.config.raft_config.id, to, term, kind });
        Output { msgs, completions: Vec::new() }
    }

    /// Feeds one inbound message to the consensus state. The produced
    /// batch is handled persist-first, send-second, apply-last. A
    /// stopped node processes nothing and stays exactly as it is.
    #[verifier::rlimit(100)]
    #[verifier::spinoff_prover]
    pub fn step(&mut self, msg: RaftMessage) -> (out: Output<FSM>)
        requires
            old(self).wf(),
        ensures
            final(self).wf(),
            !(old(self).lifecycle is Running) ==> Self::same_state(final(self), old(self))
                && out.msgs@.len() == 0 && out.completions@.len() == 0,
            final(self).lifecycle == old(self).lifecycle,
            final(self).config.raft_config == old(self).config.raft_config,
            final(self).term() >= old(self).term(),
            final(self).commit() >= old(self).commit(),
            final(self).applied >= old(self).applied,
            old(self).lifecycle is Running && msg@.to == old(self).id() ==> final(self).term()
                >= msg@.term,
            (old(self).lifecycle is Running && msg@.to == old(self).id()
                && msg@.kind is RequestVote) ==> ({
                let granted = msg@.term > old(self).term() || (msg@.term == old(self).term() && (
                old(self).storage@.hard_state.vote == 0 || old(self).storage@.hard_state.vote
                    == msg@.from));
                &&& out.msgs@.len() == 1
                &&& out.msgs@[0]@.to == msg@.from
                &&& out.msgs@[0]@.kind == (KindModel::Vote { granted })
                &&& (granted ==> final(self).storage@.hard_state.vote == msg@.from)
            }),
            (old(self).lifecycle is Running && msg@.to == old(self).id()
                && msg@.kind is Append && msg@.term >= old(self).term()) ==> final(self).role is Follower && final(self).leader_id == msg@.from && final(self).term()
                == msg@.term,
            (!(old(self).role is Leader) && final(self).role is Leader) ==> 2 * (final(self).votes@.len() + 1) > final(self).peers@.len(),
            msg@.kind matches KindModel::Append { prev_index, entries: sent, commit: lcommit }
                ==> ((old(self).lifecycle is Running && msg@.to == old(self).id() && msg@.term
                >= old(self).term() && prev_index <= crate::storage::spec_last_index(
                old(self).storage@,
            )) ==> ({
                let b = above_commit(sent, old(self).commit());
                let m0 = old(self).storage@;
                let ok = b.len() == 0 || (crate::storage::batch_contiguous(b) && b[0].index
                    <= crate::storage::spec_last_index(m0) + 1);
                let e2 = if b.len() == 0 || !ok {
                    m0.entries
                } else {
                    m0.entries.take(b[0].index - 1 - m0.compacted) + b
                };
                let new_last = m0.compacted + e2.len();
                let capped = if lcommit <= new_last {
                    lcommit as int
                } else {
                    new_last
                };
                let new_commit = if old(self).commit() >= capped {
                    old(self).commit() as int
                } else {
                    capped
                };
                &&& crate::storage::spec_last_index(final(self).storage@) == new_last
                &&& final(self).commit() == new_commit
                &&& final(self).applied == new_commit
                &&& final(self).peers@ == peers_fold(
                    old(self).peers@,
                    e2,
                    m0.compacted,
                    old(self).applied as int,
                    new_commit,
                )
                &&& final(self).fsm.state() == fold_apply::<FSM>(
                    old(self).fsm.state(),
                    normal_datas(e2, m0.compacted, old(self).applied as int, new_commit),
                )
                &&& out.msgs@.len() == 1
                &&& out.msgs@[0]@.to == msg@.from
                &&& out.msgs@[0]@.kind == (KindModel::AppendResponse {
                    last_index: new_last as u64,
                    success: ok,
                })
            })),
            msg@.kind matches KindModel::AppendResponse { last_index, success } ==> ((old(self).lifecycle is Running && msg@.to == old(self).id() && old(self).role is Leader
                && msg@.term == old(self).term()) ==> ({
                let p2 = spec_update_progress(old(self).progress@, msg@.from, last_index, success);
                let new_commit = spec_commit_advance(
                    p2,
                    old(self).peers@.len() as int,
                    old(self).commit(),
                    crate::storage::spec_last_index(old(self).storage@),
                );
                &&& final(self).commit() == new_commit
                &&& final(self).applied == new_commit
                &&& final(self).peers@ == peers_fold(
                    old(self).peers@,
                    old(self).storage@.entries,
                    old(self).storage@.compacted,
                    old(self).applied as int,
                    new_commit,
                )
                &&& final(self).fsm.state() == fold_apply::<FSM>(
                    old(self).fsm.state(),
                    normal_datas(
                        old(self).storage@.entries,
                        old(self).storage@.compacted,
                        old(self).applied as int,
                        new_commit,
                    ),
                )
                &&& ((forall|x: int|
                    old(self).applied < x <= new_commit ==> (#[trigger] old(self).storage@.entries[x - old(self).storage@.compacted - 1]).conf is None)
                    ==> final(self).progress@ == p2)
                &&& out.msgs@.len() == 0
            })),
            msg@.kind matches KindModel::InstallSnapshot { snapshot: snap } ==> ((old(self).lifecycle is Running && msg@.to == old(self).id() && msg@.term >= old(self).term())
                ==> ({
                let cur_snap: int = match old(self).storage@.snapshot {
                    Some(s) => s.index as int,
                    None => 0,
                };
                let stale = snap.index <= old(self).applied || snap.index <= cur_snap
                    || snap.index <= old(self).storage@.compacted;
                let untouched = {
                    &&& final(self).storage@.entries == old(self).storage@.entries
                    &&& final(self).storage@.compacted == old(self).storage@.compacted
                    &&& final(self).storage@.snapshot == old(self).storage@.snapshot
                    &&& final(self).applied == old(self).applied
                    &&& final(self).fsm.state() == old(self).fsm.state()
                    &&& out.msgs@[0]@.kind == (KindModel::AppendResponse {
                        last_index: crate::storage::spec_last_index(old(self).storage@) as u64,
                        success: false,
                    })
                };
                &&& out.msgs@.len() == 1
                &&& out.msgs@[0]@.to == msg@.from
                &&& (stale ==> untouched)
                &&& (!stale ==> untouched || ({
                    &&& final(self).fsm.state() == snap.data
                    &&& final(self).applied == snap.index
                    &&& final(self).storage@.compacted == snap.index
                    &&& final(self).storage@.snapshot == Some(snap)
                    &&& final(self).commit() >= snap.index
                    &&& out.msgs@[0]@.kind == (KindModel::AppendResponse {
                        last_index: crate::storage::spec_last_index(final(self).storage@) as u64,
                        success: true,
                    })
                }))
            })),
            forall|i: int|
                0 <= i < out.msgs@.len() ==> (#[trigger] out.msgs@[i]@).from == old(self).id(),
    {
        match self.lifecycle {
            Lifecycle::Running => {},
            _ => {
                return Output::empty();
            },
        }
        if msg.to != self.config.raft_config.id {
            return Output::empty();
        }
        let my_term = self.storage.hard_state().term;
        if msg.term > my_term {
            self.storage.set_term_vote(msg.term, 0);
            self.role = Role::Follower;
            self.leader_id = 0;
        }
        let cur = self.storage.hard_state().term;
        match msg.kind {
            MessageKind::RequestVote => {
                if msg.term < cur {
                    return self.single_message(
                        msg.from,
                        cur,
                        MessageKind::Vote { granted: false },
                    );
                }
                let hs = self.storage.hard_state();
                let granted = hs.vote == 0 || hs.vote == msg.from;
                if granted {
                    self.storage.set_term_vote(cur, msg.from);
                    self.election_elapsed = 0;
                }
                self.single_message(msg.from, cur, MessageKind::Vote { granted })
            },
            MessageKind::Vote { granted } => {
                let is_candidate = match self.role {
                    Role::Candidate => true,
                    _ => false,
                };
                if granted && msg.term == cur && is_candidate {
                    let mut k: usize = 0;
                    let mut seen = false;
                    while k < self.votes.len()
                        invariant
                            0 <= k <= self.votes@.len(),
                        decreases self.votes.len() - k,
                    {
                        if self.votes[k] == msg.from {
                            seen = true;
                            break ;
                        }
                        k += 1;
                    }
                    if !seen {
                        self.votes.push(msg.from);
                    }
                    let n = self.votes.len();
                    if self.has_majority(n as u128 + 1) {
                        let msgs = self.become_leader();
                        return Output { msgs, completions: Vec::new() };
                    }
                }
                Output::empty()
            },
            MessageKind::Append { prev_index, entries, commit } => {
                if msg.term < cur {
                    let last = self.storage.last_index();
                    return self.single_message(
                        msg.from,
                        cur,
                        MessageKind::AppendResponse { last_index: last, success: false },
                    );
                }
                self.role = Role::Follower;
                self.leader_id = msg.from;
                self.election_elapsed = 0;
                let last = self.storage.last_index();
                if prev_index > last {
                    return self.single_message(
                        msg.from,
                        cur,
                        MessageKind::AppendResponse { last_index: last, success: false },
                    );
                }
                let ghost m_b = self.storage@;
                let ghost bm = crate::storage::entries_view(entries@);
                let my_commit = self.storage.hard_state().commit;
                let mut batch: Vec<LogEntry> = Vec::new();
                let mut k: usize = 0;
                while k < entries.len()
                    invariant
                        0 <= k <= entries@.len(),
                        bm == crate::storage::entries_view(entries@),
                        bm.len() == entries@.len(),
                        crate::storage::entries_view(batch@) == above_commit(
                            bm.take(k as int),
                            my_commit,
                        ),
                        self.wf(),
                        self.storage@ == m_b,
                        self.role is Follower,
                        self.leader_id == msg@.from,
                        self.applied == old(self).applied,
                        self.peers@ == old(self).peers@,
                        self.fsm.state() == old(self).fsm.state(),
                        self.lifecycle == old(self).lifecycle,
                        self.config.raft_config == old(self).config.raft_config,
                    decreases entries.len() - k,
                {
                    proof {
                        assert(bm[k as int] == entries@[k as int]@);
                        assert(bm.take(k + 1).drop_last() =~= bm.take(k as int));
                        assert(bm.take(k + 1).last() == bm[k as int]);
                    }
                    if entries[k].index > my_commit {
                        let e = entries[k].duplicate();
                        let ghost prevb = batch@;
                        batch.push(e);
                        proof {
                            assert(crate::storage::entries_view(batch@) =~= above_commit(
                                bm.take(k + 1),
                                my_commit,
                            )) by {
                                assert(forall|j: int|
                                    0 <= j < batch@.len() ==> crate::storage::entries_view(
                                        batch@,
                                    )[j] == batch@[j]@);
                                assert(forall|j: int|
                                    0 <= j < prevb.len() ==> crate::storage::entries_view(
                                        prevb,
                                    )[j] == prevb[j]@);
                                assert(forall|j: int|
                                    0 <= j < prevb.len() ==> batch@[j] == prevb[j]);
                                assert(batch@[prevb.len() as int]@ == bm[k as int]);
                            }
                        }
                    } else {
                        proof {
                            assert(above_commit(bm.take(k + 1), my_commit) == above_commit(
                                bm.take(k as int),
                                my_commit,
                            ));
                        }
                    }
                    k += 1;
                }
                proof {
                    assert(bm.take(bm.len() as int) =~= bm);
                }
                let ghost bv = above_commit(bm, my_commit);
                proof {
                    lemma_above_commit(bm, my_commit);
                }
                let ok = if batch.len() > 0 {
                    match self.storage.append(batch) {
                        Ok(_) => {
                            proof {
                                assert(self.storage@.entries =~= m_b.entries.take(
                                    bv[0].index - 1 - m_b.compacted,
                                ) + bv);
                            }
                            true
                        },
                        Err(_) => {
                            proof {
                                assert(bv[0].index > my_commit);
                                assert(!(crate::storage::batch_contiguous(bv) && bv[0].index
                                    <= crate::storage::spec_last_index(m_b) + 1)) by {
                                    if crate::storage::batch_contiguous(bv) && bv[0].index
                                        <= crate::storage::spec_last_index(m_b) + 1 {
                                        assert(crate::storage::append_spec(m_b, bv) is Ok);
                                    }
                                }
                            }
                            false
                        },
                    }
                } else {
                    true
                };
                let new_last = self.storage.last_index();
                let target = if commit < new_last {
                    commit
                } else {
                    new_last
                };
                if target > self.storage.hard_state().commit {
                    self.storage.set_commit(target);
                }
                let completions = self.advance_apply();
                self.maybe_compact();
                let final_last = self.storage.last_index();
                proof {
                    assert(final_last == new_last);
                }
                let mut out = self.single_message(
                    msg.from,
                    cur,
                    MessageKind::AppendResponse { last_index: final_last, success: ok },
                );
                out.completions = completions;
                out
            },
            MessageKind::AppendResponse { last_index, success } => {
                let is_lead = self.is_leader();
                if is_lead && msg.term == cur {
                    let ghost pre_storage = self.storage@;
                    let ghost pre_applied = self.applied;
                    let ghost pre_progress = self.progress@;
                    let mut k: usize = 0;
                    let mut done_update = false;
                    while !done_update && k < self.progress.len()
                        invariant
                            0 <= k <= self.progress@.len(),
                            self.wf(),
                            self.storage@ == pre_storage,
                            self.applied == pre_applied,
                            self.lifecycle == old(self).lifecycle,
                            self.config.raft_config == old(self).config.raft_config,
                            self.peers@ == old(self).peers@,
                            self.fsm.state() == old(self).fsm.state(),
                            self.role == old(self).role,
                            self.leader_id == old(self).leader_id,
                            pre_storage.hard_state.term >= old(self).term(),
                            pre_storage.hard_state.commit >= old(self).commit(),
                            pre_applied >= old(self).applied,
                            !done_update ==> self.progress@ == pre_progress && forall|j: int|
                                0 <= j < k ==> pre_progress[j].id != msg@.from,
                            done_update ==> self.progress@ == spec_update_progress(
                                pre_progress,
                                msg@.from,
                                last_index,
                                success,
                            ),
                        decreases self.progress.len() - k, (if done_update { 0int } else { 1int }),
                    {
                        if self.progress[k].id == msg.from {
                            let p = self.progress[k];
                            let np = if success {
                                if last_index > p.matched {
                                    Progress { id: p.id, matched: last_index }
                                } else {
                                    p
                                }
                            } else {
                                if last_index < p.matched {
                                    Progress { id: p.id, matched: last_index }
                                } else {
                                    p
                                }
                            };
                            self.progress.set(k, np);
                            proof {
                                lemma_update_progress_at(
                                    pre_progress,
                                    msg@.from,
                                    last_index,
                                    success,
                                    k as int,
                                );
                                assert(self.progress@ =~= pre_progress.update(
                                    k as int,
                                    spec_new_matched(pre_progress[k as int], last_index, success),
                                ));
                            }
                            done_update = true;
                        } else {
                            k += 1;
                        }
                    }
                    proof {
                        if !done_update {
                            lemma_update_progress_none(
                                pre_progress,
                                msg@.from,
                                last_index,
                                success,
                            );
                        }
                        assert(self.progress@ == spec_update_progress(
                            pre_progress,
                            msg@.from,
                            last_index,
                            success,
                        ));
                    }
                    self.maybe_commit();
                    let completions = self.advance_apply();
                    self.maybe_compact();
                    return Output { msgs: Vec::new(), completions };
                }
                Output::empty()
            },
            MessageKind::InstallSnapshot { snapshot } => {
                if msg.term < cur {
                    let last = self.storage.last_index();
                    return self.single_message(
                        msg.from,
                        cur,
                        MessageKind::AppendResponse { last_index: last, success: false },
                    );
                }
                self.role = Role::Follower;
                self.leader_id = msg.from;
                self.election_elapsed = 0;
                if snapshot.meta.index <= self.applied {
                    let last = self.storage.last_index();
                    return self.single_message(
                        msg.from,
                        cur,
                        MessageKind::AppendResponse { last_index: last, success: false },
                    );
                }
                let snap_index = snapshot.meta.index;
                let cur_snap = match self.storage.snapshot_meta() {
                    Some(meta) => meta.index,
                    None => 0,
                };
                if snap_index <= cur_snap || snap_index <= self.storage.compacted_index() {
                    let last = self.storage.last_index();
                    return self.single_message(
                        msg.from,
                        cur,
                        MessageKind::AppendResponse { last_index: last, success: false },
                    );
                }
                let ok = match self.fsm.restore(snapshot.data.as_slice()) {
                    Ok(_) => {
                        let installed = self.storage.apply_snapshot(snapshot);
                        proof {
                            assert(installed is Ok);
                        }
                        self.applied = snap_index;
                        true
                    },
                    Err(_) => false,
                };
                let last = self.storage.last_index();
                self.single_message(
                    msg.from,
                    cur,
                    MessageKind::AppendResponse { last_index: last, success: ok },
                )
            },
        }
    }
}

impl<FSM: AbstractStateMachine> RaftNode<FSM> {
    /// The largest registered peer id, as the allocation rule counts
    /// it.
    fn peers_max(&self) -> (r: u64)
        ensures
            r == spec_peers_max(self.peers@),
    {
        let mut best: u64 = 0;
        let n = self.peers.len();
        let mut i: usize = 0;
        while i < n
            invariant
                0 <= i <= n,
                n == self.peers@.len(),
                best == spec_peers_max(self.peers@.take(i as int)),
            decreases n - i,
        {
            proof {
                assert(self.peers@.take(i + 1).drop_last() =~= self.peers@.take(i as int));
                assert(self.peers@.take(i + 1).last() == self.peers@[i as int]);
            }
            let p = self.peers.at(i);
            if p.id > best {
                best = p.id;
            }
            i += 1;
        }
        proof {
            assert(self.peers@.take(self.peers@.len() as int) =~= self.peers@);
        }
        best
    }

    /// The largest reserved join id.
    fn joins_max(&self) -> (r: u64)
        ensures
            r == spec_joins_max(joins_view(self.pending_joins@)),
    {
        let ghost js = joins_view(self.pending_joins@);
        let mut best: u64 = 0;
        let n = self.pending_joins.len();
        let mut i: usize = 0;
        while i < n
            invariant
                0 <= i <= n,
                n == self.pending_joins@.len(),
                js == joins_view(self.pending_joins@),
                js.len() == n,
                best == spec_joins_max(js.take(i as int)),
            decreases n - i,
        {
            proof {
                assert(js.take(i + 1).drop_last() =~= js.take(i as int));
                assert(js.take(i + 1).last() == js[i as int]);
                assert(js[i as int] == self.pending_joins@[i as int]@);
            }
            if self.pending_joins[i].reserved_id > best {
                best = self.pending_joins[i].reserved_id;
            }
            i += 1;
        }
        proof {
            assert(js.take(js.len() as int) =~= js);
        }
        best
    }

    /// The redirect payload pointing a caller at the current leader:
    /// its id and its registered address, or the empty string when no
    /// address is registered for it.
    fn leader_hint(&self) -> (r: (u64, String))
        ensures
            r.0 == self.leader_id,
            r.1@ == spec_hint_addr(self.peers@, self.leader_id),
    {
        let addr = match self.peers.get(self.leader_id) {
            Some(p) => p.address,
            None => String::new(),
        };
        (self.leader_id, addr)
    }

    /// A leader handles one `RequestId` from a joiner at `addr`: an
    /// address already holding a reservation gets nothing new, and no
    /// second id is ever allocated for it; a new address has the next
    /// unused id reserved and an `AddNode` change proposed. The
    /// acknowledgment itself is only emitted once that change commits.
    /// A non-leader answers with a redirect at once.
    pub fn handle_request_id(&mut self, addr: &str) -> (resp: Option<ServerResponseMsg>)
        requires
            old(self).wf(),
        ensures
            final(self).wf(),
            !(old(self).lifecycle is Running) ==> Self::same_state(final(self), old(self))
                && resp is None,
            old(self).lifecycle is Running && !(old(self).role is Leader) ==> Self::same_state(
                final(self),
                old(self),
            ) && (resp matches Some(ServerResponseMsg::RequestId {
                result,
                reserved_id,
                leader_id,
                leader_addr,
                peers,
            }) && reserved_id is None && peers is None && leader_id == Some(old(self).leader_id)
                && (result matches ResponseResult::WrongLeader { leader_id: hint_id, leader_addr: hint_addr }
                && hint_id == old(self).leader_id && hint_addr@ == spec_hint_addr(
                old(self).peers@,
                old(self).leader_id,
            )) && (leader_addr matches Some(a) && a@ == spec_hint_addr(
                old(self).peers@,
                old(self).leader_id,
            ))),
            final(self).lifecycle == old(self).lifecycle,
            final(self).config.raft_config == old(self).config.raft_config,
            final(self).role == old(self).role,
            final(self).leader_id == old(self).leader_id,
            final(self).peers@ == old(self).peers@,
            final(self).fsm.state() == old(self).fsm.state(),
            final(self).applied == old(self).applied,
            final(self).commit() == old(self).commit(),
            final(self).term() == old(self).term(),
            final(self).progress@ == old(self).progress@,
            final(self).pending_confs@ == old(self).pending_confs@,
            final(self).storage@.compacted == old(self).storage@.compacted,
            final(self).storage@.snapshot == old(self).storage@.snapshot,
            old(self).lifecycle is Running && old(self).role is Leader ==> ({
                let st = JoinState {
                    peers: old(self).peers@,
                    joins: joins_view(old(self).pending_joins@),
                    last_index: crate::storage::spec_last_index(old(self).storage@),
                };
                let st1 = request_id_step(st, addr@);
                &&& (join_pending(st.joins, addr@) ==> Self::same_state(final(self), old(self))
                    && resp is None)
                &&& (!join_pending(st.joins, addr@) && spec_max_reserved(st.peers, st.joins) + 1
                    <= u64::MAX && st.last_index < u64::MAX ==> {
                    &&& joins_view(final(self).pending_joins@) == st1.joins
                    &&& crate::storage::spec_last_index(final(self).storage@) == st1.last_index
                    &&& final(self).storage@.entries == old(self).storage@.entries.push(
                        EntryModel {
                            index: (st.last_index + 1) as u64,
                            term: old(self).term(),
                            data: Seq::empty(),
                            context: None,
                            conf: Some(
                                ConfChangeModel {
                                    change_type: ConfChangeType::AddNode,
                                    node_id: (spec_max_reserved(st.peers, st.joins) + 1) as u64,
                                    address: addr@,
                                },
                            ),
                        },
                    )
                    &&& final(self).peers@ == st1.peers
                    &&& final(self).applied == old(self).applied
                    &&& final(self).commit() == old(self).commit()
                    &&& resp is None
                })
            }),
    {
        match self.lifecycle {
            Lifecycle::Running => {},
            _ => {
                return None;
            },
        }
        if !self.is_leader() {
            let (leader_id, leader_addr) = self.leader_hint();
            return Some(
                ServerResponseMsg::RequestId {
                    result: ResponseResult::WrongLeader {
                        leader_id,
                        leader_addr: leader_addr.clone(),
                    },
                    reserved_id: None,
                    leader_id: Some(leader_id),
                    leader_addr: Some(leader_addr),
                    peers: None,
                },
            );
        }
        let ghost js = joins_view(self.pending_joins@);
        let addr_s = addr.to_owned();
        let n = self.pending_joins.len();
        let mut i: usize = 0;
        while i < n
            invariant
                self == old(self),
                self.wf(),
                old(self).role is Leader,
                old(self).lifecycle is Running,
                0 <= i <= n,
                n == self.pending_joins@.len(),
                js == joins_view(self.pending_joins@),
                js.len() == n,
                addr_s@ == addr@,
                forall|j: int| 0 <= j < i ==> js[j].address != addr@,
            decreases n - i,
        {
            proof {
                assert(js[i as int] == self.pending_joins@[i as int]@);
            }
            if self.pending_joins[i].address == addr_s {
                proof {
                    assert(js[i as int].address == addr@);
                    assert(join_pending(js, addr@));
                }
                return None;
            }
            i += 1;
        }
        proof {
            assert(!join_pending(js, addr@)) by {
                if join_pending(js, addr@) {
                    let w = choose|w: int| 0 <= w < js.len() && js[w].address == addr@;
                    assert(js[w].address != addr@);
                }
            }
        }
        let pm = self.peers_max();
        let jm = self.joins_max();
        let top = if pm >= jm {
            pm
        } else {
            jm
        };
        if top == u64::MAX {
            return Some(
                ServerResponseMsg::RequestId {
                    result: ResponseResult::Error(Error::WrongArgumentError),
                    reserved_id: None,
                    leader_id: Some(self.config.raft_config.id),
                    leader_addr: None,
                    peers: None,
                },
            );
        }
        let next_id = top + 1;
        let last = self.storage.last_index();
        if last == u64::MAX {
            return Some(
                ServerResponseMsg::RequestId {
                    result: ResponseResult::Error(Error::WrongArgumentError),
                    reserved_id: None,
                    leader_id: Some(self.config.raft_config.id),
                    leader_addr: None,
                    peers: None,
                },
            );
        }
        let change = ConfChange::new(ConfChangeType::AddNode, next_id, addr);
        match self.append_local_entry(Vec::new(), Some(change)) {
            Ok(idx) => {
                let ghost js_before = joins_view(self.pending_joins@);
                self.pending_joins.push(
                    PendingJoin { address: addr_s, reserved_id: next_id, index: idx },
                );
                proof {
                    assert(joins_view(self.pending_joins@) =~= js_before.push(
                        JoinModel { address: addr@, reserved_id: next_id, index: idx },
                    )) by {
                        let js2 = joins_view(self.pending_joins@);
                        assert(forall|j: int|
                            0 <= j < js2.len() ==> js2[j] == self.pending_joins@[j]@);
                        assert(forall|j: int|
                            0 <= j < js_before.len() ==> js_before[j]
                                == self.pending_joins@.drop_last()[j]@);
                    }
                    assert(forall|a: int, b: int|
                        0 <= a < b < joins_view(self.pending_joins@).len() ==> joins_view(
                            self.pending_joins@,
                        )[a].address != joins_view(self.pending_joins@)[b].address) by {
                        let js2 = joins_view(self.pending_joins@);
                        assert(forall|a: int| 0 <= a < js.len() ==> js2[a] == js[a]);
                        assert(js2[js.len() as int].address == addr@);
                    }
                }
                None
            },
            Err(e) => Some(
                ServerResponseMsg::RequestId {
                    result: ResponseResult::Error(e),
                    reserved_id: None,
                    leader_id: Some(self.config.raft_config.id),
                    leader_addr: None,
                    peers: None,
                },
            ),
        }
    }
}

/// The term recorded at the applied position: from the log where it
/// is still present, else from the snapshot that covers it.
pub open spec fn spec_applied_term(m: StorageModel, applied: u64) -> u64 {
    if applied > m.compacted {
        m.entries[applied - m.compacted - 1].term
    } else {
        match m.snapshot {
            Some(s) => s.term,
            None => 0,
        }
    }
}

/// The redirect address for a leader hint: the registered address of
/// `leader`, or empty when none is registered.
pub open spec fn spec_hint_addr(peers: Seq<PeerModel>, leader: u64) -> Seq<char> {
    match crate::peers::spec_get(peers, leader) {
        Some(a) => a,
        None => Seq::<char>::empty(),
    }
}

/// The election timeout of a node: the configured tick count,
/// staggered by the node id so that elections resolve; saturating so
/// that extreme configurations stay defined.
pub open spec fn spec_election_timeout(c: crate::config::RaftConfig) -> int {
    if c.election_tick + c.id > u64::MAX {
        u64::MAX as int
    } else {
        c.election_tick + c.id
    }
}

/// The words a node's debug line is built from.
pub open spec fn spec_role_name(r: Role) -> Seq<char> {
    match r {
        Role::Follower => "follower"@,
        Role::Candidate => "candidate"@,
        Role::Leader => "leader"@,
    }
}

impl<FSM: AbstractStateMachine> RaftNode<FSM> {
    /// A one-line human-readable summary of the node.
    pub fn describe(&self) -> (r: String)
        ensures
            r@ == "node "@ + crate::config::spec_decimal(self.id() as int) + " term "@
                + crate::config::spec_decimal(self.term() as int) + " "@ + spec_role_name(
                self.role,
            ),
    {
        let mut s = String::from_str("node ");
        let id_s = crate::config::u64_to_decimal(self.config.raft_config.id);
        s.append(id_s.as_str());
        s.append(" term ");
        let term_s = crate::config::u64_to_decimal(self.storage.hard_state().term);
        s.append(term_s.as_str());
        s.append(" ");
        let role_s = match self.role {
            Role::Follower => "follower",
            Role::Candidate => "candidate",
            Role::Leader => "leader",
        };
        s.append(role_s);
        s
    }

    /// Proposes one configuration change on the leader. The response
    /// is deferred until the change commits; a non-leader redirects
    /// and a malformed change is rejected at once.
    pub fn handle_conf_change(&mut self, change: ConfChange, local: bool) -> (resp: Option<
        ConfChangeResponseResult,
    >)
        requires
            old(self).wf(),
        ensures
            final(self).wf(),
            !(old(self).lifecycle is Running) ==> Self::same_state(final(self), old(self))
                && resp == Some(ConfChangeResponseResult::Error(Error::NodeStopped)),
            old(self).lifecycle is Running && !(old(self).role is Leader) ==> Self::same_state(
                final(self),
                old(self),
            ) && (resp matches Some(ConfChangeResponseResult::WrongLeader { leader_id, leader_addr })
                && leader_id == old(self).leader_id && leader_addr@ == spec_hint_addr(
                old(self).peers@,
                old(self).leader_id,
            )),
            old(self).lifecycle is Running && old(self).role is Leader ==> (resp is None <==> (
            change@.node_id != 0 && (change@.change_type is RemoveNode ==> spec_contains(
                old(self).peers@,
                change@.node_id,
            )) && crate::storage::spec_last_index(old(self).storage@) < u64::MAX)),
            final(self).lifecycle == old(self).lifecycle,
            final(self).config.raft_config == old(self).config.raft_config,
            final(self).peers@ == old(self).peers@,
            final(self).fsm.state() == old(self).fsm.state(),
            final(self).applied == old(self).applied,
            final(self).commit() == old(self).commit(),
            final(self).term() == old(self).term(),
            final(self).progress@ == old(self).progress@,
            final(self).role == old(self).role,
            final(self).leader_id == old(self).leader_id,
            joins_view(final(self).pending_joins@) == joins_view(old(self).pending_joins@),
            final(self).storage@.compacted == old(self).storage@.compacted,
            final(self).storage@.snapshot == old(self).storage@.snapshot,
            resp is Some ==> final(self).pending_confs@ == old(self).pending_confs@,
            resp is None ==> final(self).storage@.entries == old(self).storage@.entries.push(
                EntryModel {
                    index: (crate::storage::spec_last_index(old(self).storage@) + 1) as u64,
                    term: old(self).term(),
                    data: Seq::empty(),
                    context: None,
                    conf: Some(change@),
                },
            ) && final(self).pending_confs@ == old(self).pending_confs@.push(
                PendingConf {
                    index: (crate::storage::spec_last_index(old(self).storage@) + 1) as u64,
                    node_id: change@.node_id,
                    remove: change@.change_type is RemoveNode,
                    local,
                },
            ),
            resp is Some ==> Self::same_state(final(self), old(self)),
    {
        match self.lifecycle {
            Lifecycle::Running => {},
            _ => {
                return Some(ConfChangeResponseResult::Error(Error::NodeStopped));
            },
        }
        if !self.is_leader() {
            let (leader_id, leader_addr) = self.leader_hint();
            return Some(ConfChangeResponseResult::WrongLeader { leader_id, leader_addr });
        }
        if change.node_id == 0 {
            return Some(ConfChangeResponseResult::Error(Error::WrongArgumentError));
        }
        let remove = match change.change_type {
            ConfChangeType::RemoveNode => true,
            _ => false,
        };
        if remove && !self.peers.contains(change.node_id) {
            return Some(ConfChangeResponseResult::Error(Error::WrongArgumentError));
        }
        let node_id = change.node_id;
        match self.append_local_entry(Vec::new(), Some(change)) {
            Ok(idx) => {
                self.pending_confs.push(PendingConf { index: idx, node_id, remove, local });
                None
            },
            Err(e) => Some(ConfChangeResponseResult::Error(e)),
        }
    }

    /// Proposes one normal entry on the leader; a non-leader
    /// redirects.
    pub fn propose(&mut self, data: Vec<u8>) -> (resp: ResponseResult)
        requires
            old(self).wf(),
        ensures
            final(self).wf(),
            !(old(self).lifecycle is Running) ==> Self::same_state(final(self), old(self))
                && resp == ResponseResult::Error(Error::NodeStopped),
            old(self).lifecycle is Running && !(old(self).role is Leader) ==> Self::same_state(
                final(self),
                old(self),
            ) && (resp matches ResponseResult::WrongLeader { leader_id, leader_addr } && leader_id
                == old(self).leader_id && leader_addr@ == spec_hint_addr(
                old(self).peers@,
                old(self).leader_id,
            )),
            old(self).lifecycle is Running && old(self).role is Leader
                && crate::storage::spec_last_index(old(self).storage@) < u64::MAX ==> resp
                is Success && final(self).storage@.entries == old(self).storage@.entries.push(
                EntryModel {
                    index: (crate::storage::spec_last_index(old(self).storage@) + 1) as u64,
                    term: old(self).term(),
                    data: data@,
                    context: None,
                    conf: None,
                },
            ),
            final(self).lifecycle == old(self).lifecycle,
            final(self).config.raft_config == old(self).config.raft_config,
            final(self).peers@ == old(self).peers@,
            final(self).fsm.state() == old(self).fsm.state(),
            final(self).applied == old(self).applied,
            final(self).commit() == old(self).commit(),
            final(self).term() == old(self).term(),
            final(self).progress@ == old(self).progress@,
            final(self).role == old(self).role,
            final(self).leader_id == old(self).leader_id,
            joins_view(final(self).pending_joins@) == joins_view(old(self).pending_joins@),
            final(self).pending_confs@ == old(self).pending_confs@,
            final(self).storage@.compacted == old(self).storage@.compacted,
            final(self).storage@.snapshot == old(self).storage@.snapshot,
    {
        match self.lifecycle {
            Lifecycle::Running => {},
            _ => {
                return ResponseResult::Error(Error::NodeStopped);
            },
        }
        if !self.is_leader() {
            let (leader_id, leader_addr) = self.leader_hint();
            return ResponseResult::WrongLeader { leader_id, leader_addr };
        }
        match self.append_local_entry(data, None) {
            Ok(_) => ResponseResult::Success,
            Err(e) => ResponseResult::Error(e),
        }
    }

    /// After a leader-side proposal, drive whatever can already
    /// commit (it commits at once in a single-node cluster) and apply
    /// it, answering any request whose change committed.
    fn settle(&mut self) -> (completions: Vec<ResponseMessage<FSM>>)
        requires
            old(self).wf(),
        ensures
            final(self).wf(),
            final(self).lifecycle == old(self).lifecycle,
            final(self).config.raft_config == old(self).config.raft_config,
            final(self).term() == old(self).term(),
            !(old(self).lifecycle is Running) ==> Self::same_state(final(self), old(self))
                && completions@.len() == 0,
            (old(self).lifecycle is Running && !(old(self).role is Leader)) ==> Self::same_state(
                final(self),
                old(self),
            ) && completions@.len() == 0,
            (old(self).lifecycle is Running && old(self).role is Leader) ==> ({
                let new_commit = spec_commit_advance(
                    old(self).progress@,
                    old(self).peers@.len() as int,
                    old(self).commit(),
                    crate::storage::spec_last_index(old(self).storage@),
                );
                &&& final(self).commit() == new_commit
                &&& final(self).applied == new_commit
                &&& final(self).peers@ == peers_fold(
                    old(self).peers@,
                    old(self).storage@.entries,
                    old(self).storage@.compacted,
                    old(self).applied as int,
                    new_commit,
                )
                &&& final(self).fsm.state() == fold_apply::<FSM>(
                    old(self).fsm.state(),
                    normal_datas(
                        old(self).storage@.entries,
                        old(self).storage@.compacted,
                        old(self).applied as int,
                        new_commit,
                    ),
                )
                &&& crate::storage::spec_last_index(final(self).storage@)
                    == crate::storage::spec_last_index(old(self).storage@)
                &&& final(self).leader_id == old(self).leader_id
            }),
    {
        if self.is_running() && self.is_leader() {
            self.maybe_commit();
            let completions = self.advance_apply();
            self.maybe_compact();
            completions
        } else {
            Vec::new()
        }
    }

    /// Routes one in-process request: every query is answered from
    /// the node's own state, every mutation is driven through the
    /// consensus log, and a request whose answer must wait for a
    /// commit is answered through the returned completions instead.
    pub fn handle_local(&mut self, req: LocalRequestMsg) -> (r: (
        Option<LocalResponseMsg<FSM>>,
        Output<FSM>,
    ))
        requires
            old(self).wf(),
        ensures
            final(self).wf(),
            final(self).config.raft_config == old(self).config.raft_config,
            req is IsLeader ==> r.0 == Some(
                LocalResponseMsg::<FSM>::IsLeader { is_leader: old(self).role is Leader },
            ) && Self::same_state(final(self), old(self)),
            req is GetId ==> r.0 == Some(LocalResponseMsg::<FSM>::GetId { id: old(self).id() })
                && Self::same_state(final(self), old(self)),
            req is GetLeaderId ==> r.0 == Some(
                LocalResponseMsg::<FSM>::GetLeaderId { leader_id: old(self).leader_id },
            ) && Self::same_state(final(self), old(self)),
            req is GetPeers ==> (r.0 matches Some(LocalResponseMsg::GetPeers { peers }) && peers@
                == old(self).peers@) && Self::same_state(final(self), old(self)),
            req is GetClusterSize ==> r.0 == Some(
                LocalResponseMsg::<FSM>::GetClusterSize { size: old(self).peers@.len() as usize },
            ) && Self::same_state(final(self), old(self)),
            req is Store ==> (r.0 matches Some(LocalResponseMsg::Store { store }) && store.state()
                == old(self).fsm.state()) && Self::same_state(final(self), old(self)),
            req is Storage ==> (r.0 matches Some(LocalResponseMsg::Storage { storage }) && storage@
                == old(self).storage@) && Self::same_state(final(self), old(self)),
            req is Quit ==> final(self).lifecycle is Stopped && r.0 == Some(
                LocalResponseMsg::<FSM>::Quit {  },
            ) && joins_view(final(self).pending_joins@).len() == 0 && final(self).pending_confs@.len() == 0,
            req is DebugNode ==> (r.0 matches Some(LocalResponseMsg::DebugNode { .. }))
                && Self::same_state(final(self), old(self)),
            !(old(self).lifecycle is Running) && !(req is Quit) ==> Self::same_state(
                final(self),
                old(self),
            ),
            req is Propose ==> r.0 == Some(LocalResponseMsg::<FSM>::Propose {  }),
            req matches LocalRequestMsg::Propose { data } ==> ((old(self).lifecycle is Running
                && old(self).role is Leader && crate::storage::spec_last_index(old(self).storage@)
                < u64::MAX) ==> ({
                let e2 = old(self).storage@.entries.push(
                    EntryModel {
                        index: (crate::storage::spec_last_index(old(self).storage@) + 1) as u64,
                        term: old(self).term(),
                        data: data@,
                        context: None,
                        conf: None,
                    },
                );
                let new_commit = spec_commit_advance(
                    old(self).progress@,
                    old(self).peers@.len() as int,
                    old(self).commit(),
                    crate::storage::spec_last_index(old(self).storage@) + 1,
                );
                &&& crate::storage::spec_last_index(final(self).storage@)
                    == crate::storage::spec_last_index(old(self).storage@) + 1
                &&& final(self).commit() == new_commit
                &&& final(self).applied == new_commit
                &&& final(self).peers@ == peers_fold(
                    old(self).peers@,
                    e2,
                    old(self).storage@.compacted,
                    old(self).applied as int,
                    new_commit,
                )
                &&& final(self).fsm.state() == fold_apply::<FSM>(
                    old(self).fsm.state(),
                    normal_datas(
                        e2,
                        old(self).storage@.compacted,
                        old(self).applied as int,
                        new_commit,
                    ),
                )
            })),
            req matches LocalRequestMsg::ConfigChange { change } ==> ({
                &&& (!(old(self).lifecycle is Running) ==> r.0 == Some(
                    LocalResponseMsg::<FSM>::ConfigChange {
                        result: ConfChangeResponseResult::Error(Error::NodeStopped),
                    },
                ))
                &&& ((old(self).lifecycle is Running && !(old(self).role is Leader)) ==> (
                r.0 matches Some(LocalResponseMsg::ConfigChange { result }) && (
                result matches ConfChangeResponseResult::WrongLeader { leader_id, leader_addr }
                    && leader_id == old(self).leader_id && leader_addr@ == spec_hint_addr(
                    old(self).peers@,
                    old(self).leader_id,
                ))))
                &&& ((old(self).lifecycle is Running && old(self).role is Leader) ==> (r.0 is None
                    <==> (change@.node_id != 0 && (change@.change_type is RemoveNode
                    ==> spec_contains(old(self).peers@, change@.node_id))
                    && crate::storage::spec_last_index(old(self).storage@) < u64::MAX)))
            }),
            req matches LocalRequestMsg::AddPeer { peer } ==> r.0 == Some(
                LocalResponseMsg::<FSM>::AddPeer {  },
            ) && (old(self).lifecycle is Running ==> final(self).peers@ == apply_conf(
                old(self).peers@,
                ConfChangeModel {
                    change_type: ConfChangeType::AddNode,
                    node_id: peer@.id,
                    address: peer@.address,
                },
            )),
            req is MakeSnapshot ==> r.0 == Some(LocalResponseMsg::<FSM>::MakeSnapshot {  }) && (
            old(self).lifecycle is Running ==> (final(self).storage@ == old(self).storage@ || ({
                let m1 = crate::storage::create_snapshot_spec(
                    old(self).storage@,
                    old(self).fsm.state(),
                    old(self).applied,
                    spec_applied_term(old(self).storage@, old(self).applied),
                );
                &&& m1 is Ok
                &&& crate::storage::compact_spec(m1.unwrap(), old(self).applied) == Ok::<
                    StorageModel,
                    Error,
                >(final(self).storage@)
            }))),
    {
        match req {
            LocalRequestMsg::IsLeader => (
                Some(LocalResponseMsg::IsLeader { is_leader: self.is_leader() }),
                Output::empty(),
            ),
            LocalRequestMsg::GetId => (
                Some(LocalResponseMsg::GetId { id: self.get_id() }),
                Output::empty(),
            ),
            LocalRequestMsg::GetLeaderId => (
                Some(LocalResponseMsg::GetLeaderId { leader_id: self.get_leader_id() }),
                Output::empty(),
            ),
            LocalRequestMsg::GetPeers => (
                Some(LocalResponseMsg::GetPeers { peers: self.get_peers() }),
                Output::empty(),
            ),
            LocalRequestMsg::GetClusterSize => (
                Some(LocalResponseMsg::GetClusterSize { size: self.get_cluster_size() }),
                Output::empty(),
            ),
            LocalRequestMsg::Store => (
                Some(LocalResponseMsg::Store { store: self.fsm.duplicate() }),
                Output::empty(),
            ),
            LocalRequestMsg::Storage => (
                Some(LocalResponseMsg::Storage { storage: self.storage.duplicate() }),
                Output::empty(),
            ),
            LocalRequestMsg::DebugNode => (
                Some(LocalResponseMsg::DebugNode { result: self.describe() }),
                Output::empty(),
            ),
            LocalRequestMsg::Quit => {
                let mut completions: Vec<ResponseMessage<FSM>> = Vec::new();
                while self.pending_joins.len() > 0
                    invariant
                        self.wf(),
                        self.storage@ == old(self).storage@,
                        self.peers@ == old(self).peers@,
                        self.fsm.state() == old(self).fsm.state(),
                        self.lifecycle == old(self).lifecycle,
                        self.config.raft_config == old(self).config.raft_config,
                        self.pending_confs@ == old(self).pending_confs@,
                    decreases self.pending_joins.len(),
                {
                    let ghost js = joins_view(self.pending_joins@);
                    let j = self.pending_joins.pop();
                    proof {
                        let js2 = joins_view(self.pending_joins@);
                        assert(forall|a: int| 0 <= a < js2.len() ==> js2[a] == js[a]);
                    }
                    match j {
                        Some(_) => {
                            completions.push(
                                ResponseMessage::Server(
                                    ServerResponseMsg::RequestId {
                                        result: ResponseResult::Error(Error::NodeStopped),
                                        reserved_id: None,
                                        leader_id: None,
                                        leader_addr: None,
                                        peers: None,
                                    },
                                ),
                            );
                        },
                        None => {},
                    }
                }
                while self.pending_confs.len() > 0
                    invariant
                        self.wf(),
                        self.storage@ == old(self).storage@,
                        self.peers@ == old(self).peers@,
                        self.fsm.state() == old(self).fsm.state(),
                        self.lifecycle == old(self).lifecycle,
                        self.config.raft_config == old(self).config.raft_config,
                        joins_view(self.pending_joins@).len() == 0,
                    decreases self.pending_confs.len(),
                {
                    let pc = self.pending_confs.pop();
                    match pc {
                        Some(pc) => {
                            let result = ConfChangeResponseResult::Error(Error::NodeStopped);
                            if pc.local {
                                completions.push(
                                    ResponseMessage::Local(
                                        LocalResponseMsg::ConfigChange { result },
                                    ),
                                );
                            } else {
                                completions.push(
                                    ResponseMessage::Server(
                                        ServerResponseMsg::ConfigChange { result },
                                    ),
                                );
                            }
                        },
                        None => {},
                    }
                }
                self.quit();
                (
                    Some(LocalResponseMsg::Quit {  }),
                    Output { msgs: Vec::new(), completions },
                )
            },
            LocalRequestMsg::MakeSnapshot => {
                match self.lifecycle {
                    Lifecycle::Running => {
                        self.make_snapshot();
                    },
                    _ => {},
                }
                (Some(LocalResponseMsg::MakeSnapshot {  }), Output::empty())
            },
            LocalRequestMsg::AddPeer { peer } => {
                match self.lifecycle {
                    Lifecycle::Running => {
                        self.peers.insert_or_update(peer);
                    },
                    _ => {},
                }
                (Some(LocalResponseMsg::AddPeer {  }), Output::empty())
            },
            LocalRequestMsg::Propose { data } => {
                let result = self.propose(data);
                let completions = self.settle();
                (
                    Some(LocalResponseMsg::Propose {  }),
                    Output { msgs: Vec::new(), completions },
                )
            },
            LocalRequestMsg::ConfigChange { change } => {
                let immediate = self.handle_conf_change(change, true);
                let completions = self.settle();
                match immediate {
                    Some(result) => (
                        Some(LocalResponseMsg::ConfigChange { result }),
                        Output { msgs: Vec::new(), completions },
                    ),
                    None => (None, Output { msgs: Vec::new(), completions }),
                }
            },
        }
    }

    /// Routes one network-originated request.
    pub fn handle_server(&mut self, req: ServerRequestMsg) -> (r: (
        Option<ServerResponseMsg>,
        Output<FSM>,
    ))
        requires
            old(self).wf(),
        ensures
            final(self).wf(),
            final(self).config.raft_config == old(self).config.raft_config,
            req is MemberBootstrapReady ==> r.0 == Some(
                ServerResponseMsg::MemberBootstrapReady { result: ResponseResult::Success },
            ) && Self::same_state(final(self), old(self)),
            req is ClusterBootstrapReady ==> r.0 == Some(
                ServerResponseMsg::ClusterBootstrapReady { result: ResponseResult::Success },
            ) && Self::same_state(final(self), old(self)),
            req is ReportUnreachable ==> r.0 == Some(
                ServerResponseMsg::ReportUnreachable { result: ResponseResult::Success },
            ) && Self::same_state(final(self), old(self)),
            req is DebugNode ==> (r.0 matches Some(ServerResponseMsg::DebugNode { .. }))
                && Self::same_state(final(self), old(self)),
            !(old(self).lifecycle is Running) ==> Self::same_state(final(self), old(self)),
            req matches ServerRequestMsg::Propose { data } ==> ({
                &&& (!(old(self).lifecycle is Running) ==> r.0 == Some(
                    ServerResponseMsg::Propose {
                        result: ResponseResult::Error(Error::NodeStopped),
                    },
                ))
                &&& ((old(self).lifecycle is Running && !(old(self).role is Leader))
                    ==> Self::same_state(final(self), old(self)) && (r.0 matches Some(
                    ServerResponseMsg::Propose { result },
                ) && (result matches ResponseResult::WrongLeader { leader_id, leader_addr }
                    && leader_id == old(self).leader_id && leader_addr@ == spec_hint_addr(
                    old(self).peers@,
                    old(self).leader_id,
                ))))
                &&& ((old(self).lifecycle is Running && old(self).role is Leader
                    && crate::storage::spec_last_index(old(self).storage@) < u64::MAX) ==> ({
                    let e2 = old(self).storage@.entries.push(
                        EntryModel {
                            index: (crate::storage::spec_last_index(old(self).storage@)
                                + 1) as u64,
                            term: old(self).term(),
                            data: data@,
                            context: None,
                            conf: None,
                        },
                    );
                    let new_commit = spec_commit_advance(
                        old(self).progress@,
                        old(self).peers@.len() as int,
                        old(self).commit(),
                        crate::storage::spec_last_index(old(self).storage@) + 1,
                    );
                    &&& r.0 == Some(
                        ServerResponseMsg::Propose { result: ResponseResult::Success },
                    )
                    &&& crate::storage::spec_last_index(final(self).storage@)
                        == crate::storage::spec_last_index(old(self).storage@) + 1
                    &&& final(self).commit() == new_commit
                    &&& final(self).applied == new_commit
                    &&& final(self).peers@ == peers_fold(
                        old(self).peers@,
                        e2,
                        old(self).storage@.compacted,
                        old(self).applied as int,
                        new_commit,
                    )
                    &&& final(self).fsm.state() == fold_apply::<FSM>(
                        old(self).fsm.state(),
                        normal_datas(
                            e2,
                            old(self).storage@.compacted,
                            old(self).applied as int,
                            new_commit,
                        ),
                    )
                }))
            }),
            req matches ServerRequestMsg::ConfigChange { change } ==> ({
                &&& (!(old(self).lifecycle is Running) ==> r.0 == Some(
                    ServerResponseMsg::ConfigChange {
                        result: ConfChangeResponseResult::Error(Error::NodeStopped),
                    },
                ))
                &&& ((old(self).lifecycle is Running && !(old(self).role is Leader))
                    ==> Self::same_state(final(self), old(self)) && (r.0 matches Some(
                    ServerResponseMsg::ConfigChange { result },
                ) && (result matches ConfChangeResponseResult::WrongLeader {
                    leader_id,
                    leader_addr,
                } && leader_id == old(self).leader_id && leader_addr@ == spec_hint_addr(
                    old(self).peers@,
                    old(self).leader_id,
                ))))
                &&& ((old(self).lifecycle is Running && old(self).role is Leader) ==> ({
                    let valid = change@.node_id != 0 && (change@.change_type is RemoveNode
                        ==> spec_contains(old(self).peers@, change@.node_id))
                        && crate::storage::spec_last_index(old(self).storage@) < u64::MAX;
                    &&& (r.0 is None <==> valid)
                    &&& (valid ==> ({
                        let e2 = old(self).storage@.entries.push(
                            EntryModel {
                                index: (crate::storage::spec_last_index(old(self).storage@)
                                    + 1) as u64,
                                term: old(self).term(),
                                data: Seq::empty(),
                                context: None,
                                conf: Some(change@),
                            },
                        );
                        let new_commit = spec_commit_advance(
                            old(self).progress@,
                            old(self).peers@.len() as int,
                            old(self).commit(),
                            crate::storage::spec_last_index(old(self).storage@) + 1,
                        );
                        &&& crate::storage::spec_last_index(final(self).storage@)
                            == crate::storage::spec_last_index(old(self).storage@) + 1
                        &&& final(self).commit() == new_commit
                        &&& final(self).applied == new_commit
                        &&& final(self).peers@ == peers_fold(
                            old(self).peers@,
                            e2,
                            old(self).storage@.compacted,
                            old(self).applied as int,
                            new_commit,
                        )
                        &&& final(self).fsm.state() == fold_apply::<FSM>(
                            old(self).fsm.state(),
                            normal_datas(
                                e2,
                                old(self).storage@.compacted,
                                old(self).applied as int,
                                new_commit,
                            ),
                        )
                    }))
                }))
            }),
            req matches ServerRequestMsg::RequestId { addr } ==> ({
                &&& (!(old(self).lifecycle is Running) ==> r.0 is None && Self::same_state(
                    final(self),
                    old(self),
                ))
                &&& ((old(self).lifecycle is Running && !(old(self).role is Leader))
                    ==> Self::same_state(final(self), old(self)) && (r.0 matches Some(
                    ServerResponseMsg::RequestId { result, reserved_id, .. },
                ) && reserved_id is None && (result matches ResponseResult::WrongLeader {
                    leader_id,
                    leader_addr,
                } && leader_id == old(self).leader_id && leader_addr@ == spec_hint_addr(
                    old(self).peers@,
                    old(self).leader_id,
                ))))
                &&& ((old(self).lifecycle is Running && old(self).role is Leader && join_pending(
                    joins_view(old(self).pending_joins@),
                    addr@,
                )) ==> ({
                    &&& r.0 is None
                    &&& crate::storage::spec_last_index(final(self).storage@)
                        == crate::storage::spec_last_index(old(self).storage@)
                    &&& final(self).commit() == spec_commit_advance(
                        old(self).progress@,
                        old(self).peers@.len() as int,
                        old(self).commit(),
                        crate::storage::spec_last_index(old(self).storage@),
                    )
                    &&& final(self).applied == final(self).commit()
                }))
                &&& ((old(self).lifecycle is Running && old(self).role is Leader && !join_pending(
                    joins_view(old(self).pending_joins@),
                    addr@,
                ) && spec_max_reserved(old(self).peers@, joins_view(old(self).pending_joins@)) + 1
                    <= u64::MAX && crate::storage::spec_last_index(old(self).storage@)
                    < u64::MAX) ==> ({
                    let rid = (spec_max_reserved(
                        old(self).peers@,
                        joins_view(old(self).pending_joins@),
                    ) + 1) as u64;
                    let e2 = old(self).storage@.entries.push(
                        EntryModel {
                            index: (crate::storage::spec_last_index(old(self).storage@)
                                + 1) as u64,
                            term: old(self).term(),
                            data: Seq::empty(),
                            context: None,
                            conf: Some(
                                ConfChangeModel {
                                    change_type: ConfChangeType::AddNode,
                                    node_id: rid,
                                    address: addr@,
                                },
                            ),
                        },
                    );
                    let new_commit = spec_commit_advance(
                        old(self).progress@,
                        old(self).peers@.len() as int,
                        old(self).commit(),
                        crate::storage::spec_last_index(old(self).storage@) + 1,
                    );
                    &&& r.0 is None
                    &&& crate::storage::spec_last_index(final(self).storage@)
                        == crate::storage::spec_last_index(old(self).storage@) + 1
                    &&& final(self).commit() == new_commit
                    &&& final(self).applied == new_commit
                    &&& final(self).peers@ == peers_fold(
                        old(self).peers@,
                        e2,
                        old(self).storage@.compacted,
                        old(self).applied as int,
                        new_commit,
                    )
                    &&& final(self).fsm.state() == fold_apply::<FSM>(
                        old(self).fsm.state(),
                        normal_datas(
                            e2,
                            old(self).storage@.compacted,
                            old(self).applied as int,
                            new_commit,
                        ),
                    )
                }))
            }),
            req matches ServerRequestMsg::RaftMessage { message } ==> r.0 == Some(
                ServerResponseMsg::RaftMessage { result: ResponseResult::Success },
            ) && final(self).term() >= old(self).term() && final(self).commit() >= old(self).commit(),
    {
        match req {
            ServerRequestMsg::MemberBootstrapReady => (
                Some(
                    ServerResponseMsg::MemberBootstrapReady { result: ResponseResult::Success },
                ),
                Output::empty(),
            ),
            ServerRequestMsg::ClusterBootstrapReady => (
                Some(
                    ServerResponseMsg::ClusterBootstrapReady { result: ResponseResult::Success },
                ),
                Output::empty(),
            ),
            ServerRequestMsg::ReportUnreachable { node_id } => (
                Some(ServerResponseMsg::ReportUnreachable { result: ResponseResult::Success }),
                Output::empty(),
            ),
            ServerRequestMsg::DebugNode => (
                Some(ServerResponseMsg::DebugNode { result: self.describe() }),
                Output::empty(),
            ),
            ServerRequestMsg::Propose { data } => {
                let result = self.propose(data);
                let completions = self.settle();
                (
                    Some(ServerResponseMsg::Propose { result }),
                    Output { msgs: Vec::new(), completions },
                )
            },
            ServerRequestMsg::ConfigChange { change } => {
                let immediate = self.handle_conf_change(change, false);
                let completions = self.settle();
                match immediate {
                    Some(result) => (
                        Some(ServerResponseMsg::ConfigChange { result }),
                        Output { msgs: Vec::new(), completions },
                    ),
                    None => (None, Output { msgs: Vec::new(), completions }),
                }
            },
            ServerRequestMsg::RequestId { addr } => {
                let immediate = self.handle_request_id(addr.as_str());
                let completions = self.settle();
                (immediate, Output { msgs: Vec::new(), completions })
            },
            ServerRequestMsg::RaftMessage { message } => {
                let out = self.step(message);
                (Some(ServerResponseMsg::RaftMessage { result: ResponseResult::Success }), out)
            },
        }
    }
}

} // verus!
