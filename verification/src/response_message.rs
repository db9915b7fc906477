//! The typed response-routing layer.
//!
//! Every request entering the node loop produces exactly one response,
//! carried by one of two channels: `Local` for in-process callers,
//! whose results may hand back heavyweight in-process objects, and
//! `Server` for remote callers, whose results are restricted to
//! wire-representable kinds. The split is a sum type, so a
//! non-serializable handle can never leak onto the wire.

use vstd::prelude::*;

use crate::error::Error;
use crate::peers::Peers;
use crate::state_machine::AbstractStateMachine;
use crate::storage::LogStore;

verus! {

/// The outcome of an ordinary operation. A `WrongLeader` redirect is
/// a normal outcome of contacting a non-leader, not an error.
pub enum ResponseResult {
    Success,
    Error(Error),
    WrongLeader { leader_id: u64, leader_addr: String },
}

/// The outcome of a configuration-change operation.
pub enum ConfChangeResponseResult {
    JoinSuccess { assigned_id: u64, peers: Peers },
    RemoveSuccess,
    Error(Error),
    WrongLeader { leader_id: u64, leader_addr: String },
}

/// A response destined for a remote, RPC-originated caller: only
/// wire-representable payloads.
pub enum ServerResponseMsg {
    MemberBootstrapReady { result: ResponseResult },
    ClusterBootstrapReady { result: ResponseResult },
    Propose { result: ResponseResult },
    ConfigChange { result: ConfChangeResponseResult },
    RequestId {
        result: ResponseResult,
        reserved_id: Option<u64>,
        leader_id: Option<u64>,
        leader_addr: Option<String>,
        peers: Option<Peers>,
    },
    ReportUnreachable { result: ResponseResult },
    DebugNode { result: String },
    RaftMessage { result: ResponseResult },
}

/// A response destined for an in-process caller: may carry ownership
/// of heavyweight objects such as the state-machine copy or the
/// storage handle.
pub enum LocalResponseMsg<FSM: AbstractStateMachine> {
    IsLeader { is_leader: bool },
    GetId { id: u64 },
    GetLeaderId { leader_id: u64 },
    GetPeers { peers: Peers },
    AddPeer {},
    Store { store: FSM },
    Storage { storage: LogStore },
    GetClusterSize { size: usize },
    ConfigChange { result: ConfChangeResponseResult },
    Quit {},
    MakeSnapshot {},
    Propose {},
    DebugNode { result: String },
}

impl<FSM: AbstractStateMachine> LocalResponseMsg<FSM> {
    /// A short, stable name of the response kind, for diagnostics.
    pub fn kind_name(&self) -> (r: &'static str)
        ensures
            (*self is IsLeader) ==> r@ == "is leader"@,
            (*self is GetId) ==> r@ == "get id"@,
            (*self is GetLeaderId) ==> r@ == "get leader id"@,
            (*self is GetPeers) ==> r@ == "get peers"@,
            (*self is AddPeer) ==> r@ == "add peer"@,
            (*self is Store) ==> r@ == "store"@,
            (*self is Storage) ==> r@ == "storage"@,
            (*self is GetClusterSize) ==> r@ == "get cluster size"@,
            (*self is ConfigChange) ==> r@ == "config change"@,
            (*self is Quit) ==> r@ == "quit"@,
            (*self is MakeSnapshot) ==> r@ == "make snapshot"@,
            (*self is Propose) ==> r@ == "propose"@,
            (*self is DebugNode) ==> r@ == "debug node"@,
    {
        match self {
            LocalResponseMsg::IsLeader { .. } => "is leader",
            LocalResponseMsg::GetId { .. } => "get id",
            LocalResponseMsg::GetLeaderId { .. } => "get leader id",
            LocalResponseMsg::GetPeers { .. } => "get peers",
            LocalResponseMsg::AddPeer { .. } => "add peer",
            LocalResponseMsg::Store { .. } => "store",
            LocalResponseMsg::Storage { .. } => "storage",
            LocalResponseMsg::GetClusterSize { .. } => "get cluster size",
            LocalResponseMsg::ConfigChange { .. } => "config change",
            LocalResponseMsg::Quit { .. } => "quit",
            LocalResponseMsg::MakeSnapshot { .. } => "make snapshot",
            LocalResponseMsg::Propose { .. } => "propose",
            LocalResponseMsg::DebugNode { .. } => "debug node",
        }
    }
}

/// A response on its way to whichever channel the request came in on.
pub enum ResponseMessage<FSM: AbstractStateMachine> {
    Server(ServerResponseMsg),
    Local(LocalResponseMsg<FSM>),
}

impl<FSM: AbstractStateMachine> From<LocalResponseMsg<FSM>> for ResponseMessage<FSM> {
    fn from(msg: LocalResponseMsg<FSM>) -> (r: Self) {
        ResponseMessage::Local(msg)
    }
}

impl<FSM: AbstractStateMachine> vstd::std_specs::convert::FromSpecImpl<LocalResponseMsg<FSM>>
    for ResponseMessage<FSM> {
    open spec fn obeys_from_spec() -> bool {
        true
    }

    open spec fn from_spec(msg: LocalResponseMsg<FSM>) -> Self {
        ResponseMessage::Local(msg)
    }
}

impl<FSM: AbstractStateMachine> From<ServerResponseMsg> for ResponseMessage<FSM> {
    fn from(msg: ServerResponseMsg) -> (r: Self) {
        ResponseMessage::Server(msg)
    }
}

impl<FSM: AbstractStateMachine> vstd::std_specs::convert::FromSpecImpl<ServerResponseMsg>
    for ResponseMessage<FSM> {
    open spec fn obeys_from_spec() -> bool {
        true
    }

    open spec fn from_spec(msg: ServerResponseMsg) -> Self {
        ResponseMessage::Server(msg)
    }
}

} // verus!
