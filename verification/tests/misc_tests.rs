use raftify::config::u64_to_decimal;
use raftify::error::Error;
use raftify::peers::{Peer, Peers};
use raftify::response_message::{
    ConfChangeResponseResult, LocalResponseMsg, ResponseMessage, ResponseResult, ServerResponseMsg,
};
use raftify::state_machine::{AbstractLogEntry, AbstractStateMachine, BytesEntry, MemStateMachine};

#[test]
fn decimal_rendering() {
    assert_eq!(u64_to_decimal(0), "0");
    assert_eq!(u64_to_decimal(7), "7");
    assert_eq!(u64_to_decimal(10), "10");
    assert_eq!(u64_to_decimal(4096), "4096");
    assert_eq!(u64_to_decimal(u64::MAX), "18446744073709551615");
}

#[test]
fn error_kind_names() {
    assert_eq!(Error::ApplyError.kind_name(), "apply error");
    assert_eq!(Error::DecodingError.kind_name(), "decoding error");
    assert_eq!(Error::EncodingError.kind_name(), "encoding error");
    assert_eq!(Error::RestoreError.kind_name(), "restore error");
    assert_eq!(Error::WrongArgumentError.kind_name(), "wrong argument");
    assert_eq!(Error::SnapshotError.kind_name(), "snapshot error");
    assert_eq!(Error::LogGap.kind_name(), "log gap");
    assert_eq!(Error::LogCompacted.kind_name(), "log compacted");
    assert_eq!(Error::LogOutOfRange.kind_name(), "log out of range");
    assert_eq!(Error::NodeStopped.kind_name(), "node stopped");
}

#[test]
fn response_message_from_local_and_server() {
    let local: ResponseMessage<MemStateMachine> =
        ResponseMessage::from(LocalResponseMsg::Quit {});
    assert!(matches!(local, ResponseMessage::Local(LocalResponseMsg::Quit {})));

    let server: ResponseMessage<MemStateMachine> = ResponseMessage::from(
        ServerResponseMsg::Propose {
            result: ResponseResult::Success,
        },
    );
    assert!(matches!(
        server,
        ResponseMessage::Server(ServerResponseMsg::Propose {
            result: ResponseResult::Success
        })
    ));
}

#[test]
fn local_response_kind_names() {
    let m: LocalResponseMsg<MemStateMachine> = LocalResponseMsg::IsLeader { is_leader: true };
    assert_eq!(m.kind_name(), "is leader");
    let m: LocalResponseMsg<MemStateMachine> = LocalResponseMsg::Store {
        store: MemStateMachine::new(),
    };
    assert_eq!(m.kind_name(), "store");
    let m: LocalResponseMsg<MemStateMachine> = LocalResponseMsg::ConfigChange {
        result: ConfChangeResponseResult::RemoveSuccess,
    };
    assert_eq!(m.kind_name(), "config change");
}

#[test]
fn peer_registry_basics() {
    let mut peers = Peers::new();
    peers.insert_or_update(Peer::new(1, "a:1"));
    peers.insert_or_update(Peer::new(2, "b:2"));
    assert_eq!(peers.len(), 2);
    assert_eq!(peers.get(1).unwrap().address, "a:1");
    // replacing the entry with the same id keeps the registry size
    peers.insert_or_update(Peer::new(1, "c:3"));
    assert_eq!(peers.len(), 2);
    assert_eq!(peers.get(1).unwrap().address, "c:3");
    peers.remove(1);
    assert_eq!(peers.len(), 1);
    assert!(peers.get(1).is_none());
    assert_eq!(peers.max_id(), 2);
    let copy = peers.snapshot();
    assert_eq!(copy.len(), 1);
    assert_eq!(copy.get(2).unwrap().address, "b:2");
}

#[test]
fn state_machine_apply_snapshot_restore() {
    let mut fsm = MemStateMachine::new();
    assert!(fsm.apply(&[1, 2]).is_ok());
    assert!(fsm.apply(&[3]).is_ok());
    assert_eq!(fsm.journal, vec![1, 2, 3]);
    let snap = fsm.snapshot().unwrap();
    assert_eq!(snap, vec![1, 2, 3]);
    let mut other = MemStateMachine::new();
    assert!(other.restore(&snap).is_ok());
    assert_eq!(other.journal, vec![1, 2, 3]);
    let copy = other.duplicate();
    assert_eq!(copy.journal, vec![1, 2, 3]);
}

#[test]
fn log_entry_bytes_round_trip() {
    let e = BytesEntry {
        inner: vec![5, 6, 7],
    };
    let encoded = e.encode();
    assert_eq!(encoded, vec![5, 6, 7]);
    let decoded = BytesEntry::decode(&encoded).unwrap();
    assert_eq!(decoded.inner, vec![5, 6, 7]);
}
