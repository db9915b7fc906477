use raftify::cluster::Cluster;
use raftify::config::{build_config, Config, RaftConfig};
use raftify::node::{LocalRequestMsg, RaftNode, ServerRequestMsg};
use raftify::peers::{Peer, Peers};
use raftify::response_message::{
    ConfChangeResponseResult, LocalResponseMsg, ResponseMessage, ResponseResult, ServerResponseMsg,
};
use raftify::state_machine::MemStateMachine;
use raftify::storage::{ConfChange, ConfChangeType};

fn peers_of(list: &[(u64, &str)]) -> Peers {
    let mut peers = Peers::new();
    for (id, addr) in list {
        peers.insert_or_update(Peer::new(*id, addr));
    }
    peers
}

fn three_node_cluster() -> Cluster<MemStateMachine> {
    let mut cluster: Cluster<MemStateMachine> = Cluster::new();
    let list = [
        (1u64, "127.0.0.1:60061"),
        (2u64, "127.0.0.1:60062"),
        (3u64, "127.0.0.1:60063"),
    ];
    for id in 1u64..=3 {
        cluster.add_node(RaftNode::new(
            build_config(id),
            peers_of(&list),
            MemStateMachine::new(),
        ));
    }
    cluster
}

fn run_rounds(cluster: &mut Cluster<MemStateMachine>, rounds: usize) {
    for _ in 0..rounds {
        cluster.tick_all();
        cluster.deliver_all();
        cluster.deliver_all();
    }
}

#[test]
fn proposal_replicates_to_every_state_machine() {
    let mut cluster = three_node_cluster();
    run_rounds(&mut cluster, 30);
    let resp = cluster.send_server(1, ServerRequestMsg::Propose { data: vec![10, 20] });
    assert!(matches!(
        resp,
        Some(ServerResponseMsg::Propose {
            result: ResponseResult::Success
        })
    ));
    let resp2 = cluster.send_server(1, ServerRequestMsg::Propose { data: vec![30] });
    assert!(resp2.is_some());
    run_rounds(&mut cluster, 10);
    for node in cluster.nodes.iter() {
        assert_eq!(node.fsm.journal, vec![10, 20, 30]);
    }
}

#[test]
fn propose_to_follower_redirects_to_leader() {
    let mut cluster = three_node_cluster();
    run_rounds(&mut cluster, 30);
    // node 1 wins the election deterministically; 2 is a follower
    let resp = cluster.send_server(2, ServerRequestMsg::Propose { data: vec![1] });
    match resp {
        Some(ServerResponseMsg::Propose {
            result: ResponseResult::WrongLeader {
                leader_id,
                leader_addr,
            },
        }) => {
            assert_eq!(leader_id, 1);
            assert_eq!(leader_addr, "127.0.0.1:60061");
        }
        other => panic!("expected a redirect, got {:?}", other.is_some()),
    }
}

#[test]
fn idempotent_join_requests_allocate_one_id() {
    let mut cluster = three_node_cluster();
    run_rounds(&mut cluster, 30);
    let addr = "127.0.0.1:60070";
    // twice from the same unestablished address, before the first commit
    let r1 = cluster.send_server(1, ServerRequestMsg::RequestId { addr: String::from(addr) });
    assert!(r1.is_none());
    let r2 = cluster.send_server(1, ServerRequestMsg::RequestId { addr: String::from(addr) });
    assert!(r2.is_none());
    run_rounds(&mut cluster, 10);

    // exactly one id was allocated, observable in the final peer count
    let mut success = 0;
    for c in cluster.take_completions() {
        if let ResponseMessage::Server(ServerResponseMsg::RequestId { result, reserved_id, .. }) = c
        {
            assert!(matches!(result, ResponseResult::Success));
            assert_eq!(reserved_id, Some(4));
            success += 1;
        }
    }
    assert_eq!(success, 1);
    for node in cluster.nodes.iter() {
        assert_eq!(node.get_cluster_size(), 4);
    }
}

#[test]
fn conf_change_remove_unknown_node_is_rejected() {
    let mut cluster = three_node_cluster();
    run_rounds(&mut cluster, 30);
    let change = ConfChange::new(ConfChangeType::RemoveNode, 9, "");
    let resp = cluster.send_server(1, ServerRequestMsg::ConfigChange { change });
    assert!(matches!(
        resp,
        Some(ServerResponseMsg::ConfigChange {
            result: ConfChangeResponseResult::Error(raftify::error::Error::WrongArgumentError)
        })
    ));
}

#[test]
fn conf_change_remove_commits_and_shrinks_cluster() {
    let mut cluster = three_node_cluster();
    run_rounds(&mut cluster, 30);
    let change = ConfChange::new(ConfChangeType::RemoveNode, 3, "");
    let resp = cluster.send_server(1, ServerRequestMsg::ConfigChange { change });
    assert!(resp.is_none(), "acknowledged only after the commit");
    run_rounds(&mut cluster, 10);
    let mut removed = 0;
    for c in cluster.take_completions() {
        if let ResponseMessage::Server(ServerResponseMsg::ConfigChange { result }) = c {
            assert!(matches!(result, ConfChangeResponseResult::RemoveSuccess));
            removed += 1;
        }
    }
    assert_eq!(removed, 1);
    assert_eq!(cluster.nodes[0].get_cluster_size(), 2);
}

#[test]
fn quit_stops_ticks_and_message_processing() {
    let mut cluster = three_node_cluster();
    run_rounds(&mut cluster, 30);
    for id in 1u64..=3 {
        let resp = cluster.send_local(id, LocalRequestMsg::Quit);
        assert!(matches!(resp, Some(LocalResponseMsg::Quit {})));
    }
    // drain anything still in flight; stopped nodes process none of it
    cluster.deliver_all();
    let before: Vec<String> = cluster.nodes.iter().map(|n| n.describe()).collect();
    run_rounds(&mut cluster, 5);
    let after: Vec<String> = cluster.nodes.iter().map(|n| n.describe()).collect();
    assert_eq!(before, after, "no state change after a subsequent wait interval");
    for id in 1u64..=3 {
        assert!(!cluster.is_running(id));
    }
    // and a further request is answered only with the stopped error
    let resp = cluster.send_server(1, ServerRequestMsg::Propose { data: vec![1] });
    assert!(matches!(
        resp,
        Some(ServerResponseMsg::Propose {
            result: ResponseResult::Error(raftify::error::Error::NodeStopped)
        })
    ));
}

#[test]
fn local_queries_answer_from_node_state() {
    let mut cluster = three_node_cluster();
    run_rounds(&mut cluster, 30);
    assert!(matches!(
        cluster.send_local(1, LocalRequestMsg::IsLeader),
        Some(LocalResponseMsg::IsLeader { is_leader: true })
    ));
    assert!(matches!(
        cluster.send_local(2, LocalRequestMsg::GetId),
        Some(LocalResponseMsg::GetId { id: 2 })
    ));
    assert!(matches!(
        cluster.send_local(3, LocalRequestMsg::GetLeaderId),
        Some(LocalResponseMsg::GetLeaderId { leader_id: 1 })
    ));
    match cluster.send_local(2, LocalRequestMsg::GetClusterSize) {
        Some(LocalResponseMsg::GetClusterSize { size }) => assert_eq!(size, 3),
        _ => panic!("expected a cluster size"),
    }
    match cluster.send_local(1, LocalRequestMsg::Store) {
        Some(LocalResponseMsg::Store { store }) => assert_eq!(store.journal, Vec::<u8>::new()),
        _ => panic!("expected the state machine copy"),
    }
    match cluster.send_local(1, LocalRequestMsg::DebugNode) {
        Some(LocalResponseMsg::DebugNode { result }) => {
            assert_eq!(result, "node 1 term 1 leader");
        }
        _ => panic!("expected a debug line"),
    }
}

#[test]
fn compaction_trigger_at_threshold() {
    // a tiny threshold so that a few proposals trigger compaction
    let mut config = build_config(1);
    config.compacted_log_size_threshold = 4;
    let mut cluster: Cluster<MemStateMachine> = Cluster::new();
    cluster.add_node(RaftNode::new(
        config,
        peers_of(&[(1, "127.0.0.1:60061")]),
        MemStateMachine::new(),
    ));
    run_rounds(&mut cluster, 15);
    assert!(cluster.nodes[0].is_leader());
    for _ in 0..3 {
        cluster.send_server(1, ServerRequestMsg::Propose { data: vec![1, 2, 3] });
    }
    // the log passed the threshold: a snapshot was taken and entries
    // below it were discarded
    let node = &cluster.nodes[0];
    assert!(node.storage.snapshot_meta().is_some());
    assert!(node.storage.compacted_index() > 0);
    // the replicated state machine kept the full journal
    assert_eq!(node.fsm.journal, vec![1, 2, 3, 1, 2, 3, 1, 2, 3]);
}

#[test]
fn stopped_node_rejects_proposals_with_error() {
    let mut cluster: Cluster<MemStateMachine> = Cluster::new();
    cluster.add_node(RaftNode::new(
        build_config(1),
        peers_of(&[(1, "127.0.0.1:60061")]),
        MemStateMachine::new(),
    ));
    run_rounds(&mut cluster, 15);
    let mut node = cluster.nodes.remove(0);
    node.quit();
    let result = node.propose(vec![1]);
    assert!(matches!(
        result,
        ResponseResult::Error(raftify::error::Error::NodeStopped)
    ));
}

#[test]
fn default_raft_config() {
    let d = RaftConfig::default();
    assert_eq!(d.id, 0);
    assert_eq!(d.election_tick, 10);
    assert_eq!(d.heartbeat_tick, 3);
    assert!(!d.omit_heartbeat_log);
}

#[test]
fn build_config_sets_the_documented_fields() {
    let c: Config = build_config(5);
    assert_eq!(c.raft_config.id, 5);
    assert_eq!(c.raft_config.election_tick, 10);
    assert_eq!(c.raft_config.heartbeat_tick, 3);
    assert!(c.raft_config.omit_heartbeat_log);
    assert!(c.save_compacted_logs);
    assert_eq!(c.compacted_log_size_threshold, 1024 * 1024 * 1024);
    assert_eq!(c.log_dir, "./logs/5");
    assert_eq!(c.compacted_log_dir, "./logs/5");
}
