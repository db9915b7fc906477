use raftify::cluster::Cluster;
use raftify::config::build_config;
use raftify::node::{RaftNode, ServerRequestMsg};
use raftify::peers::{Peer, Peers};
use raftify::response_message::{ResponseMessage, ResponseResult, ServerResponseMsg};
use raftify::state_machine::MemStateMachine;

const RAFT_ADDRS: [&str; 3] = ["127.0.0.1:60061", "127.0.0.1:60062", "127.0.0.1:60063"];

fn three_node_peers() -> Peers {
    let mut peers = Peers::new();
    peers.insert_or_update(Peer::new(1, RAFT_ADDRS[0]));
    peers.insert_or_update(Peer::new(2, RAFT_ADDRS[1]));
    peers.insert_or_update(Peer::new(3, RAFT_ADDRS[2]));
    peers
}

fn run_rounds(cluster: &mut Cluster<MemStateMachine>, rounds: usize) {
    let mut i = 0;
    while i < rounds {
        cluster.tick_all();
        cluster.deliver_all();
        cluster.deliver_all();
        i += 1;
    }
}

fn leader_count(cluster: &Cluster<MemStateMachine>) -> usize {
    let mut count = 0;
    for node in cluster.nodes.iter() {
        if node.is_leader() && node.is_running() {
            count += 1;
        }
    }
    count
}

#[test]
pub fn test_static_bootstrap() {
    let mut cluster: Cluster<MemStateMachine> = Cluster::new();
    for id in 1u64..=3 {
        let node = RaftNode::new(build_config(id), three_node_peers(), MemStateMachine::new());
        cluster.add_node(node);
    }
    run_rounds(&mut cluster, 40);

    // exactly one leader, and all nodes agree on the current term
    assert_eq!(leader_count(&cluster), 1);
    let term = cluster.nodes[0].storage.hard_state().term;
    for node in cluster.nodes.iter() {
        assert_eq!(node.storage.hard_state().term, term);
        assert_eq!(node.get_cluster_size(), 3);
    }

    for id in 1u64..=3 {
        cluster.quit_node(id);
    }
    run_rounds(&mut cluster, 5);
    for id in 1u64..=3 {
        assert!(!cluster.is_running(id));
    }
}

fn join_one(cluster: &mut Cluster<MemStateMachine>, seed: u64, addr: &str) -> u64 {
    let resp = cluster.send_server(
        seed,
        ServerRequestMsg::RequestId {
            addr: String::from(addr),
        },
    );
    assert!(resp.is_none(), "the join is acknowledged only after its commit");
    run_rounds(cluster, 5);
    let mut assigned = None;
    let mut joined_peers = None;
    for c in cluster.take_completions() {
        if let ResponseMessage::Server(ServerResponseMsg::RequestId {
            result,
            reserved_id,
            peers,
            ..
        }) = c
        {
            assert!(matches!(result, ResponseResult::Success));
            assigned = reserved_id;
            joined_peers = peers;
        }
    }
    let assigned = assigned.expect("the committed join must answer with the reserved id");
    let peers = joined_peers.expect("the join answer carries the peer list");
    let node = RaftNode::new(build_config(assigned), peers, MemStateMachine::new());
    cluster.add_node(node);
    run_rounds(cluster, 5);
    assigned
}

#[test]
pub fn test_dynamic_bootstrap() {
    let mut cluster: Cluster<MemStateMachine> = Cluster::new();
    let mut peers = Peers::new();
    peers.insert_or_update(Peer::new(1, RAFT_ADDRS[0]));
    let node = RaftNode::new(build_config(1), peers, MemStateMachine::new());
    cluster.add_node(node);
    run_rounds(&mut cluster, 15);
    assert!(cluster.nodes[0].is_leader());
    assert_eq!(cluster.nodes[0].get_cluster_size(), 1);

    let id2 = join_one(&mut cluster, 1, "127.0.0.1:60062");
    assert_eq!(id2, 2);
    let id3 = join_one(&mut cluster, 1, "127.0.0.1:60063");
    assert_eq!(id3, 3);
    run_rounds(&mut cluster, 10);

    // the observed cluster size grew from 1 to 3, and every joined
    // node appears in every node's peer list with a matching address
    for node in cluster.nodes.iter() {
        assert_eq!(node.get_cluster_size(), 3);
        let peers = node.get_peers();
        for (id, addr) in [(1u64, RAFT_ADDRS[0]), (2, "127.0.0.1:60062"), (3, "127.0.0.1:60063")] {
            let p = peers.get(id).expect("every member is registered on every node");
            assert_eq!(p.address, addr);
        }
    }

    for id in 1u64..=3 {
        cluster.quit_node(id);
    }
    for id in 1u64..=3 {
        assert!(!cluster.is_running(id));
    }
}
