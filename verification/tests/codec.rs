use sozu::codec::{encode_frame, ChannelError, FrameBuffer};
use sozu::net::SocketAddress;
use sozu::server::CommandServer;
use sozu::state::{ConfigCommand, ConfigState};
use sozu::types::{Cluster, LoadBalancingAlgorithm, ProtocolVersion};

#[test]
fn frames_round_trip_in_order() {
    let first = vec![1u8, 2, 3];
    let second = vec![9u8, 8, 7, 6];
    let f1 = encode_frame(&first, 1024).unwrap();
    let f2 = encode_frame(&second, 1024).unwrap();
    // the four-byte big-endian length precedes the payload
    assert_eq!(f1, vec![0, 0, 0, 3, 1, 2, 3]);

    let mut buffer = FrameBuffer::new();
    buffer.feed(&f1);
    buffer.feed(&f2);
    // frames come out whole and in feed order
    assert_eq!(buffer.next_frame(1024), Ok(Some(first)));
    assert_eq!(buffer.next_frame(1024), Ok(Some(second)));
    assert_eq!(buffer.next_frame(1024), Ok(None));
}

#[test]
fn partial_reads_are_buffered() {
    let payload = vec![5u8; 10];
    let frame = encode_frame(&payload, 64).unwrap();
    let mut buffer = FrameBuffer::new();
    // the frame arrives in two reads; nothing comes out until it is whole
    buffer.feed(&frame[..6].to_vec());
    assert_eq!(buffer.next_frame(64), Ok(None));
    buffer.feed(&frame[6..].to_vec());
    assert_eq!(buffer.next_frame(64), Ok(Some(payload)));
}

#[test]
fn oversized_frames_are_refused() {
    let payload = vec![0u8; 100];
    assert_eq!(encode_frame(&payload, 64), Err(ChannelError::FrameTooLarge));

    // a peer announcing an oversized frame is malformed
    let mut buffer = FrameBuffer::new();
    buffer.feed(&vec![0xff, 0xff, 0xff, 0xff]);
    assert_eq!(buffer.next_frame(64), Err(ChannelError::Malformed));
}

fn cluster(id: &str) -> Cluster {
    Cluster {
        cluster_id: String::from(id),
        sticky_name: String::from("SOZUBALANCEID"),
        load_balancing: LoadBalancingAlgorithm::RoundRobin,
        protocol_version: ProtocolVersion::Http1,
        health_check_interval: None,
    }
}

fn backend(cid: &str, bid: &str, port: u16) -> ConfigCommand {
    ConfigCommand::AddBackend(sozu::types::Backend {
        cluster_id: String::from(cid),
        backend_id: String::from(bid),
        address: SocketAddress::new_v4(127, 0, 0, 1, port),
        sticky_id: None,
        load_balancing_parameters: None,
        backup: None,
    })
}

#[test]
fn equal_states_have_equal_cluster_hashes() {
    let mut a = ConfigState::new();
    let mut b = ConfigState::new();
    for s in [&mut a, &mut b] {
        s.apply(&ConfigCommand::AddCluster(cluster("c1"))).unwrap();
        s.apply(&backend("c1", "b1", 9000)).unwrap();
        s.apply(&backend("c1", "b2", 9001)).unwrap();
    }
    let id = String::from("c1");
    assert_eq!(a.cluster_hash(&id), b.cluster_hash(&id));

    // a drifted worker differs
    b.apply(&backend("c1", "b3", 9002)).unwrap();
    assert_ne!(a.cluster_hash(&id), b.cluster_hash(&id));
}

#[test]
fn reconcile_rebuilds_the_state_from_nothing() {
    let mut server = CommandServer::new();
    server
        .fan_out_mutation(&ConfigCommand::AddCluster(cluster("c1")))
        .0
        .unwrap();
    server.fan_out_mutation(&backend("c1", "b1", 9000)).0.unwrap();

    let cmds = server.reconcile_commands();
    let mut fresh = ConfigState::new();
    let failures = fresh.apply_all(&cmds);
    assert_eq!(failures, 0);
    let id = String::from("c1");
    assert_eq!(fresh.cluster_hash(&id), server.state.cluster_hash(&id));
    assert_eq!(fresh.clusters.len(), 1);
    assert_eq!(fresh.backends.len(), 1);
}
