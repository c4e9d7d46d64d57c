use hermes::backend::crypto::CryptoService;
use hermes::backend::network::discovery::{DiscoveryError, NodeDiscovery};
use hermes::backend::network::onion::{OnionError, OnionMessage, OnionNode, OnionRouter};

fn onion_node(id: &str, port: u16) -> OnionNode {
    OnionNode { id: id.to_string(), public_key: vec![0u8; 32], address: format!("127.0.0.1:{}", port) }
}

#[test]
fn test_node_discovery() {
    let crypto_service = CryptoService::new().unwrap();
    let mut discovery = NodeDiscovery::new(crypto_service);

    // Add test nodes
    let node1 = OnionNode {
        id: "node1".to_string(),
        public_key: vec![0u8; 32],
        address: "127.0.0.1:8080".to_string(),
    };

    let node2 = OnionNode {
        id: "node2".to_string(),
        public_key: vec![0u8; 32],
        address: "127.0.0.1:8081".to_string(),
    };

    discovery.add_node(node1.copy());
    discovery.add_node(node2.copy());

    // Test getting available nodes
    let nodes = discovery.get_available_nodes(2).unwrap();
    assert_eq!(nodes.len(), 2);

    // Test node removal
    discovery.remove_node(&node1.id);
    assert_eq!(discovery.get_node_count(), 1);
}

#[test]
fn discovery_ranks_by_bandwidth_then_uptime() {
    let mut discovery = NodeDiscovery::new(CryptoService::new().unwrap());
    discovery.add_node_at(onion_node("a", 1), 0);
    discovery.add_node_at(onion_node("b", 2), 0);
    discovery.add_node_at(onion_node("c", 3), 0);
    discovery.update_node_info_at("a", 100, 5, 0);
    discovery.update_node_info_at("b", 300, 1, 0);
    discovery.update_node_info_at("c", 100, 9, 0);
    let nodes = discovery.get_available_nodes_at(3, 10).unwrap();
    let ids: Vec<&str> = nodes.iter().map(|n| n.id.as_str()).collect();
    assert_eq!(ids, vec!["b", "c", "a"]);
}

#[test]
fn discovery_needs_enough_fresh_nodes() {
    let mut discovery = NodeDiscovery::new(CryptoService::new().unwrap());
    for i in 0..3 {
        discovery.add_node_at(onion_node(&format!("n{}", i), 9000 + i), 0);
    }
    // three fresh nodes: enough for three, not for twelve (at least ten are needed)
    assert_eq!(discovery.get_available_nodes_at(3, 100).unwrap().len(), 3);
    assert_eq!(discovery.get_available_nodes_at(12, 100).unwrap_err(), DiscoveryError::NotEnoughNodes);
    // at 300 seconds every node is stale
    assert_eq!(discovery.get_available_nodes_at(1, 300).unwrap_err(), DiscoveryError::NotEnoughNodes);
    discovery.cleanup_stale_nodes_at(300);
    assert_eq!(discovery.get_node_count(), 0);
}

#[test]
fn test_circuit_creation() {
    let crypto_service = CryptoService::new().unwrap();
    let mut router = OnionRouter::new(crypto_service);

    let nodes = vec![
        OnionNode {
            id: "node1".to_string(),
            public_key: vec![0u8; 32],
            address: "127.0.0.1:8080".to_string(),
        },
        OnionNode {
            id: "node2".to_string(),
            public_key: vec![0u8; 32],
            address: "127.0.0.1:8081".to_string(),
        },
    ];

    let circuit_id = router.create_circuit(nodes).unwrap();
    assert!(!circuit_id.is_empty());
}

#[test]
fn circuit_hops_are_checked() {
    let mut router = OnionRouter::new(CryptoService::new().unwrap());
    assert_eq!(router.create_circuit(vec![onion_node("a", 1)]).unwrap_err(), OnionError::InvalidHopCount);
    let four = (0..4).map(|i| onion_node("x", i)).collect();
    assert_eq!(router.create_circuit(four).unwrap_err(), OnionError::InvalidHopCount);
    let three = (0..3).map(|i| onion_node("y", i)).collect();
    let id = router.create_circuit(three).unwrap();
    assert_eq!(id.len(), 36);
    assert_eq!(router.circuits.get(&id).unwrap().session_key.len(), 32);
    assert!(matches!(router.outbox.last(), Some(OnionMessage::CreateCircuit(path)) if path.len() == 3));
}

#[test]
fn circuit_messages_and_teardown() {
    let mut router = OnionRouter::new(CryptoService::new().unwrap());
    assert_eq!(router.send_message("missing", b"hi").unwrap_err(), OnionError::CircuitNotFound);
    let id = router.create_circuit(vec![onion_node("a", 1), onion_node("b", 2)]).unwrap();
    router.send_message(&id, b"hi").unwrap();
    let key = router.circuits.get(&id).unwrap().session_key.clone();
    match router.outbox.last() {
        Some(OnionMessage::RelayMessage(cid, data)) => {
            assert_eq!(cid, &id);
            let plain = router.crypto_service.decrypt_with_session_key(data, &key).unwrap();
            assert_eq!(plain, b"hi".to_vec());
        },
        other => panic!("unexpected {:?}", other),
    }
    router.destroy_circuit(&id).unwrap();
    assert!(router.circuits.get(&id).is_none());
    assert!(matches!(router.outbox.last(), Some(OnionMessage::DestroyCircuit(cid)) if cid == &id));
    let before = router.outbox.len();
    router.destroy_circuit(&id).unwrap();
    assert_eq!(router.outbox.len(), before);
}
