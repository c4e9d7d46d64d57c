use hermes::backend::network::discovery::DiscoveryError;
use hermes::backend::network::onion::OnionNode;
use hermes::crypto::{CryptoService, KeyPair};
use hermes::discovery::NodeDiscovery;
use hermes::keys::CryptoError;
use hermes::network::{
    fallback_address, frame_length, frame_message, split_frame, NetworkAction, NetworkMessage, NetworkService,
};
use hermes::protocol::{ControlMessage, Message, MessageType, ProtocolHandler};
use hermes::utils::{generate_random_bytes, get_current_timestamp, secure_compare};

#[test]
fn test_message_creation() {
    let message = Message::new(
        "sender".to_string(),
        "recipient".to_string(),
        b"Hello, World!".to_vec(),
        MessageType::Text,
    );

    assert_eq!(message.sender, "sender");
    assert_eq!(message.recipient, "recipient");
    assert_eq!(message.content, b"Hello, World!");
    assert!(message.timestamp > 0);
}

#[test]
fn test_secure_compare() {
    let a = b"hello";
    let b = b"hello";
    let c = b"world";

    assert!(secure_compare(a, b));
    assert!(!secure_compare(a, c));
}

#[test]
fn test_generate_random_bytes() {
    let bytes = generate_random_bytes(32).unwrap();
    assert_eq!(bytes.len(), 32);

    // Test that bytes are not all zeros
    let sum: u64 = bytes.iter().map(|&b| b as u64).sum();
    assert_ne!(sum, 0);
}

#[test]
fn mod_test_key_pair_generation() {
    let key_pair = KeyPair::generate().unwrap();
    assert_eq!(key_pair.public.to_bytes().len(), 32);
}

#[test]
fn test_signing_and_verification() {
    let key_pair = KeyPair::generate().unwrap();
    let message = b"Test message";

    let signature = key_pair.sign(message).unwrap();

    let crypto_service = CryptoService::new().unwrap();
    let verified = crypto_service
        .verify_signature(&key_pair.public, message, signature.to_bytes().as_ref())
        .unwrap();

    assert!(verified);
}

#[test]
fn test_encryption_and_decryption() {
    let crypto_service = CryptoService::new().unwrap();
    let message = b"Secret message";
    let session_key = crypto_service.generate_session_key().unwrap();

    let encrypted = crypto_service.encrypt_with_session_key(message, &session_key).unwrap();
    let decrypted = crypto_service.decrypt_with_session_key(&encrypted, &session_key).unwrap();

    assert_eq!(decrypted, message);
}

fn node(i: usize) -> OnionNode {
    OnionNode {
        id: format!("node{}", i),
        public_key: vec![0u8; 32],
        address: format!("127.0.0.1:{}", 8000 + i),
    }
}

#[test]
fn discovery_test_node_discovery() {
    let crypto_service = CryptoService::new().unwrap();
    let mut discovery = NodeDiscovery::new(crypto_service);

    // Add test nodes
    for i in 0..5 {
        discovery.add_node(node(i)).unwrap();
    }

    // Test get_available_nodes
    let nodes = discovery.get_available_nodes(3).unwrap();
    assert_eq!(nodes.len(), 3);

    // Test cleanup_stale_nodes
    discovery.cleanup_stale_nodes();

    // All nodes should still be there as they're not stale yet
    let all_nodes = discovery.get_all_nodes();
    assert_eq!(all_nodes.len(), 5);
}

#[test]
fn node_discovery_offers_most_recent_first() {
    let mut discovery = NodeDiscovery::new(CryptoService::new().unwrap());
    discovery.add_node_at(node(1), 10).unwrap();
    discovery.add_node_at(node(2), 30).unwrap();
    discovery.add_node_at(node(3), 20).unwrap();
    let nodes = discovery.get_available_nodes(2).unwrap();
    let ids: Vec<&str> = nodes.iter().map(|n| n.id.as_str()).collect();
    assert_eq!(ids, vec!["node2", "node3"]);
    let all = discovery.get_available_nodes(10).unwrap();
    assert_eq!(all.len(), 3);
}

#[test]
fn node_discovery_empty_table_offers_nothing() {
    let discovery = NodeDiscovery::new(CryptoService::new().unwrap());
    assert_eq!(discovery.get_available_nodes(3).unwrap_err(), DiscoveryError::NotEnoughNodes);
}

#[test]
fn node_discovery_drops_stale_and_updates() {
    let mut discovery = NodeDiscovery::new(CryptoService::new().unwrap());
    discovery.add_node_at(node(1), 0).unwrap();
    discovery.add_node_at(node(2), 100).unwrap();
    discovery.update_node_status_at("node1", 500, 7, 50);
    let info = discovery.get_node("node1").unwrap();
    assert_eq!((info.last_seen, info.bandwidth, info.uptime), (50, 500, 7));
    // at 351, node1 (seen at 50) is 301 seconds old, node2 is 251 seconds old
    discovery.cleanup_stale_nodes_at(351);
    assert!(discovery.get_node("node1").is_none());
    assert!(discovery.get_node("node2").is_some());
    discovery.remove_node("node2");
    assert!(discovery.get_all_nodes().is_empty());
}

#[test]
fn node_discovery_full_table_evicts_least_recent() {
    let mut discovery = NodeDiscovery::new(CryptoService::new().unwrap());
    for i in 0..100 {
        discovery.add_node_at(node(i), 1000 + i as u64).unwrap();
    }
    discovery.add_node_at(node(100), 5000).unwrap();
    assert_eq!(discovery.get_all_nodes().len(), 100);
    assert!(discovery.get_node("node0").is_none());
    assert!(discovery.get_node("node100").is_some());
}

#[test]
fn core_crypto_round_trip_and_errors() {
    let service = CryptoService::new().unwrap();
    let key = service.generate_session_key().unwrap();
    assert_eq!(key.len(), 32);
    let sealed = service.encrypt_message(b"payload", &key).unwrap();
    assert_eq!(sealed.len(), 12 + 7 + 16);
    assert_eq!(service.decrypt_message(&sealed, &key).unwrap(), b"payload".to_vec());
    assert_eq!(service.decrypt_message(&sealed[..5], &key).unwrap_err(), CryptoError::InvalidMessageLength);
    let mut tampered = sealed.clone();
    tampered[15] ^= 1;
    assert_eq!(service.decrypt_message(&tampered, &key).unwrap_err(), CryptoError::Decryption);
    let other = service.generate_session_key().unwrap();
    assert_eq!(service.decrypt_with_session_key(&sealed, &other).unwrap_err(), CryptoError::Decryption);
}

#[test]
fn core_crypto_signatures() {
    let key_pair = KeyPair::generate().unwrap();
    let service = CryptoService::new().unwrap();
    let signature = key_pair.sign(b"abc").unwrap().to_bytes();
    assert_eq!(signature.len(), 64);
    assert!(!service.verify_signature(&key_pair.public, b"abd", &signature).unwrap());
    assert_eq!(
        service.verify_signature(&key_pair.public, b"abc", &signature[..63]).unwrap_err(),
        CryptoError::InvalidSignatureLength
    );
    assert_eq!(service.get_public_key().len(), 32);
    assert_eq!(key_pair.x25519_public_key().to_bytes().len(), 32);
}

#[test]
fn core_key_derivation_is_deterministic() {
    let service = CryptoService::new().unwrap();
    let (k1, n1) = service.derive_key_and_nonce(&[7u8; 32]).unwrap();
    let (k2, n2) = service.derive_key_and_nonce(&[7u8; 32]).unwrap();
    let (k3, _) = service.derive_key_and_nonce(&[8u8; 32]).unwrap();
    assert_eq!((k1.len(), n1.len()), (32, 12));
    assert_eq!(k1, k2);
    assert_eq!(n1, n2);
    assert_ne!(k1, k3);
    assert_ne!(k1, vec![7u8; 32]);
}

#[test]
fn secure_compare_edges() {
    assert!(secure_compare(b"", b""));
    assert!(!secure_compare(b"abc", b"ab"));
    assert!(!secure_compare(b"abc", b"abd"));
    assert!(!secure_compare(&[0u8, 1], &[1u8, 0]));
}

#[test]
fn current_timestamp_is_after_2020() {
    assert!(get_current_timestamp() > 1_577_836_800);
}

#[test]
fn handshake_and_key_exchange_messages() {
    let handler = ProtocolHandler::new();
    let handshake = handler.create_handshake_message();
    assert_eq!(handshake.sender, "system");
    assert_eq!(handshake.recipient, "peer");
    assert!(handshake.content.is_empty());
    assert_eq!(handshake.message_type, MessageType::Control(ControlMessage::Handshake));
    assert_eq!(handshake.id.len(), 36);
    let exchange = handler.create_key_exchange_message(&[1, 2, 3]);
    assert_eq!(exchange.content, vec![1, 2, 3]);
    assert_eq!(exchange.message_type, MessageType::Control(ControlMessage::KeyExchange));
}

#[test]
fn framing_round_trip() {
    let frame = frame_message(b"hello");
    assert_eq!(frame, vec![0, 0, 0, 5, b'h', b'e', b'l', b'l', b'o']);
    assert_eq!(frame_length(&frame[..4]), 5);
    let mut buffer = frame.clone();
    buffer.extend_from_slice(&[9, 9]);
    let (payload, used) = split_frame(&buffer).unwrap();
    assert_eq!(payload, b"hello".to_vec());
    assert_eq!(used, 9);
    assert!(split_frame(&frame[..8]).is_none());
    assert!(split_frame(&frame[..3]).is_none());
    assert_eq!(frame_length(&[1, 2, 3, 4]), 0x01020304);
}

#[test]
fn fallback_address_uses_prefix() {
    assert_eq!(fallback_address("10.0.0.1-abc-def"), "10.0.0.1:9000");
    assert_eq!(fallback_address("plain"), "plain:9000");
    assert_eq!(fallback_address(""), ":9000");
}

#[test]
fn network_service_events() {
    let mut service = NetworkService::new(CryptoService::new().unwrap());
    assert_eq!(service.get_node_id().len(), 36);
    match service.handle_network_message(NetworkMessage::Connect("p".to_string(), "127.0.0.1:1".to_string())) {
        NetworkAction::Dial(p, a) => assert_eq!((p.as_str(), a.as_str()), ("p", "127.0.0.1:1")),
        other => panic!("unexpected {:?}", other),
    }
    service.handle_network_message(NetworkMessage::ConnectionEstablished("p".to_string()));
    assert!(service.is_connected("p"));
    assert!(matches!(
        service.handle_network_message(NetworkMessage::Connect("p".to_string(), "x".to_string())),
        NetworkAction::Nothing
    ));
    assert!(matches!(
        service.handle_network_message(NetworkMessage::MessageReceived("p".to_string(), vec![1])),
        NetworkAction::Decode(_, _)
    ));
    service.handle_network_message(NetworkMessage::ConnectionClosed("p".to_string()));
    assert!(!service.is_connected("p"));
    let m = service.outgoing_message("q".to_string(), vec![4, 5]);
    assert_eq!(m.sender, service.node_id);
    assert_eq!(m.recipient, "q");
    assert_eq!(m.message_type, MessageType::Text);
}

#[test]
fn node_short_message_refused_whatever_the_key() {
    let service = CryptoService::new().unwrap();
    assert_eq!(service.decrypt_message(&[1, 2, 3], &[]), Err(CryptoError::InvalidMessageLength));
    assert_eq!(service.decrypt_with_session_key(&[0u8; 4], &[1u8; 3]), Err(CryptoError::InvalidMessageLength));
}

#[test]
fn node_ciphertext_length() {
    let service = CryptoService::new().unwrap();
    let key = service.generate_session_key().unwrap();
    let encrypted = service.encrypt_message(b"abc", &key).unwrap();
    assert_eq!(encrypted.len(), 12 + 3 + 16);
}
