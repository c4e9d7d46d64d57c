use hermes::backend::crypto::CryptoService;
use hermes::backend::network::protocol::{
    BandwidthManager, RateLimiter, ControlCommand, FileChunk, FileTransferInfo, Outbound, ProtocolError, ProtocolHandler, ProtocolMessage,
    MAX_CHUNK_RETRIES, MAX_GROUP_SIZE, MAX_MESSAGE_SIZE, MAX_PARALLEL_CHUNKS, MESSAGE_EXPIRY_SECONDS,
    RATE_LIMIT_CHUNKS_PER_SEC, RATE_LIMIT_WINDOW_MS,
};
use hermes::clock::{now_millis, now_secs};
use hermes::collections::ChunkSet;

fn handler() -> ProtocolHandler {
    ProtocolHandler::new(CryptoService::new().unwrap())
}

fn deliver(handler: &mut ProtocolHandler, peer: &str, message: ProtocolMessage) -> Result<(), ProtocolError> {
    let encoded_len = format!("{:?}", message).len();
    handler.handle_message(peer.to_string(), message, encoded_len)
}

fn transfer(file_id: &str, timestamp: u64) -> FileTransferInfo {
    FileTransferInfo {
        file_id: file_id.to_string(),
        total_chunks: 10,
        received_chunks: ChunkSet::new(),
        start_time: timestamp,
        last_update: timestamp,
        is_complete: false,
        retry_count: 0,
        pending_chunks: ChunkSet::from_range(10),
        active_chunks: ChunkSet::new(),
        priority: 0,
        bandwidth_limit: 0,
        bytes_transferred: 0,
        last_progress_update: timestamp,
        speed: 0.0f64.to_bits(),
        is_cancelled: false,
        resume_point: 0,
        target_speed: 0.0f64.to_bits(),
        error_count: 0,
        last_error: None,
        last_speed_adaptation: timestamp,
    }
}

#[test]
fn test_protocol_handler_creation() {
    let handler = handler();
    assert!(handler.active_streams.is_empty());
}

#[test]
fn test_message_expiry() {
    let mut handler = handler();

    let ephemeral_id = handler.generate_ephemeral_id();
    let timestamp = now_secs();

    handler.track_message(ephemeral_id.clone(), timestamp, 1, None);
    assert!(handler.message_tracker.contains_key(&ephemeral_id));

    // two seconds later
    handler.cleanup_expired_messages_at(timestamp + 2, now_millis() + 2000);
    assert!(!handler.message_tracker.contains_key(&ephemeral_id));
}

#[test]
fn test_delivery_confirmation() {
    let mut handler = handler();

    let ephemeral_id = handler.generate_ephemeral_id();
    let delivery_id = handler.generate_ephemeral_id();
    let timestamp = now_secs();

    handler.track_message(ephemeral_id.clone(), timestamp, MESSAGE_EXPIRY_SECONDS, Some(delivery_id.clone()));
    assert!(handler.delivery_tracker.contains_key(&delivery_id));

    handler.handle_delivery_confirmation(delivery_id.clone());
    assert!(!handler.delivery_tracker.contains_key(&delivery_id));
}

#[test]
fn test_group_messaging() {
    let mut handler = handler();

    let group_id = handler.generate_ephemeral_id();
    let peer1 = handler.generate_ephemeral_id();
    let peer2 = handler.generate_ephemeral_id();

    handler.handle_group_join(peer1.clone(), group_id.clone()).unwrap();
    handler.handle_group_join(peer2.clone(), group_id.clone()).unwrap();

    let group = handler.group_members.get(&group_id).unwrap();
    assert!(group.members.contains(&peer1));
    assert!(group.members.contains(&peer2));

    handler.handle_group_leave(peer1.clone(), group_id.clone());
    let group = handler.group_members.get(&group_id).unwrap();
    assert!(!group.members.contains(&peer1));
    assert!(group.members.contains(&peer2));

    handler.handle_group_leave(peer2.clone(), group_id.clone());
    assert!(!handler.group_members.contains_key(&group_id));
}

#[test]
fn test_file_transfer_progress() {
    let mut handler = handler();

    let file_id = handler.generate_ephemeral_id();
    let timestamp = now_secs();

    // Initialize file transfer
    handler.file_transfers.insert(file_id.clone(), transfer(&file_id, timestamp));

    // Test chunk reception
    handler.handle_chunk_received(file_id.clone(), 0);
    handler.handle_chunk_received(file_id.clone(), 1);

    let transfer = handler.file_transfers.get(&file_id).unwrap();
    assert!(transfer.received_chunks.contains(0));
    assert!(transfer.received_chunks.contains(1));
    assert!(!transfer.is_complete);

    // Test file completion
    for i in 2..10 {
        handler.handle_chunk_received(file_id.clone(), i);
    }

    let transfer = handler.file_transfers.get(&file_id).unwrap();
    assert!(transfer.is_complete);
}

#[test]
fn test_chunk_resumption() {
    let mut handler = handler();

    let file_id = handler.generate_ephemeral_id();
    let timestamp = now_secs();

    // Initialize file transfer
    handler.file_transfers.insert(file_id.clone(), transfer(&file_id, timestamp));

    // Test chunk missing
    handler.handle_chunk_missing(file_id.clone(), 0);
    let transfer = handler.file_transfers.get(&file_id).unwrap();
    assert_eq!(transfer.retry_count, 1);

    // Test max retries
    for _ in 0..MAX_CHUNK_RETRIES {
        handler.handle_chunk_missing(file_id.clone(), 0);
    }

    assert!(!handler.file_transfers.contains_key(&file_id));
}

#[test]
fn test_parallel_chunk_transfer() {
    let mut handler = handler();

    let file_id = handler.generate_ephemeral_id();
    let timestamp = now_secs();

    // Initialize file transfer
    handler.file_transfers.insert(file_id.clone(), transfer(&file_id, timestamp));

    // Test parallel chunk processing
    handler.process_pending_chunks(file_id.clone(), "peer1".to_string());
    let transfer = handler.file_transfers.get(&file_id).unwrap();
    assert_eq!(transfer.active_chunks.len(), MAX_PARALLEL_CHUNKS);
    assert_eq!(transfer.pending_chunks.len(), 10 - MAX_PARALLEL_CHUNKS);
}

#[test]
fn test_rate_limiting() {
    let mut handler = handler();

    let file_id = handler.generate_ephemeral_id();

    // Test rate limiting
    for _ in 0..RATE_LIMIT_CHUNKS_PER_SEC {
        assert!(handler.rate_limiter.can_send_chunks(&file_id));
    }
    assert!(!handler.rate_limiter.can_send_chunks(&file_id));

    // Test rate limit cleanup, a window and a tenth later
    let later = now_millis() + RATE_LIMIT_WINDOW_MS + 100;
    handler.rate_limiter.cleanup_at(later);
    assert!(handler.rate_limiter.can_send_chunks_at(&file_id, later));
}

#[test]
fn test_file_transfer_priority() {
    let mut handler = handler();

    let file_id = handler.generate_ephemeral_id();
    let timestamp = now_secs();

    // Set file transfer priority
    let priority_msg = ProtocolMessage::FileTransferPriority {
        file_id: file_id.clone(),
        priority: 3,
        timestamp,
        expiry: MESSAGE_EXPIRY_SECONDS,
        ephemeral_id: handler.generate_ephemeral_id(),
    };
    deliver(&mut handler, "peer1", priority_msg).unwrap();

    let transfer = handler.file_transfers.get(&file_id).unwrap();
    assert_eq!(transfer.priority, 3);
}

#[test]
fn test_file_transfer_cancellation() {
    let mut handler = handler();

    let file_id = handler.generate_ephemeral_id();
    let timestamp = now_secs();

    // Cancel file transfer
    let cancel_msg = ProtocolMessage::FileTransferCancel {
        file_id: file_id.clone(),
        reason: "User cancelled".to_string(),
        timestamp,
        expiry: MESSAGE_EXPIRY_SECONDS,
        ephemeral_id: handler.generate_ephemeral_id(),
    };
    deliver(&mut handler, "peer1", cancel_msg).unwrap();

    let transfer = handler.file_transfers.get(&file_id).unwrap();
    assert!(transfer.is_cancelled);
}

#[test]
fn test_bandwidth_throttling() {
    let mut handler = handler();

    let file_id = handler.generate_ephemeral_id();
    let timestamp = now_secs();

    // Set bandwidth limit
    let bandwidth_msg = ProtocolMessage::FileTransferBandwidth {
        file_id: file_id.clone(),
        bandwidth_limit: 1024 * 1024, // 1MB/s
        timestamp,
        expiry: MESSAGE_EXPIRY_SECONDS,
        ephemeral_id: handler.generate_ephemeral_id(),
    };
    deliver(&mut handler, "peer1", bandwidth_msg).unwrap();

    let transfer = handler.file_transfers.get(&file_id).unwrap();
    assert_eq!(transfer.bandwidth_limit, 1024 * 1024);
}

#[test]
fn test_progress_estimation() {
    let mut handler = handler();

    let file_id = handler.generate_ephemeral_id();
    let timestamp = now_secs();

    // Update progress
    let progress_msg = ProtocolMessage::FileTransferProgress {
        file_id: file_id.clone(),
        bytes_transferred: 1024 * 1024, // 1MB
        total_bytes: 2 * 1024 * 1024, // 2MB
        speed: 1024.0f64.to_bits(), // 1KB/s
        estimated_time: 1024, // 1 second
        timestamp,
        expiry: MESSAGE_EXPIRY_SECONDS,
        ephemeral_id: handler.generate_ephemeral_id(),
    };
    deliver(&mut handler, "peer1", progress_msg).unwrap();

    let transfer = handler.file_transfers.get(&file_id).unwrap();
    assert_eq!(transfer.bytes_transferred, 1024 * 1024);
    assert_eq!(f64::from_bits(transfer.speed), 1024.0);
}

#[test]
fn test_transfer_resumption() {
    let mut handler = handler();

    let file_id = handler.generate_ephemeral_id();
    let timestamp = now_secs();

    // Resume transfer
    let resume_msg = ProtocolMessage::FileTransferResume {
        file_id: file_id.clone(),
        resume_point: 5,
        timestamp,
        expiry: MESSAGE_EXPIRY_SECONDS,
        ephemeral_id: handler.generate_ephemeral_id(),
    };
    deliver(&mut handler, "peer1", resume_msg).unwrap();

    let transfer = handler.file_transfers.get(&file_id).unwrap();
    assert_eq!(transfer.resume_point, 5);
    assert_eq!(transfer.error_count, 0);
}

#[test]
fn test_speed_adaptation() {
    let mut handler = handler();

    let file_id = handler.generate_ephemeral_id();
    let timestamp = now_secs();

    // Set target speed
    let speed_msg = ProtocolMessage::FileTransferSpeedAdapt {
        file_id: file_id.clone(),
        target_speed: 1024.0f64.to_bits(), // 1KB/s
        timestamp,
        expiry: MESSAGE_EXPIRY_SECONDS,
        ephemeral_id: handler.generate_ephemeral_id(),
    };
    deliver(&mut handler, "peer1", speed_msg).unwrap();

    let transfer = handler.file_transfers.get(&file_id).unwrap();
    assert_eq!(f64::from_bits(transfer.target_speed), 1024.0);
}

#[test]
fn test_transfer_queue() {
    let mut handler = handler();

    let file_id1 = handler.generate_ephemeral_id();
    let file_id2 = handler.generate_ephemeral_id();

    // Add transfers to queue
    handler.transfer_queue.add_transfer(file_id1.clone());
    handler.transfer_queue.add_transfer(file_id2.clone());

    assert_eq!(handler.transfer_queue.get_position(&file_id1), Some(0));
    assert_eq!(handler.transfer_queue.get_position(&file_id2), Some(1));

    // Remove transfer
    handler.transfer_queue.remove_transfer(&file_id1);
    assert_eq!(handler.transfer_queue.get_position(&file_id2), Some(0));
}

#[test]
fn test_error_recovery() {
    let mut handler = handler();

    let file_id = handler.generate_ephemeral_id();
    let timestamp = now_secs();

    // Report error
    let error_msg = ProtocolMessage::FileTransferError {
        file_id: file_id.clone(),
        error_type: "Network error".to_string(),
        retry_count: 1,
        timestamp,
        expiry: MESSAGE_EXPIRY_SECONDS,
        ephemeral_id: handler.generate_ephemeral_id(),
    };
    deliver(&mut handler, "peer1", error_msg).unwrap();

    let transfer = handler.file_transfers.get(&file_id).unwrap();
    assert_eq!(transfer.error_count, 1);
    assert_eq!(transfer.last_error, Some("Network error".to_string()));
}

fn text(id: &str, timestamp: u64, delivery: Option<&str>) -> ProtocolMessage {
    ProtocolMessage::Text {
        content: "hi".to_string(),
        timestamp,
        expiry: MESSAGE_EXPIRY_SECONDS,
        ephemeral_id: id.to_string(),
        delivery_id: delivery.map(|d| d.to_string()),
    }
}

#[test]
fn text_message_is_recorded_confirmed_and_handed_on() {
    let mut handler = handler();
    handler.handle_message_at("peer".to_string(), text("m1", 1000, Some("d1")), 10, 1000, 1_000_000).unwrap();
    assert!(handler.message_tracker.contains_key("m1"));
    assert!(handler.delivery_tracker.contains_key("d1"));
    assert_eq!(handler.outbox.len(), 2);
    match &handler.outbox[0] {
        Outbound::Peer(p, ProtocolMessage::Control { command: ControlCommand::DeliveryConfirmed(d), .. }) => {
            assert_eq!((p.as_str(), d.as_str()), ("peer", "d1"))
        },
        other => panic!("unexpected {:?}", other),
    }
    assert!(matches!(&handler.outbox[1], Outbound::Local(ProtocolMessage::Text { ephemeral_id, .. }) if ephemeral_id == "m1"));
}

#[test]
fn expired_text_message_is_reported_not_recorded() {
    let mut handler = handler();
    handler.handle_message_at("peer".to_string(), text("m2", 1000, None), 10, 1061, 0).unwrap();
    assert!(!handler.message_tracker.contains_key("m2"));
    assert!(matches!(
        &handler.outbox[0],
        Outbound::Peer(p, ProtocolMessage::Control { command: ControlCommand::MessageExpired(id), .. })
            if p == "sender" && id == "m2"
    ));
    // exactly at the end of its life a message is still live
    handler.handle_message_at("peer".to_string(), text("m3", 1000, None), 10, 1060, 0).unwrap();
    assert!(handler.message_tracker.contains_key("m3"));
}

#[test]
fn oversized_message_is_refused() {
    let mut handler = handler();
    let r = handler.handle_message_at("peer".to_string(), text("m", 1000, None), MAX_MESSAGE_SIZE + 1, 1000, 0);
    assert_eq!(r, Err(ProtocolError::MessageTooLarge));
    assert!(handler.message_tracker.is_empty());
    assert!(handler.outbox.is_empty());
}

fn group_message(group: &str, sender: &str) -> ProtocolMessage {
    ProtocolMessage::Group {
        group_id: group.to_string(),
        content: "hello".to_string(),
        timestamp: 1000,
        expiry: MESSAGE_EXPIRY_SECONDS,
        ephemeral_id: "g-msg".to_string(),
        delivery_id: None,
        sender_ephemeral_id: sender.to_string(),
    }
}

#[test]
fn group_message_checks_membership() {
    let mut handler = handler();
    let r = handler.handle_message_at("peer".to_string(), group_message("g", "alice"), 10, 1000, 0);
    assert_eq!(r, Err(ProtocolError::GroupDoesNotExist));
    handler.handle_group_join_at("alice".to_string(), "g".to_string(), 1000).unwrap();
    let r = handler.handle_message_at("peer".to_string(), group_message("g", "bob"), 10, 1000, 0);
    assert_eq!(r, Err(ProtocolError::SenderNotGroupMember));
    handler.handle_message_at("peer".to_string(), group_message("g", "alice"), 10, 1000, 0).unwrap();
    assert!(handler.message_tracker.contains_key("g-msg"));
}

#[test]
fn full_group_refuses_joins() {
    let mut handler = handler();
    for i in 0..MAX_GROUP_SIZE {
        handler.handle_group_join_at(format!("p{}", i), "g".to_string(), 5).unwrap();
    }
    let before = handler.outbox.len();
    assert_eq!(handler.handle_group_join_at("late".to_string(), "g".to_string(), 6), Err(ProtocolError::GroupFull));
    assert_eq!(handler.outbox.len(), before);
    assert_eq!(handler.group_members.get("g").unwrap().members.len(), MAX_GROUP_SIZE);
}

#[test]
fn group_join_notifies_other_members() {
    let mut handler = handler();
    handler.handle_group_join_at("a".to_string(), "g".to_string(), 1).unwrap();
    assert!(handler.outbox.is_empty());
    handler.handle_group_join_at("b".to_string(), "g".to_string(), 2).unwrap();
    assert_eq!(handler.outbox.len(), 1);
    assert!(matches!(
        &handler.outbox[0],
        Outbound::Peer(p, ProtocolMessage::Control { command: ControlCommand::GroupJoin(g), .. }) if p == "a" && g == "g"
    ));
    assert_eq!(handler.group_members.get("g").unwrap().last_activity, 2);
}

fn file_message(id: &str, size: u64, chunks: Vec<FileChunk>) -> ProtocolMessage {
    ProtocolMessage::File {
        name: "f.txt".to_string(),
        size,
        hash: String::new(),
        chunks,
        timestamp: 1000,
        expiry: MESSAGE_EXPIRY_SECONDS,
        ephemeral_id: id.to_string(),
        delivery_id: None,
    }
}

#[test]
fn file_messages_are_checked() {
    let mut handler = handler();
    let r = handler.handle_message_at("p".to_string(), file_message("big", MAX_MESSAGE_SIZE as u64 + 1, vec![]), 10, 1000, 0);
    assert_eq!(r, Err(ProtocolError::FileTooLarge));
    let bad = FileChunk { index: 0, data: b"abc".to_vec(), hash: "00".to_string() };
    let r = handler.handle_message_at("p".to_string(), file_message("bad", 10, vec![bad]), 10, 1000, 0);
    assert_eq!(r, Err(ProtocolError::InvalidChunkHash));
    // the transfer was registered before the chunks were checked
    assert!(handler.file_transfers.contains_key("bad"));
    let good = FileChunk {
        index: 0,
        data: b"abc".to_vec(),
        hash: "ba7816bf8f01cfea414140de5dae2223b00361a396177a9cb410ff61f20015ad".to_string(),
    };
    handler.handle_message_at("p".to_string(), file_message("good", 65537, vec![good]), 10, 1000, 0).unwrap();
    let t = handler.file_transfers.get("good").unwrap();
    assert_eq!(t.total_chunks, 2);
    assert_eq!(t.pending_chunks.len(), 2);
    assert!(handler.message_tracker.contains_key("good"));
}

#[test]
fn chunk_requests_are_rate_limited() {
    let mut handler = handler();
    let mut t = transfer("f", 0);
    t.pending_chunks = ChunkSet::new();
    handler.file_transfers.insert("f".to_string(), t);
    let request = |n: u64| ProtocolMessage::FileChunkRequest {
        file_id: "f".to_string(),
        chunk_indices: vec![1, 2],
        timestamp: 1000,
        expiry: MESSAGE_EXPIRY_SECONDS,
        ephemeral_id: format!("r{}", n),
    };
    for i in 0..RATE_LIMIT_CHUNKS_PER_SEC as u64 {
        handler.handle_message_at("p".to_string(), request(i), 10, 1000, 5_000_000).unwrap();
    }
    let before = handler.outbox.len();
    handler.handle_message_at("p".to_string(), request(99), 10, 1000, 5_000_000).unwrap();
    assert_eq!(handler.outbox.len(), before + 1);
    assert!(matches!(handler.outbox.last(), Some(Outbound::Local(ProtocolMessage::RateLimitExceeded { .. }))));
}

#[test]
fn chunk_response_completes_transfer() {
    let mut handler = handler();
    let mut t = transfer("f", 0);
    t.total_chunks = 2;
    t.pending_chunks = ChunkSet::from_range(2);
    handler.file_transfers.insert("f".to_string(), t);
    let response = ProtocolMessage::FileChunkResponse {
        file_id: "f".to_string(),
        chunks: vec![
            FileChunk { index: 0, data: vec![], hash: String::new() },
            FileChunk { index: 1, data: vec![], hash: String::new() },
        ],
        timestamp: 1000,
        expiry: MESSAGE_EXPIRY_SECONDS,
        ephemeral_id: "x".to_string(),
    };
    handler.handle_message_at("p".to_string(), response, 10, 1000, 0).unwrap();
    let t = handler.file_transfers.get("f").unwrap();
    assert!(t.is_complete);
    assert!(t.pending_chunks.is_empty());
    assert!(matches!(
        handler.outbox.last(),
        Some(Outbound::Local(ProtocolMessage::Control { command: ControlCommand::FileComplete(f), .. })) if f == "f"
    ));
}

#[test]
fn error_reports_fail_a_transfer_after_three() {
    let mut handler = handler();
    let error = ProtocolMessage::FileTransferError {
        file_id: "f".to_string(),
        error_type: "disk".to_string(),
        retry_count: 3,
        timestamp: 1000,
        expiry: MESSAGE_EXPIRY_SECONDS,
        ephemeral_id: "e".to_string(),
    };
    handler.handle_message_at("p".to_string(), error, 10, 1000, 0).unwrap();
    assert!(!handler.file_transfers.contains_key("f"));
    match handler.outbox.last() {
        Some(Outbound::Local(ProtocolMessage::Control { command: ControlCommand::FileFailed(f, reason), .. })) => {
            assert_eq!(f, "f");
            assert_eq!(reason, "Max error retries exceeded: disk");
        },
        other => panic!("unexpected {:?}", other),
    }
}

#[test]
fn delivery_failures_drop_after_three() {
    let mut handler = handler();
    handler.track_message("m".to_string(), 1, 60, Some("d".to_string()));
    handler.handle_delivery_failure("d".to_string(), "x".to_string());
    handler.handle_delivery_failure("d".to_string(), "x".to_string());
    assert_eq!(handler.delivery_tracker.get("d").unwrap().retry_count, 2);
    handler.handle_delivery_failure("d".to_string(), "x".to_string());
    assert!(!handler.delivery_tracker.contains_key("d"));
}

#[test]
fn cleanup_drops_cancelled_and_failed_transfers() {
    let mut handler = handler();
    let mut cancelled = transfer("c", 0);
    cancelled.is_cancelled = true;
    let mut failed = transfer("f", 0);
    failed.error_count = 3;
    handler.file_transfers.insert("c".to_string(), cancelled);
    handler.file_transfers.insert("f".to_string(), failed);
    handler.file_transfers.insert("ok".to_string(), transfer("ok", 0));
    handler.transfer_queue.add_transfer("c".to_string());
    handler.transfer_queue.add_transfer("ok".to_string());
    handler.cleanup_expired_messages_at(10, 10_000);
    assert!(!handler.file_transfers.contains_key("c"));
    assert!(!handler.file_transfers.contains_key("f"));
    assert!(handler.file_transfers.contains_key("ok"));
    assert_eq!(handler.transfer_queue.get_position("ok"), Some(0));
    assert_eq!(handler.transfer_queue.get_position("c"), None);
}

#[test]
fn queue_check_serves_front_transfer() {
    let mut handler = handler();
    handler.file_transfers.insert("a".to_string(), transfer("a", 0));
    handler.transfer_queue.add_transfer("a".to_string());
    handler.transfer_queue.add_transfer("b".to_string());
    let start = handler.transfer_queue.last_check;
    handler.process_transfer_queue_at(5, start + 1000);
    assert_eq!(handler.transfer_queue.get_position("b"), Some(0));
    assert_eq!(handler.transfer_queue.last_check, start + 1000);
    assert!(matches!(
        &handler.outbox[0],
        Outbound::Local(ProtocolMessage::FileTransferQueueUpdate { file_id, queue_position: 0, .. }) if file_id == "b"
    ));
    assert_eq!(handler.file_transfers.get("a").unwrap().active_chunks.len(), MAX_PARALLEL_CHUNKS);
}

#[test]
fn speed_adaptation_is_clamped() {
    let mut handler = handler();
    handler.file_transfers.insert("a".to_string(), transfer("a", 0));
    handler.apply_speed_adaptation("a".to_string(), 1, 77);
    let t = handler.file_transfers.get("a").unwrap();
    assert_eq!(t.bandwidth_limit, 1024);
    assert_eq!(t.last_speed_adaptation, 77);
    handler.apply_speed_adaptation("a".to_string(), u64::MAX, 78);
    assert_eq!(handler.file_transfers.get("a").unwrap().bandwidth_limit, 1024 * 1024);
}

#[test]
fn ephemeral_ids_are_hexadecimal() {
    let handler = handler();
    let id = handler.generate_ephemeral_id();
    assert!(!id.is_empty() && id.len() <= 16);
    assert!(id.chars().all(|c| c.is_ascii_hexdigit() && !c.is_ascii_uppercase()));
}

#[test]
fn bandwidth_grant_never_exceeds_request() {
    let mut handler = handler();
    let granted = handler.bandwidth_manager.allocate_bandwidth_at("f", 500, 7);
    assert_eq!(granted, 500);
    // the live entries count against the total: here the stamp 7 exceeds nothing
    let second = handler.bandwidth_manager.allocate_bandwidth_at("g", 2_000_000, 8);
    assert_eq!(second, 1024 * 1024 - 7);
    handler.bandwidth_manager.release_bandwidth("f");
}

#[test]
fn outgoing_messages_are_encrypted_and_bounded() {
    let handler = handler();
    let serialized = b"{\"Text\":{}}".to_vec();
    let sealed = handler.seal_outgoing(&serialized).unwrap();
    assert_eq!(sealed.len(), 96 + serialized.len() + 16);
    assert_ne!(&sealed[96..96 + serialized.len()], &serialized[..]);
    let own_key = handler.crypto_service.keypair.public_key().clone();
    assert_eq!(handler.crypto_service.decrypt_message(&sealed, &own_key).unwrap(), serialized);
    let oversized = vec![b'x'; MAX_MESSAGE_SIZE + 1];
    assert_eq!(handler.seal_outgoing(&oversized), Err(ProtocolError::MessageTooLarge));
}

#[test]
fn clock_wrappers_keep_their_tables() {
    let mut limiter = RateLimiter::new(RATE_LIMIT_WINDOW_MS, 2);
    assert!(limiter.can_send_chunks("f"));
    assert!(limiter.can_send_chunks("g"));
    assert_eq!(limiter.chunks_sent.get("f").unwrap().len(), 1);
    assert_eq!(limiter.chunks_sent.get("g").unwrap().len(), 1);
    let mut manager = BandwidthManager::new(1000);
    assert_eq!(manager.allocate_bandwidth("f", 100), 100);
    assert!(manager.active_transfers.contains_key("f"));
    // The stored value is a time stamp in ms, far above the total, so
    // nothing is left for a second file while the first is in the window.
    assert_eq!(manager.allocate_bandwidth("g", 100), 0);
    assert!(manager.active_transfers.contains_key("f"));
    assert!(!manager.active_transfers.contains_key("g"));
}
