//! The dispatch of received messages and control commands to the handler's
//! operations.  `message_handled` and `control_handled` say, for each kind of
//! message or command, what state the handler is left in, what it appends to
//! its outbox, and when it refuses.
use crate::backend::crypto::hex_string;
use crate::backend::network::handler::{
    cleaned, queue_checked, queue_reports, is_chunk_request, appended, bandwidth_set, chunk_missing, chunk_received, chunk_reports, chunks_requested,
    completes, delivery_confirmed, delivery_failed, evolves, group_full, group_notice,
    group_touched, join_recipients, joined, leave_notice, left, message_forgotten,
    message_viewed, recorded, retries_exhausted, transfer_dropped, EXPIRY_NOTICE_RECIPIENT,
    MAX_RETRIES_REASON,
};
use crate::backend::network::protocol::{
    broadcast_to, expired, fresh_transfer, is_ephemeral_id, is_local_control, is_peer_control,
    recent, CommandView, ControlCommand, FileChunk, FileTransferInfo, FileTransferPriority,
    HandlerState, Outbound, PriorityState, ProtocolError, ProtocolHandler, ProtocolMessage,
    TransferState, CHUNK_SIZE, MAX_ERROR_RETRIES, MAX_MESSAGE_SIZE, RATE_LIMIT_CHUNKS_PER_SEC,
    RATE_LIMIT_WINDOW_MS,
};
use crate::clock::{now_millis, now_secs};
use crate::collections::{lemma_filter_all, lemma_filter_filter, ChunkSet};
use crate::primitives::sha256_digest;
use vstd::prelude::*;
use vstd::string::StringExecFns;

verus! {

/// The start of the reason given when a transfer reports too many errors.
pub const ERROR_RETRIES_PREFIX: &'static str = "Max error retries exceeded: ";

/// Seconds before a transfer that reported an error is resumed.
pub const ERROR_RECOVERY_DELAY_SECS: u64 = 1;

/// `now > timestamp + expiry`, computed without overflow.
pub fn is_expired_at(now: u64, timestamp: u64, expiry: u64) -> (b: bool)
    ensures
        b == expired(now, timestamp, expiry),
{
    now >= timestamp && now - timestamp > expiry
}

/// `out` holds the delivery confirmation owed to `peer`, if any, and then
/// hands `msg` to the local consumer.
pub open spec fn accepted(out: Seq<Outbound>, peer: Seq<char>, delivery_id: Option<String>, msg: ProtocolMessage) -> bool {
    &&& out.len() == if delivery_id is Some {
        2int
    } else {
        1int
    }
    &&& delivery_id is Some ==> is_peer_control(
        out[0],
        peer,
        CommandView::DeliveryConfirmed(delivery_id->0@),
    )
    &&& out.last() == Outbound::Local(msg)
}

/// The expired message `id` is forgotten and its sender told.
pub open spec fn expiry_reported(pre: HandlerState, post: HandlerState, id: Seq<char>) -> bool {
    &&& evolves(message_forgotten(pre, id), post)
    &&& appended(pre, post).len() == 1
    &&& is_peer_control(
        appended(pre, post)[0],
        EXPIRY_NOTICE_RECIPIENT@,
        CommandView::MessageExpired(id),
    )
}

/// The message `msg` is recorded as `id`, its delivery confirmed to `peer`
/// when it asks for it, and handed to the local consumer.
pub open spec fn message_kept(
    pre: HandlerState,
    post: HandlerState,
    peer: Seq<char>,
    id: String,
    timestamp: u64,
    expiry: u64,
    delivery_id: Option<String>,
    msg: ProtocolMessage,
) -> bool {
    &&& evolves(recorded(pre, id, timestamp, expiry, delivery_id), post)
    &&& accepted(appended(pre, post), peer, delivery_id, msg)
}

/// Every chunk carries the lower-case hexadecimal SHA-256 digest of its data.
pub open spec fn chunk_hashes_match(chunks: Seq<FileChunk>) -> bool {
    forall|i: int|
        0 <= i < chunks.len() ==> hex_string(sha256_digest(chunks[i].data@)) == #[trigger] chunks[i].hash@
}

/// The number of chunks of a file of `size` bytes.
pub open spec fn chunk_count(size: u64) -> u32 {
    ((size + CHUNK_SIZE - 1) / (CHUNK_SIZE as int)) as u32
}

/// A new transfer of `total` chunks, all pending, started at `timestamp`.
pub open spec fn new_transfer(f: Seq<char>, total: u32, timestamp: u64) -> TransferState {
    TransferState {
        total_chunks: total,
        pending_chunks: Seq::new(total as nat, |i: int| i as u32),
        ..fresh_transfer(f, timestamp)
    }
}

/// The state after a file of `size` bytes announced as `f` at `timestamp` is registered.
pub open spec fn file_registered(s: HandlerState, f: Seq<char>, size: u64, timestamp: u64) -> HandlerState {
    HandlerState {
        file_transfers: s.file_transfers.insert(f, new_transfer(f, chunk_count(size), timestamp)),
        ..s
    }
}

/// `o` echoes the progress of file `f` to the local consumer.
pub open spec fn is_progress_echo(o: Outbound, f: Seq<char>, total: u32, received: Set<u32>, timestamp: u64, expiry: u64) -> bool {
    &&& o matches Outbound::Local(m)
    &&& o->Local_0 matches ProtocolMessage::FileProgress { file_id, total_chunks, received_chunks, timestamp, expiry, ephemeral_id }
    &&& o->Local_0->FileProgress_file_id@ == f
    &&& o->Local_0->FileProgress_total_chunks == total
    &&& o->Local_0->FileProgress_received_chunks@ == received
    &&& o->Local_0->FileProgress_timestamp == timestamp
    &&& o->Local_0->FileProgress_expiry == expiry
    &&& is_ephemeral_id(o->Local_0->FileProgress_ephemeral_id@)
}

/// The chunks from `start` up to `total` not yet received, in order.
pub open spec fn resume_chunks(start: u64, total: u32, received: Set<u32>) -> Seq<u32> {
    let n: nat = if start < total {
        (total - start) as nat
    } else {
        0
    };
    Seq::new(n, |i: int| (start + i) as u32).filter(|c: u32| !received.contains(c))
}

/// The queue with `f` at its back unless already queued.
pub open spec fn queue_added(q: Seq<Seq<char>>, f: Seq<char>) -> Seq<Seq<char>> {
    if q.contains(f) {
        q
    } else {
        q.push(f)
    }
}

/// The stamps of the rate limit of file `f`.
pub open spec fn limit_stamps(m: Map<Seq<char>, Seq<u64>>, f: Seq<char>) -> Seq<u64> {
    if m.contains_key(f) {
        m[f]
    } else {
        Seq::empty()
    }
}

/// A chunk request for file `f` at `now` (ms) is within the rate limit.
pub open spec fn admitted(s: HandlerState, f: Seq<char>, now: u64) -> bool {
    recent(limit_stamps(s.rate_limits, f), now, RATE_LIMIT_WINDOW_MS).len() < RATE_LIMIT_CHUNKS_PER_SEC
}

/// The state after the rate limit of file `f` was consulted at `now` (ms):
/// old stamps go, and an admitted request is stamped.
pub open spec fn limit_checked(s: HandlerState, f: Seq<char>, now: u64) -> HandlerState {
    let kept = recent(limit_stamps(s.rate_limits, f), now, RATE_LIMIT_WINDOW_MS);
    HandlerState {
        rate_limits: s.rate_limits.insert(
            f,
            if admitted(s, f, now) {
                kept.push(now)
            } else {
                kept
            },
        ),
        ..s
    }
}

/// The pending chunks after the requested `idx` are added, skipping the
/// received ones and those already pending.
pub open spec fn pending_added(pending: Seq<u32>, idx: Seq<u32>, received: Set<u32>) -> Seq<u32>
    decreases idx.len(),
{
    if idx.len() == 0 {
        pending
    } else {
        let before = pending_added(pending, idx.drop_last(), received);
        let c = idx.last();
        if !received.contains(c) && !before.contains(c) {
            before.push(c)
        } else {
            before
        }
    }
}

/// The state after the chunks `idx` of transfer `f` were requested.
pub open spec fn requested_chunks_added(s: HandlerState, f: Seq<char>, idx: Seq<u32>) -> HandlerState {
    if s.file_transfers.contains_key(f) {
        let t = s.file_transfers[f];
        HandlerState {
            file_transfers: s.file_transfers.insert(
                f,
                TransferState { pending_chunks: pending_added(t.pending_chunks, idx, t.received_chunks), ..t },
            ),
            ..s
        }
    } else {
        s
    }
}

/// `o` tells the local consumer that chunk requests for file `f` exceed the rate limit.
pub open spec fn is_rate_limit_notice(o: Outbound, f: Seq<char>, timestamp: u64, expiry: u64) -> bool {
    &&& o matches Outbound::Local(m)
    &&& o->Local_0 matches ProtocolMessage::RateLimitExceeded { file_id, timestamp, expiry, ephemeral_id }
    &&& o->Local_0->RateLimitExceeded_file_id@ == f
    &&& o->Local_0->RateLimitExceeded_timestamp == timestamp
    &&& o->Local_0->RateLimitExceeded_expiry == expiry
    &&& is_ephemeral_id(o->Local_0->RateLimitExceeded_ephemeral_id@)
}

/// The indices of the chunks of a response.
pub open spec fn response_indices(chunks: Seq<FileChunk>) -> Seq<u32> {
    chunks.map_values(|c: FileChunk| c.index)
}

/// The transfer after the chunks `idx` arrived at `timestamp`.
pub open spec fn chunks_arrived(t: TransferState, idx: Seq<u32>, timestamp: u64) -> TransferState {
    let received = t.received_chunks.union(idx.to_set());
    TransferState {
        received_chunks: received,
        active_chunks: t.active_chunks.difference(idx.to_set()),
        pending_chunks: t.pending_chunks.filter(|c: u32| !idx.contains(c)),
        last_update: timestamp,
        is_complete: t.is_complete || received.len() == t.total_chunks,
        ..t
    }
}

/// The transfer `f`, or a fresh one started at `timestamp`.
pub open spec fn transfer_or_fresh(s: HandlerState, f: Seq<char>, timestamp: u64) -> TransferState {
    if s.file_transfers.contains_key(f) {
        s.file_transfers[f]
    } else {
        fresh_transfer(f, timestamp)
    }
}

/// `o` tells the local consumer that file `f` stands at `position` in the queue.
pub open spec fn is_queue_echo(o: Outbound, f: Seq<char>, position: u32, timestamp: u64, expiry: u64) -> bool {
    &&& o matches Outbound::Local(m)
    &&& o->Local_0 matches ProtocolMessage::FileTransferQueueUpdate { file_id, queue_position, timestamp, expiry, ephemeral_id }
    &&& o->Local_0->FileTransferQueueUpdate_file_id@ == f
    &&& o->Local_0->FileTransferQueueUpdate_queue_position == position
    &&& o->Local_0->FileTransferQueueUpdate_timestamp == timestamp
    &&& o->Local_0->FileTransferQueueUpdate_expiry == expiry
    &&& is_ephemeral_id(o->Local_0->FileTransferQueueUpdate_ephemeral_id@)
}

/// `o` tells the local consumer to resume file `f` from `resume_point` at `timestamp`.
pub open spec fn is_resume_retry(o: Outbound, f: Seq<char>, resume_point: u64, timestamp: u64, expiry: u64) -> bool {
    &&& o matches Outbound::Local(m)
    &&& o->Local_0 matches ProtocolMessage::FileTransferResume { file_id, resume_point, timestamp, expiry, ephemeral_id }
    &&& o->Local_0->FileTransferResume_file_id@ == f
    &&& o->Local_0->FileTransferResume_resume_point == resume_point
    &&& o->Local_0->FileTransferResume_timestamp == timestamp
    &&& o->Local_0->FileTransferResume_expiry == expiry
    &&& is_ephemeral_id(o->Local_0->FileTransferResume_ephemeral_id@)
}

/// `out` asks the caller to forget the message `id` once it expires, when
/// it is known.
pub open spec fn viewing_notice(s: HandlerState, id: Seq<char>, out: Seq<Outbound>) -> bool {
    if s.message_tracker.contains_key(id) {
        &&& out.len() == 1
        &&& out[0] matches Outbound::ExpireAfter { ephemeral_id, seconds }
        &&& out[0]->ExpireAfter_ephemeral_id@ == id
        &&& out[0]->ExpireAfter_seconds == s.message_tracker[id].expiry
    } else {
        out.len() == 0
    }
}

/// What receiving chunk `c` of transfer `f` appends.
pub open spec fn chunk_notice(s: HandlerState, f: Seq<char>, c: u32, out: Seq<Outbound>) -> bool {
    &&& out.len() == if completes(s, f, c) {
        1int
    } else {
        0int
    }
    &&& completes(s, f, c) ==> is_local_control(out[0], CommandView::FileComplete(f))
}

/// What a missing chunk `c` of transfer `f` appends.
pub open spec fn missing_notice(s: HandlerState, f: Seq<char>, c: u32, out: Seq<Outbound>) -> bool {
    if !s.file_transfers.contains_key(f) {
        out.len() == 0
    } else if retries_exhausted(s, f) {
        out.len() == 1 && is_local_control(out[0], CommandView::FileFailed(f, MAX_RETRIES_REASON@))
    } else {
        out.len() == 1 && is_local_control(out[0], CommandView::ChunkMissing(f, c))
    }
}

/// The outcome of `peer` asking to join group `g` at `now`.
pub open spec fn join_done(
    pre: HandlerState,
    post: HandlerState,
    r: Result<(), ProtocolError>,
    peer: Seq<char>,
    g: Seq<char>,
    now: u64,
) -> bool {
    if group_full(pre, g) {
        r == Err::<(), ProtocolError>(ProtocolError::GroupFull) && post == pre
    } else {
        let eph = post.group_members[g].ephemeral_id;
        &&& r is Ok
        &&& (!pre.group_members.contains_key(g) ==> is_ephemeral_id(eph))
        &&& evolves(joined(pre, peer, g, now, eph), post)
        &&& broadcast_to(appended(pre, post), join_recipients(pre, peer, g, now, eph), CommandView::GroupJoin(g))
    }
}

/// The outcome of the control command `cmd` from `peer` at `now` (seconds).
/// The circuit commands, keep-alives, error reports and completion notices
/// change nothing.
pub open spec fn control_handled(
    pre: HandlerState,
    post: HandlerState,
    r: Result<(), ProtocolError>,
    peer: Seq<char>,
    cmd: CommandView,
    now: u64,
) -> bool {
    match cmd {
        CommandView::GroupJoin(g) => join_done(pre, post, r, peer, g, now),
        CommandView::GroupLeave(g) => {
            &&& r is Ok
            &&& evolves(left(pre, peer, g, now), post)
            &&& leave_notice(pre, peer, g, appended(pre, post))
        },
        CommandView::GroupMessageReceived(g, _m) => r is Ok && post == group_touched(pre, g, now),
        CommandView::GroupMessageExpired(g, m) => {
            &&& r is Ok
            &&& evolves(pre, post)
            &&& group_notice(pre, g, CommandView::GroupMessageExpired(g, m), appended(pre, post))
        },
        CommandView::MessageReceived(id) => {
            &&& r is Ok
            &&& evolves(message_viewed(pre, id), post)
            &&& viewing_notice(pre, id, appended(pre, post))
        },
        CommandView::MessageExpired(id) => r is Ok && post == message_forgotten(pre, id),
        CommandView::DeliveryConfirmed(d) => r is Ok && post == delivery_confirmed(pre, d),
        CommandView::DeliveryFailed(d, _reason) => r is Ok && post == delivery_failed(pre, d),
        CommandView::ChunkReceived(f, c) => {
            &&& r is Ok
            &&& evolves(chunk_received(pre, f, c, now), post)
            &&& chunk_notice(pre, f, c, appended(pre, post))
        },
        CommandView::ChunkMissing(f, c) => {
            &&& r is Ok
            &&& evolves(chunk_missing(pre, f), post)
            &&& missing_notice(pre, f, c, appended(pre, post))
        },
        CommandView::FileFailed(f, reason) => {
            &&& r is Ok
            &&& evolves(transfer_dropped(pre, f), post)
            &&& appended(pre, post).len() == 1
            &&& is_local_control(appended(pre, post)[0], CommandView::FileFailed(f, reason))
        },
        _ => r is Ok && post == pre,
    }
}

/// The outcome of a text message from `peer` at `now` (seconds).
pub open spec fn text_handled(pre: HandlerState, post: HandlerState, r: Result<(), ProtocolError>, peer: Seq<char>, msg: ProtocolMessage, now: u64) -> bool {
    match msg {
        ProtocolMessage::Text { timestamp, expiry, ephemeral_id, delivery_id, .. } => {
            &&& r is Ok
            &&& if expired(now, timestamp, expiry) {
                expiry_reported(pre, post, ephemeral_id@)
            } else {
                message_kept(pre, post, peer, ephemeral_id, timestamp, expiry, delivery_id, msg)
            }
        },
        _ => false,
    }
}

/// The outcome of a group message from `peer` at `now` (seconds): refused
/// when the group does not exist or the sender is not a member.
pub open spec fn group_message_handled(pre: HandlerState, post: HandlerState, r: Result<(), ProtocolError>, peer: Seq<char>, msg: ProtocolMessage, now: u64) -> bool {
    match msg {
        ProtocolMessage::Group { group_id, timestamp, expiry, ephemeral_id, delivery_id, sender_ephemeral_id, .. } => {
            if expired(now, timestamp, expiry) {
                &&& r is Ok
                &&& evolves(pre, post)
                &&& group_notice(
                    pre,
                    group_id@,
                    CommandView::GroupMessageExpired(group_id@, ephemeral_id@),
                    appended(pre, post),
                )
            } else if !pre.group_members.contains_key(group_id@) {
                r == Err::<(), ProtocolError>(ProtocolError::GroupDoesNotExist) && post == pre
            } else if !pre.group_members[group_id@].members.contains(sender_ephemeral_id@) {
                r == Err::<(), ProtocolError>(ProtocolError::SenderNotGroupMember) && post == pre
            } else {
                r is Ok && message_kept(pre, post, peer, ephemeral_id, timestamp, expiry, delivery_id, msg)
            }
        },
        _ => false,
    }
}

/// The outcome of a file message from `peer` at `now` (seconds): refused
/// when the file is too large, or, once its transfer is registered, when a
/// chunk does not match its hash.
pub open spec fn file_handled(pre: HandlerState, post: HandlerState, r: Result<(), ProtocolError>, peer: Seq<char>, msg: ProtocolMessage, now: u64) -> bool {
    match msg {
        ProtocolMessage::File { size, chunks, timestamp, expiry, ephemeral_id, delivery_id, .. } => {
            if expired(now, timestamp, expiry) {
                r is Ok && expiry_reported(pre, post, ephemeral_id@)
            } else if size > MAX_MESSAGE_SIZE {
                r == Err::<(), ProtocolError>(ProtocolError::FileTooLarge) && post == pre
            } else if !chunk_hashes_match(chunks@) {
                r == Err::<(), ProtocolError>(ProtocolError::InvalidChunkHash) && post == file_registered(pre, ephemeral_id@, size, timestamp)
            } else {
                r is Ok && message_kept(
                    file_registered(pre, ephemeral_id@, size, timestamp),
                    post,
                    peer,
                    ephemeral_id,
                    timestamp,
                    expiry,
                    delivery_id,
                    msg,
                )
            }
        },
        _ => false,
    }
}

/// The outcome of a progress message at `now` (seconds): the received
/// chunks of a known transfer are merged and the progress echoed.
pub open spec fn progress_handled(pre: HandlerState, post: HandlerState, r: Result<(), ProtocolError>, msg: ProtocolMessage, now: u64) -> bool {
    match msg {
        ProtocolMessage::FileProgress { file_id, total_chunks, received_chunks, timestamp, expiry, .. } => {
            &&& r is Ok
            &&& if expired(now, timestamp, expiry) || !pre.file_transfers.contains_key(file_id@) {
                post == pre
            } else {
                let t = pre.file_transfers[file_id@];
                let received = t.received_chunks.union(received_chunks@);
                &&& evolves(
                    HandlerState {
                        file_transfers: pre.file_transfers.insert(
                            file_id@,
                            TransferState {
                                received_chunks: received,
                                last_update: timestamp,
                                is_complete: received.len() == total_chunks,
                                ..t
                            },
                        ),
                        ..pre
                    },
                    post,
                )
                &&& appended(pre, post).len() == 1
                &&& is_progress_echo(appended(pre, post)[0], file_id@, total_chunks, received, timestamp, expiry)
            }
        },
        _ => false,
    }
}

/// The outcome of a resume message from `peer` at `now` (seconds): a known
/// transfer resumes from the message's time stamp, is queued, and the chunks
/// it still lacks from there are requested.
pub open spec fn resume_handled(pre: HandlerState, post: HandlerState, r: Result<(), ProtocolError>, peer: Seq<char>, msg: ProtocolMessage, now: u64) -> bool {
    match msg {
        ProtocolMessage::FileResume { file_id, timestamp, expiry, .. } => {
            &&& r is Ok
            &&& if expired(now, timestamp, expiry) || !pre.file_transfers.contains_key(file_id@) {
                post == pre
            } else {
                let t = pre.file_transfers[file_id@];
                let wanted = resume_chunks(timestamp, t.total_chunks, t.received_chunks);
                &&& evolves(
                    HandlerState {
                        file_transfers: pre.file_transfers.insert(
                            file_id@,
                            TransferState { resume_point: timestamp, error_count: 0, last_error: None, ..t },
                        ),
                        transfer_queue: queue_added(pre.transfer_queue, file_id@),
                        ..pre
                    },
                    post,
                )
                &&& appended(pre, post).len() == if wanted.len() > 0 {
                    1int
                } else {
                    0int
                }
                &&& wanted.len() > 0 ==> is_chunk_request(appended(pre, post)[0], peer, file_id@, wanted, timestamp, expiry)
            }
        },
        _ => false,
    }
}

/// The outcome of a chunk request from `peer` at `now_secs` (seconds) and
/// `now_ms` (milliseconds): past the rate limit it is refused with a notice;
/// otherwise the chunks join the pending ones and a round of requests runs.
pub open spec fn chunk_request_handled(pre: HandlerState, post: HandlerState, r: Result<(), ProtocolError>, peer: Seq<char>, msg: ProtocolMessage, now_secs: u64, now_ms: u64) -> bool {
    match msg {
        ProtocolMessage::FileChunkRequest { file_id, chunk_indices, timestamp, expiry, .. } => {
            &&& r is Ok
            &&& if expired(now_secs, timestamp, expiry) {
                post == pre
            } else if !admitted(pre, file_id@, now_ms) {
                &&& evolves(limit_checked(pre, file_id@, now_ms), post)
                &&& appended(pre, post).len() == 1
                &&& is_rate_limit_notice(appended(pre, post)[0], file_id@, timestamp, expiry)
            } else if !pre.file_transfers.contains_key(file_id@) {
                post == limit_checked(pre, file_id@, now_ms)
            } else {
                let s = requested_chunks_added(limit_checked(pre, file_id@, now_ms), file_id@, chunk_indices@);
                &&& evolves(chunks_requested(s, file_id@, now_ms), post)
                &&& chunk_reports(s, file_id@, peer, now_secs, now_ms, appended(pre, post))
            }
        },
        _ => false,
    }
}

/// The outcome of a chunk response at `now` (seconds): the chunks of a
/// known transfer arrive, and completion is announced.
pub open spec fn response_handled(pre: HandlerState, post: HandlerState, r: Result<(), ProtocolError>, msg: ProtocolMessage, now: u64) -> bool {
    match msg {
        ProtocolMessage::FileChunkResponse { file_id, chunks, timestamp, expiry, .. } => {
            &&& r is Ok
            &&& if expired(now, timestamp, expiry) || !pre.file_transfers.contains_key(file_id@) {
                post == pre
            } else {
                let t = chunks_arrived(pre.file_transfers[file_id@], response_indices(chunks@), timestamp);
                let done = t.received_chunks.len() == t.total_chunks;
                &&& evolves(HandlerState { file_transfers: pre.file_transfers.insert(file_id@, t), ..pre }, post)
                &&& appended(pre, post).len() == if done {
                    1int
                } else {
                    0int
                }
                &&& done ==> is_local_control(appended(pre, post)[0], CommandView::FileComplete(file_id@))
            }
        },
        _ => false,
    }
}

/// The outcome of a cancellation at `now` (seconds): the transfer, created
/// if unknown, is marked cancelled, its allocation and priorities dropped,
/// and the failure announced.
pub open spec fn cancel_handled(pre: HandlerState, post: HandlerState, r: Result<(), ProtocolError>, msg: ProtocolMessage, now: u64) -> bool {
    match msg {
        ProtocolMessage::FileTransferCancel { file_id, reason, timestamp, expiry, .. } => {
            &&& r is Ok
            &&& if expired(now, timestamp, expiry) {
                post == pre
            } else {
                let t = transfer_or_fresh(pre, file_id@, timestamp);
                &&& evolves(
                    HandlerState {
                        file_transfers: pre.file_transfers.insert(file_id@, TransferState { is_cancelled: true, ..t }),
                        allocations: pre.allocations.remove(file_id@),
                        transfer_priorities: pre.transfer_priorities.filter(|p: PriorityState| p.file_id != file_id@),
                        ..pre
                    },
                    post,
                )
                &&& appended(pre, post).len() == 1
                &&& is_local_control(appended(pre, post)[0], CommandView::FileFailed(file_id@, reason@))
            }
        },
        _ => false,
    }
}

/// The outcome of a priority message at `now` (seconds): the transfer,
/// created if unknown, takes the priority, and an entry is listed.
pub open spec fn priority_handled(pre: HandlerState, post: HandlerState, r: Result<(), ProtocolError>, msg: ProtocolMessage, now: u64) -> bool {
    match msg {
        ProtocolMessage::FileTransferPriority { file_id, priority, timestamp, expiry, .. } => {
            &&& r is Ok
            &&& if expired(now, timestamp, expiry) {
                post == pre
            } else {
                let t = transfer_or_fresh(pre, file_id@, timestamp);
                post == HandlerState {
                    file_transfers: pre.file_transfers.insert(file_id@, TransferState { priority, ..t }),
                    transfer_priorities: pre.transfer_priorities.push(
                        PriorityState { priority, start_time: t.start_time, file_id: file_id@ },
                    ),
                    ..pre
                }
            }
        },
        _ => false,
    }
}

/// The outcome of a bandwidth message at `now_secs` (seconds) and `now_ms`
/// (milliseconds): the transfer, created if unknown, takes the limit and
/// asks for it.
pub open spec fn bandwidth_handled(pre: HandlerState, post: HandlerState, r: Result<(), ProtocolError>, msg: ProtocolMessage, now_secs: u64, now_ms: u64) -> bool {
    match msg {
        ProtocolMessage::FileTransferBandwidth { file_id, bandwidth_limit, timestamp, expiry, .. } => {
            &&& r is Ok
            &&& if expired(now_secs, timestamp, expiry) {
                post == pre
            } else {
                let t = transfer_or_fresh(pre, file_id@, timestamp);
                post == bandwidth_set(
                    HandlerState { file_transfers: pre.file_transfers.insert(file_id@, t), ..pre },
                    file_id@,
                    bandwidth_limit,
                    now_ms,
                )
            }
        },
        _ => false,
    }
}

/// The outcome of a transfer progress message at `now` (seconds): the
/// transfer, created if unknown, records the bytes moved and the speed.
pub open spec fn transfer_progress_handled(pre: HandlerState, post: HandlerState, r: Result<(), ProtocolError>, msg: ProtocolMessage, now: u64) -> bool {
    match msg {
        ProtocolMessage::FileTransferProgress { file_id, bytes_transferred, speed, timestamp, expiry, .. } => {
            &&& r is Ok
            &&& if expired(now, timestamp, expiry) {
                post == pre
            } else {
                let t = transfer_or_fresh(pre, file_id@, timestamp);
                post == HandlerState {
                    file_transfers: pre.file_transfers.insert(
                        file_id@,
                        TransferState { bytes_transferred, speed, last_progress_update: timestamp, ..t },
                    ),
                    ..pre
                }
            }
        },
        _ => false,
    }
}

/// The outcome of a transfer resumption at `now` (seconds): the transfer,
/// created if unknown, resumes from the point given, its errors are cleared,
/// and it is queued.
pub open spec fn transfer_resume_handled(pre: HandlerState, post: HandlerState, r: Result<(), ProtocolError>, msg: ProtocolMessage, now: u64) -> bool {
    match msg {
        ProtocolMessage::FileTransferResume { file_id, resume_point, timestamp, expiry, .. } => {
            &&& r is Ok
            &&& if expired(now, timestamp, expiry) {
                post == pre
            } else {
                let t = transfer_or_fresh(pre, file_id@, timestamp);
                post == HandlerState {
                    file_transfers: pre.file_transfers.insert(
                        file_id@,
                        TransferState { resume_point, error_count: 0, last_error: None, ..t },
                    ),
                    transfer_queue: queue_added(pre.transfer_queue, file_id@),
                    ..pre
                }
            }
        },
        _ => false,
    }
}

/// The outcome of a target speed at `now_secs` (seconds) and `now_ms`
/// (milliseconds): the transfer, created if unknown, takes the target, and
/// the caller is asked to derive its bandwidth.
pub open spec fn speed_adapt_handled(pre: HandlerState, post: HandlerState, r: Result<(), ProtocolError>, msg: ProtocolMessage, now_secs: u64, now_ms: u64) -> bool {
    match msg {
        ProtocolMessage::FileTransferSpeedAdapt { file_id, target_speed, timestamp, expiry, .. } => {
            &&& r is Ok
            &&& if expired(now_secs, timestamp, expiry) {
                post == pre
            } else {
                let t = transfer_or_fresh(pre, file_id@, timestamp);
                &&& evolves(
                    HandlerState {
                        file_transfers: pre.file_transfers.insert(
                            file_id@,
                            TransferState { target_speed, last_speed_adaptation: timestamp, ..t },
                        ),
                        ..pre
                    },
                    post,
                )
                &&& appended(pre, post) == seq![Outbound::TargetBandwidth { file_id, target_speed, now: now_ms }]
            }
        },
        _ => false,
    }
}

/// The outcome of a queue position message at `now` (seconds): it is echoed
/// to the local consumer.
pub open spec fn queue_update_handled(pre: HandlerState, post: HandlerState, r: Result<(), ProtocolError>, msg: ProtocolMessage, now: u64) -> bool {
    match msg {
        ProtocolMessage::FileTransferQueueUpdate { file_id, queue_position, timestamp, expiry, .. } => {
            &&& r is Ok
            &&& if expired(now, timestamp, expiry) {
                post == pre
            } else {
                &&& evolves(pre, post)
                &&& appended(pre, post).len() == 1
                &&& is_queue_echo(appended(pre, post)[0], file_id@, queue_position, timestamp, expiry)
            }
        },
        _ => false,
    }
}

/// The outcome of an error report at `now` (seconds): the transfer, created
/// if unknown, records the error; after `MAX_ERROR_RETRIES` it fails,
/// otherwise it is resumed from the bytes moved a little later.
pub open spec fn error_handled(pre: HandlerState, post: HandlerState, r: Result<(), ProtocolError>, msg: ProtocolMessage, now: u64) -> bool {
    match msg {
        ProtocolMessage::FileTransferError { file_id, error_type, retry_count, timestamp, expiry, .. } => {
            &&& r is Ok
            &&& if expired(now, timestamp, expiry) {
                post == pre
            } else {
                let t = TransferState {
                    error_count: retry_count,
                    last_error: Some(error_type@),
                    ..transfer_or_fresh(pre, file_id@, timestamp)
                };
                let s = HandlerState { file_transfers: pre.file_transfers.insert(file_id@, t), ..pre };
                if retry_count >= MAX_ERROR_RETRIES {
                    &&& evolves(transfer_dropped(s, file_id@), post)
                    &&& appended(pre, post).len() == 1
                    &&& is_local_control(
                        appended(pre, post)[0],
                        CommandView::FileFailed(file_id@, ERROR_RETRIES_PREFIX@ + error_type@),
                    )
                } else {
                    &&& evolves(s, post)
                    &&& appended(pre, post).len() == 1
                    &&& is_resume_retry(
                        appended(pre, post)[0],
                        file_id@,
                        t.bytes_transferred,
                        (timestamp + ERROR_RECOVERY_DELAY_SECS) as u64,
                        expiry,
                    )
                }
            }
        },
        _ => false,
    }
}

/// The message can be handled without overflow: an error report to be
/// retried leaves room for the recovery delay in its time stamp.
pub open spec fn handleable(msg: ProtocolMessage) -> bool {
    msg matches ProtocolMessage::FileTransferError { timestamp, retry_count, .. } ==> (retry_count
        >= MAX_ERROR_RETRIES || timestamp + ERROR_RECOVERY_DELAY_SECS <= u64::MAX)
}

/// The outcome of the message `msg` of `len` encoded bytes from `peer` at
/// `now_secs` (seconds) and `now_ms` (milliseconds).
pub open spec fn message_handled(
    pre: HandlerState,
    post: HandlerState,
    r: Result<(), ProtocolError>,
    peer: Seq<char>,
    msg: ProtocolMessage,
    len: usize,
    now_secs: u64,
    now_ms: u64,
) -> bool {
    if len > MAX_MESSAGE_SIZE {
        r == Err::<(), ProtocolError>(ProtocolError::MessageTooLarge) && post == pre
    } else {
        match msg {
            ProtocolMessage::Text { .. } => text_handled(pre, post, r, peer, msg, now_secs),
            ProtocolMessage::Group { .. } => group_message_handled(pre, post, r, peer, msg, now_secs),
            ProtocolMessage::File { .. } => file_handled(pre, post, r, peer, msg, now_secs),
            ProtocolMessage::FileProgress { .. } => progress_handled(pre, post, r, msg, now_secs),
            ProtocolMessage::FileResume { .. } => resume_handled(pre, post, r, peer, msg, now_secs),
            ProtocolMessage::Control { command, .. } => control_handled(pre, post, r, peer, command@, now_secs),
            ProtocolMessage::FileChunkRequest { .. } => chunk_request_handled(pre, post, r, peer, msg, now_secs, now_ms),
            ProtocolMessage::FileChunkResponse { .. } => response_handled(pre, post, r, msg, now_secs),
            ProtocolMessage::RateLimitExceeded { .. } => r is Ok && post == pre,
            ProtocolMessage::FileTransferCancel { .. } => cancel_handled(pre, post, r, msg, now_secs),
            ProtocolMessage::FileTransferPriority { .. } => priority_handled(pre, post, r, msg, now_secs),
            ProtocolMessage::FileTransferBandwidth { .. } => bandwidth_handled(pre, post, r, msg, now_secs, now_ms),
            ProtocolMessage::FileTransferProgress { .. } => transfer_progress_handled(pre, post, r, msg, now_secs),
            ProtocolMessage::FileTransferResume { .. } => transfer_resume_handled(pre, post, r, msg, now_secs),
            ProtocolMessage::FileTransferSpeedAdapt { .. } => speed_adapt_handled(pre, post, r, msg, now_secs, now_ms),
            ProtocolMessage::FileTransferQueueUpdate { .. } => queue_update_handled(pre, post, r, msg, now_secs),
            ProtocolMessage::FileTransferError { .. } => error_handled(pre, post, r, msg, now_secs),
        }
    }
}

/// A copy of an optional string.
pub fn copy_opt(o: &Option<String>) -> (r: Option<String>)
    ensures
        r == *o,
{
    match o {
        Some(s) => Some(s.clone()),
        None => None,
    }
}

/// The chunks from `start` up to `total` that `received` lacks, in order.
pub fn resume_chunk_list(start: u64, total: u32, received: &ChunkSet) -> (r: Vec<u32>)
    ensures
        r@ == resume_chunks(start, total, received@),
{
    let ghost f = |i: int| (start + i) as u32;
    let ghost p = |c: u32| !received@.contains(c);
    let mut r: Vec<u32> = Vec::new();
    let mut c: u64 = start;
    proof {
        reveal_with_fuel(Seq::filter, 1);
        assert(Seq::new(0, f) =~= Seq::<u32>::empty());
        assert(Seq::<u32>::empty().filter(p) =~= Seq::<u32>::empty());
    }
    while c < total as u64
        invariant
            start <= c,
            c <= if start < total {
                total as u64
            } else {
                start
            },
            f == (|i: int| (start + i) as u32),
            p == (|c: u32| !received@.contains(c)),
            r@ == Seq::new((c - start) as nat, f).filter(p),
        decreases total - c,
    {
        let ghost n = (c - start) as nat;
        proof {
            assert(Seq::new(n + 1, f) =~= Seq::new(n, f).push(f(n as int)));
            Seq::new(n, f).lemma_filter_push(f(n as int), p);
            assert(f(n as int) == c as u32);
        }
        if !received.contains(c as u32) {
            r.push(c as u32);
        }
        c = c + 1;
    }
    r
}

/// Adds the requested chunks `idx` to the pending ones, skipping those
/// already received or pending.
pub fn add_requested(transfer: &mut FileTransferInfo, idx: &Vec<u32>)
    requires
        old(transfer).wf(),
    ensures
        final(transfer).wf(),
        final(transfer)@ == (TransferState {
            pending_chunks: pending_added(old(transfer)@.pending_chunks, idx@, old(transfer)@.received_chunks),
            ..old(transfer)@
        }),
{
    let ghost t0 = transfer@;
    let mut i: usize = 0;
    assert(idx@.take(0) =~= Seq::<u32>::empty());
    while i < idx.len()
        invariant
            transfer.wf(),
            i <= idx@.len(),
            t0 == old(transfer)@,
            transfer@ == (TransferState {
                pending_chunks: pending_added(t0.pending_chunks, idx@.take(i as int), t0.received_chunks),
                ..t0
            }),
        decreases idx@.len() - i,
    {
        let c = idx[i];
        proof {
            assert(idx@.take(i + 1).drop_last() =~= idx@.take(i as int));
            assert(idx@.take(i + 1).last() == c);
            transfer.pending_chunks.lemma_view();
        }
        if !transfer.received_chunks.contains(c) {
            transfer.pending_chunks.insert(c);
        }
        i = i + 1;
    }
    assert(idx@.take(i as int) =~= idx@);
}

/// Records the arrival of `chunks` at `timestamp`: they are received, no
/// longer in flight nor pending.
pub fn apply_arrivals(transfer: &mut FileTransferInfo, chunks: &Vec<FileChunk>, timestamp: u64)
    requires
        old(transfer).wf(),
    ensures
        final(transfer).wf(),
        final(transfer)@ == (TransferState {
            received_chunks: old(transfer)@.received_chunks.union(response_indices(chunks@).to_set()),
            active_chunks: old(transfer)@.active_chunks.difference(response_indices(chunks@).to_set()),
            pending_chunks: old(transfer)@.pending_chunks.filter(
                |c: u32| !response_indices(chunks@).contains(c),
            ),
            last_update: timestamp,
            ..old(transfer)@
        }),
{
    let ghost t0 = transfer@;
    let ghost idx = response_indices(chunks@);
    proof {
        transfer.active_chunks.lemma_view();
        lemma_filter_all(t0.pending_chunks, |c: u32| !idx.take(0).contains(c));
        assert(t0.received_chunks.union(idx.take(0).to_set()) =~= t0.received_chunks);
        assert(t0.active_chunks.difference(idx.take(0).to_set()) =~= t0.active_chunks);
    }
    transfer.last_update = timestamp;
    let mut i: usize = 0;
    while i < chunks.len()
        invariant
            transfer.wf(),
            i <= chunks@.len(),
            idx == response_indices(chunks@),
            t0 == old(transfer)@,
            t0.active_chunks.finite(),
            t0.active_chunks.len() <= 4,
            transfer@.active_chunks.subset_of(t0.active_chunks),
            transfer@ == (TransferState {
                received_chunks: t0.received_chunks.union(idx.take(i as int).to_set()),
                active_chunks: t0.active_chunks.difference(idx.take(i as int).to_set()),
                pending_chunks: t0.pending_chunks.filter(|c: u32| !idx.take(i as int).contains(c)),
                last_update: timestamp,
                ..t0
            }),
        decreases chunks@.len() - i,
    {
        let c = chunks[i].index;
        transfer.received_chunks.insert(c);
        transfer.active_chunks.remove(c);
        transfer.pending_chunks.remove(c);
        proof {
            let shorter = idx.take(i as int);
            let longer = idx.take(i + 1);
            assert(longer =~= shorter.push(c));
            shorter.lemma_push_to_set_commute(c);
            assert(transfer@.received_chunks =~= t0.received_chunks.union(longer.to_set()));
            assert(transfer@.active_chunks =~= t0.active_chunks.difference(longer.to_set()));
            let p = |x: u32| !shorter.contains(x);
            let q = |x: u32| x != c;
            let r = |x: u32| !longer.contains(x);
            assert forall|x: u32| #[trigger] r(x) == (p(x) && q(x)) by {
                if longer.contains(x) && x != c {
                    let j = choose|j: int| 0 <= j < longer.len() && longer[j] == x;
                    assert(shorter[j] == x);
                }
                if shorter.contains(x) {
                    let j = choose|j: int| 0 <= j < shorter.len() && shorter[j] == x;
                    assert(longer[j] == x);
                }
                assert(longer[i as int] == c);
            }
            lemma_filter_filter(t0.pending_chunks, p, q, r);
            vstd::set_lib::lemma_len_subset(transfer@.active_chunks, t0.active_chunks);
        }
        i = i + 1;
    }
    assert(idx.take(i as int) =~= idx);
}

impl ProtocolHandler {
    /// Carries out the control command `command` from `peer_id` at `now`
    /// (seconds).  Only a join of a full group fails.
    pub fn handle_control_message_at(
        &mut self,
        peer_id: String,
        command: ControlCommand,
        data: Vec<u8>,
        ephemeral_id: String,
        now: u64,
    ) -> (r: Result<(), ProtocolError>)
        requires
            old(self).wf(),
        ensures
            final(self).wf(),
            control_handled(old(self)@, final(self)@, r, peer_id@, command@, now),
    {
        match command {
            ControlCommand::GroupJoin(group_id) => {
                return self.handle_group_join_at(peer_id, group_id, now);
            },
            ControlCommand::GroupLeave(group_id) => {
                self.handle_group_leave_at(peer_id, group_id, now);
            },
            ControlCommand::GroupMessageReceived(group_id, message_id) => {
                self.handle_group_message_received_at(group_id, message_id, now);
            },
            ControlCommand::GroupMessageExpired(group_id, message_id) => {
                self.handle_group_message_expired(group_id, message_id);
            },
            ControlCommand::MessageReceived(id) => {
                self.handle_message_received(id);
            },
            ControlCommand::MessageExpired(id) => {
                self.handle_message_expired(id);
            },
            ControlCommand::DeliveryConfirmed(delivery_id) => {
                self.handle_delivery_confirmation(delivery_id);
            },
            ControlCommand::DeliveryFailed(delivery_id, reason) => {
                self.handle_delivery_failure(delivery_id, reason);
            },
            ControlCommand::ChunkReceived(file_id, chunk_index) => {
                self.handle_chunk_received_at(file_id, chunk_index, now);
            },
            ControlCommand::ChunkMissing(file_id, chunk_index) => {
                self.handle_chunk_missing(file_id, chunk_index);
            },
            ControlCommand::FileFailed(file_id, reason) => {
                self.handle_file_failure(file_id, reason);
            },
            _ => {},
        }
        Ok(())
    }
    /// Whether every chunk carries the digest of its data.
    pub fn chunk_hashes_valid(&self, chunks: &Vec<FileChunk>) -> (b: bool)
        ensures
            b == chunk_hashes_match(chunks@),
    {
        let mut i: usize = 0;
        while i < chunks.len()
            invariant
                i <= chunks@.len(),
                forall|j: int|
                    0 <= j < i ==> hex_string(sha256_digest(chunks@[j].data@)) == #[trigger] chunks@[j].hash@,
            decreases chunks@.len() - i,
        {
            let chunk = &chunks[i];
            let digest = self.crypto_service.hash_data(chunk.data.as_slice());
            if !crate::collections::str_equals(digest.as_str(), &chunk.hash) {
                assert(!chunk_hashes_match(chunks@)) by {
                    assert(hex_string(sha256_digest(chunks@[i as int].data@)) != chunks@[i as int].hash@);
                }
                return false;
            }
            i = i + 1;
        }
        true
    }

    /// Takes the transfer `file_id` out of the table, or makes a fresh one
    /// started at `timestamp`.
    pub fn take_transfer(&mut self, file_id: &String, timestamp: u64) -> (t: FileTransferInfo)
        requires
            old(self).wf(),
        ensures
            final(self).wf(),
            t.wf(),
            t@ == transfer_or_fresh(old(self)@, file_id@, timestamp),
            final(self)@ == (HandlerState {
                file_transfers: old(self)@.file_transfers.remove(file_id@),
                ..old(self)@
            }),
    {
        let ghost stored = self.file_transfers@;
        let ghost pre = self@;
        let r = self.file_transfers.remove(file_id.as_str());
        assert(self@.file_transfers =~= pre.file_transfers.remove(file_id@));
        match r {
            Some(t) => {
                assert(stored[file_id@].wf());
                t
            },
            None => {
                let t = FileTransferInfo::new(file_id.clone(), 0, timestamp);
                assert(t@ =~= fresh_transfer(file_id@, timestamp));
                t
            },
        }
    }

    /// Handles a text message.
    fn receive_text(&mut self, peer_id: String, message: ProtocolMessage, now: u64) -> (r: Result<(), ProtocolError>)
        requires
            old(self).wf(),
            message is Text,
        ensures
            final(self).wf(),
            text_handled(old(self)@, final(self)@, r, peer_id@, message, now),
    {
        let (timestamp, expiry, id, delivery) = match &message {
            ProtocolMessage::Text { timestamp, expiry, ephemeral_id, delivery_id, .. } => (
                *timestamp,
                *expiry,
                ephemeral_id.clone(),
                copy_opt(delivery_id),
            ),
            _ => {
                return Ok(());
            },
        };
        if is_expired_at(now, timestamp, expiry) {
            self.handle_expired_message(id);
            return Ok(());
        }
        self.keep_message(peer_id, message, id, timestamp, expiry, delivery);
        Ok(())
    }

    /// Records the accepted message `message` as `id`, confirms its delivery
    /// to `peer_id` when asked, and hands it to the local consumer.
    fn keep_message(
        &mut self,
        peer_id: String,
        message: ProtocolMessage,
        id: String,
        timestamp: u64,
        expiry: u64,
        delivery: Option<String>,
    )
        requires
            old(self).wf(),
        ensures
            final(self).wf(),
            message_kept(old(self)@, final(self)@, peer_id@, id, timestamp, expiry, delivery, message),
    {
        let ghost pre = self@;
        self.track_message(id, timestamp, expiry, copy_opt(&delivery));
        let ghost noted = self@;
        if let Some(d) = delivery {
            self.send_delivery_confirmation(peer_id, d);
        }
        let ghost confirmed = self@;
        let ghost o = Outbound::Local(message);
        self.outbox.push(Outbound::Local(message));
        proof {
            assert(self@.outbox =~= confirmed.outbox.push(o));
            assert(self@.outbox.take(pre.outbox.len() as int) =~= pre.outbox);
            assert(appended(pre, self@) =~= appended(pre, confirmed).push(o));
            if delivery is Some {
                assert(appended(pre, confirmed) =~= appended(noted, confirmed));
                assert(appended(pre, self@)[0] == appended(pre, confirmed)[0]);
            } else {
                assert(appended(pre, confirmed) =~= Seq::<Outbound>::empty());
            }
        }
    }

    /// Handles a group message.
    fn receive_group(&mut self, peer_id: String, message: ProtocolMessage, now: u64) -> (r: Result<(), ProtocolError>)
        requires
            old(self).wf(),
            message is Group,
        ensures
            final(self).wf(),
            group_message_handled(old(self)@, final(self)@, r, peer_id@, message, now),
    {
        let (group_id, timestamp, expiry, id, delivery, sender) = match &message {
            ProtocolMessage::Group {
                group_id,
                timestamp,
                expiry,
                ephemeral_id,
                delivery_id,
                sender_ephemeral_id,
                ..
            } => (
                group_id.clone(),
                *timestamp,
                *expiry,
                ephemeral_id.clone(),
                copy_opt(delivery_id),
                sender_ephemeral_id.clone(),
            ),
            _ => {
                return Ok(());
            },
        };
        if is_expired_at(now, timestamp, expiry) {
            self.handle_expired_group_message(group_id, id);
            return Ok(());
        }
        match self.group_members.get(group_id.as_str()) {
            Some(group) => {
                assert(self.group_members@[group_id@].members.wf());
                proof {
                    group.members.lemma_view();
                }
                if !group.members.contains(sender.as_str()) {
                    return Err(ProtocolError::SenderNotGroupMember);
                }
            },
            None => {
                return Err(ProtocolError::GroupDoesNotExist);
            },
        }
        self.keep_message(peer_id, message, id, timestamp, expiry, delivery);
        Ok(())
    }

    /// Handles a file message.
    fn receive_file(&mut self, peer_id: String, message: ProtocolMessage, now: u64) -> (r: Result<(), ProtocolError>)
        requires
            old(self).wf(),
            message is File,
        ensures
            final(self).wf(),
            file_handled(old(self)@, final(self)@, r, peer_id@, message, now),
    {
        let ghost pre = self@;
        let (size, timestamp, expiry, id, delivery, valid) = match &message {
            ProtocolMessage::File { size, chunks, timestamp, expiry, ephemeral_id, delivery_id, .. } => (
                *size,
                *timestamp,
                *expiry,
                ephemeral_id.clone(),
                copy_opt(delivery_id),
                self.chunk_hashes_valid(chunks),
            ),
            _ => {
                return Ok(());
            },
        };
        if is_expired_at(now, timestamp, expiry) {
            self.handle_expired_message(id);
            return Ok(());
        }
        if size > MAX_MESSAGE_SIZE as u64 {
            return Err(ProtocolError::FileTooLarge);
        }
        let total = ((size + CHUNK_SIZE as u64 - 1) / CHUNK_SIZE as u64) as u32;
        assert(total == chunk_count(size));
        let transfer = FileTransferInfo::new(id.clone(), total, timestamp);
        self.file_transfers.insert(id.clone(), transfer);
        assert(self@ =~= file_registered(pre, id@, size, timestamp));
        if !valid {
            return Err(ProtocolError::InvalidChunkHash);
        }
        self.keep_message(peer_id, message, id, timestamp, expiry, delivery);
        Ok(())
    }
    /// Handles a progress message.
    fn receive_file_progress(&mut self, message: ProtocolMessage, now: u64) -> (r: Result<(), ProtocolError>)
        requires
            old(self).wf(),
            message is FileProgress,
        ensures
            final(self).wf(),
            progress_handled(old(self)@, final(self)@, r, message, now),
    {
        let ghost pre = self@;
        let ghost stored = self.file_transfers@;
        match message {
            ProtocolMessage::FileProgress { file_id, total_chunks, received_chunks, timestamp, expiry, ephemeral_id } => {
                if is_expired_at(now, timestamp, expiry) {
                    return Ok(());
                }
                match self.file_transfers.remove(file_id.as_str()) {
                    None => {
                        assert(self@.file_transfers =~= pre.file_transfers);
                    },
                    Some(mut t) => {
                        assert(stored[file_id@].wf());
                        t.received_chunks.extend(&received_chunks);
                        t.last_update = timestamp;
                        t.is_complete = t.received_chunks.len() as u64 == total_chunks as u64;
                        let echo = ProtocolMessage::FileProgress {
                            file_id: file_id.clone(),
                            total_chunks,
                            received_chunks: t.received_chunks.copy(),
                            timestamp,
                            expiry,
                            ephemeral_id: self.generate_ephemeral_id(),
                        };
                        let ghost fid = file_id@;
                        let ghost o = Outbound::Local(echo);
                        let ghost tv = t@;
                        self.file_transfers.insert(file_id, t);
                assert(self@.file_transfers =~= pre.file_transfers.insert(fid, tv));
                        self.outbox.push(Outbound::Local(echo));
                        proof {
                            assert(self@.outbox.take(pre.outbox.len() as int) =~= pre.outbox);
                            assert(appended(pre, self@) =~= seq![o]);
                        }
                    },
                }
                Ok(())
            },
            _ => Ok(()),
        }
    }

    /// Handles a resume message.
    fn receive_file_resume(&mut self, peer_id: String, message: ProtocolMessage, now: u64) -> (r: Result<(), ProtocolError>)
        requires
            old(self).wf(),
            message is FileResume,
        ensures
            final(self).wf(),
            resume_handled(old(self)@, final(self)@, r, peer_id@, message, now),
    {
        let ghost pre = self@;
        let ghost stored = self.file_transfers@;
        match message {
            ProtocolMessage::FileResume { file_id, timestamp, expiry, .. } => {
                if is_expired_at(now, timestamp, expiry) {
                    return Ok(());
                }
                match self.file_transfers.remove(file_id.as_str()) {
                    None => {
                        assert(self@.file_transfers =~= pre.file_transfers);
                    },
                    Some(mut t) => {
                        assert(stored[file_id@].wf());
                        t.resume_point = timestamp;
                        t.error_count = 0;
                        t.last_error = None;
                        self.transfer_queue.add_transfer(file_id.clone());
                        let wanted = resume_chunk_list(timestamp, t.total_chunks, &t.received_chunks);
                        let ghost fid = file_id@;
                        let ghost tv = t@;
                        self.file_transfers.insert(file_id.clone(), t);
                        assert(self@.file_transfers =~= pre.file_transfers.insert(fid, tv));
                        assert(self@.outbox.take(pre.outbox.len() as int) =~= pre.outbox);
                        if wanted.len() > 0 {
                            let request = ProtocolMessage::FileChunkRequest {
                                file_id,
                                chunk_indices: wanted,
                                timestamp,
                                expiry,
                                ephemeral_id: self.generate_ephemeral_id(),
                            };
                            let ghost o = Outbound::Peer(peer_id, request);
                            self.outbox.push(Outbound::Peer(peer_id, request));
                            proof {
                                assert(self@.outbox.take(pre.outbox.len() as int) =~= pre.outbox);
                                assert(appended(pre, self@) =~= seq![o]);
                            }
                        } else {
                            assert(appended(pre, self@) =~= Seq::<Outbound>::empty());
                        }
                    },
                }
                Ok(())
            },
            _ => Ok(()),
        }
    }

    /// Handles a chunk request.
    fn receive_chunk_request(&mut self, peer_id: String, message: ProtocolMessage, now_secs: u64, now_ms: u64) -> (r: Result<(), ProtocolError>)
        requires
            old(self).wf(),
            message is FileChunkRequest,
        ensures
            final(self).wf(),
            chunk_request_handled(old(self)@, final(self)@, r, peer_id@, message, now_secs, now_ms),
    {
        let ghost pre = self@;
        match message {
            ProtocolMessage::FileChunkRequest { file_id, chunk_indices, timestamp, expiry, .. } => {
                if is_expired_at(now_secs, timestamp, expiry) {
                    return Ok(());
                }
                let ghost fid = file_id@;
                let allowed = self.rate_limiter.can_send_chunks_at(file_id.as_str(), now_ms);
                proof {
                    assert(allowed == admitted(pre, fid, now_ms));
                    assert(self@.rate_limits =~= limit_checked(pre, fid, now_ms).rate_limits);
                }
                let ghost limited = self@;
                assert(limited == limit_checked(pre, fid, now_ms));
                if !allowed {
                    let notice = ProtocolMessage::RateLimitExceeded {
                        file_id,
                        timestamp,
                        expiry,
                        ephemeral_id: self.generate_ephemeral_id(),
                    };
                    let ghost o = Outbound::Local(notice);
                    self.outbox.push(Outbound::Local(notice));
                    proof {
                        assert(self@.outbox.take(pre.outbox.len() as int) =~= pre.outbox);
                        assert(appended(pre, self@) =~= seq![o]);
                    }
                    return Ok(());
                }
                let ghost stored = self.file_transfers@;
                match self.file_transfers.remove(file_id.as_str()) {
                    None => {
                        assert(self@.file_transfers =~= limited.file_transfers);
                    },
                    Some(mut t) => {
                        assert(stored[fid].wf());
                        add_requested(&mut t, &chunk_indices);
                        self.file_transfers.insert(file_id.clone(), t);
                        let ghost added = self@;
                        assert(added =~= requested_chunks_added(limited, fid, chunk_indices@));
                        self.process_pending_chunks_at(file_id, peer_id, now_secs, now_ms);
                    },
                }
                Ok(())
            },
            _ => Ok(()),
        }
    }

    /// Handles a chunk response.
    fn receive_chunk_response(&mut self, message: ProtocolMessage, now: u64) -> (r: Result<(), ProtocolError>)
        requires
            old(self).wf(),
            message is FileChunkResponse,
        ensures
            final(self).wf(),
            response_handled(old(self)@, final(self)@, r, message, now),
    {
        let ghost pre = self@;
        let ghost stored = self.file_transfers@;
        match message {
            ProtocolMessage::FileChunkResponse { file_id, chunks, timestamp, expiry, .. } => {
                if is_expired_at(now, timestamp, expiry) {
                    return Ok(());
                }
                match self.file_transfers.remove(file_id.as_str()) {
                    None => {
                        assert(self@.file_transfers =~= pre.file_transfers);
                    },
                    Some(mut t) => {
                        assert(stored[file_id@].wf());
                        apply_arrivals(&mut t, &chunks, timestamp);
                        let done = t.received_chunks.len() as u64 == t.total_chunks as u64;
                        if done {
                            t.is_complete = true;
                        }
                        let ghost fid = file_id@;
                        let ghost tv = t@;
                        assert(tv == chunks_arrived(stored[fid]@, response_indices(chunks@), timestamp));
                        self.file_transfers.insert(file_id.clone(), t);
                assert(self@.file_transfers =~= pre.file_transfers.insert(fid, tv));
                        assert(self@.outbox.take(pre.outbox.len() as int) =~= pre.outbox);
                        if done {
                            let notice = self.fresh_control(ControlCommand::FileComplete(file_id));
                            let ghost o = Outbound::Local(notice);
                            self.outbox.push(Outbound::Local(notice));
                            proof {
                                assert(self@.outbox.take(pre.outbox.len() as int) =~= pre.outbox);
                                assert(appended(pre, self@) =~= seq![o]);
                            }
                        } else {
                            assert(appended(pre, self@) =~= Seq::<Outbound>::empty());
                        }
                    },
                }
                Ok(())
            },
            _ => Ok(()),
        }
    }
    /// Handles a cancellation.
    fn receive_cancel(&mut self, message: ProtocolMessage, now: u64) -> (r: Result<(), ProtocolError>)
        requires
            old(self).wf(),
            message is FileTransferCancel,
        ensures
            final(self).wf(),
            cancel_handled(old(self)@, final(self)@, r, message, now),
    {
        let ghost pre = self@;
        match message {
            ProtocolMessage::FileTransferCancel { file_id, reason, timestamp, expiry, .. } => {
                if is_expired_at(now, timestamp, expiry) {
                    return Ok(());
                }
                let ghost fid = file_id@;
                let mut t = self.take_transfer(&file_id, timestamp);
                let ghost taken = self@;
                t.is_cancelled = true;
                let ghost tv = t@;
                self.file_transfers.insert(file_id.clone(), t);
                assert(self@.file_transfers =~= taken.file_transfers.insert(fid, tv));
                assert(self@.file_transfers =~= pre.file_transfers.insert(fid, tv));
                self.bandwidth_manager.release_bandwidth(file_id.as_str());
                self.drop_priorities(file_id.as_str());
                let notice = self.fresh_control(ControlCommand::FileFailed(file_id, reason));
                let ghost o = Outbound::Local(notice);
                self.outbox.push(Outbound::Local(notice));
                proof {
                    assert(self@.allocations =~= pre.allocations.remove(fid));
                    assert(self@.outbox.take(pre.outbox.len() as int) =~= pre.outbox);
                    assert(appended(pre, self@) =~= seq![o]);
                }
                Ok(())
            },
            _ => Ok(()),
        }
    }

    /// Handles a priority message.
    fn receive_priority(&mut self, message: ProtocolMessage, now: u64) -> (r: Result<(), ProtocolError>)
        requires
            old(self).wf(),
            message is FileTransferPriority,
        ensures
            final(self).wf(),
            priority_handled(old(self)@, final(self)@, r, message, now),
    {
        let ghost pre = self@;
        match message {
            ProtocolMessage::FileTransferPriority { file_id, priority, timestamp, expiry, .. } => {
                if is_expired_at(now, timestamp, expiry) {
                    return Ok(());
                }
                let ghost fid = file_id@;
                let mut t = self.take_transfer(&file_id, timestamp);
                let ghost taken = self@;
                t.priority = priority;
                let start = t.start_time;
                let ghost tv = t@;
                self.file_transfers.insert(file_id.clone(), t);
                assert(self@.file_transfers =~= taken.file_transfers.insert(fid, tv));
                assert(self@.file_transfers =~= pre.file_transfers.insert(fid, tv));
                self.transfer_priorities.push(FileTransferPriority { priority, start_time: start, file_id });
                assert(self@.transfer_priorities =~= pre.transfer_priorities.push(
                    PriorityState { priority, start_time: start, file_id: fid },
                ));
                Ok(())
            },
            _ => Ok(()),
        }
    }

    /// Handles a bandwidth message.
    fn receive_bandwidth(&mut self, message: ProtocolMessage, now_secs: u64, now_ms: u64) -> (r: Result<(), ProtocolError>)
        requires
            old(self).wf(),
            message is FileTransferBandwidth,
        ensures
            final(self).wf(),
            bandwidth_handled(old(self)@, final(self)@, r, message, now_secs, now_ms),
    {
        let ghost pre = self@;
        match message {
            ProtocolMessage::FileTransferBandwidth { file_id, bandwidth_limit, timestamp, expiry, .. } => {
                if is_expired_at(now_secs, timestamp, expiry) {
                    return Ok(());
                }
                let ghost fid = file_id@;
                let t = self.take_transfer(&file_id, timestamp);
                let ghost taken = self@;
                let ghost tv = t@;
                self.file_transfers.insert(file_id.clone(), t);
                assert(self@.file_transfers =~= taken.file_transfers.insert(fid, tv));
                assert(self@.file_transfers =~= pre.file_transfers.insert(fid, tv));
                let ghost registered = self@;
                assert(registered =~= (HandlerState { file_transfers: pre.file_transfers.insert(fid, tv), ..pre }));
                self.apply_target_bandwidth(file_id, bandwidth_limit, now_ms);
                Ok(())
            },
            _ => Ok(()),
        }
    }

    /// Handles a transfer progress message.
    fn receive_transfer_progress(&mut self, message: ProtocolMessage, now: u64) -> (r: Result<(), ProtocolError>)
        requires
            old(self).wf(),
            message is FileTransferProgress,
        ensures
            final(self).wf(),
            transfer_progress_handled(old(self)@, final(self)@, r, message, now),
    {
        let ghost pre = self@;
        match message {
            ProtocolMessage::FileTransferProgress { file_id, bytes_transferred, speed, timestamp, expiry, .. } => {
                if is_expired_at(now, timestamp, expiry) {
                    return Ok(());
                }
                let ghost fid = file_id@;
                let mut t = self.take_transfer(&file_id, timestamp);
                let ghost taken = self@;
                t.bytes_transferred = bytes_transferred;
                t.speed = speed;
                t.last_progress_update = timestamp;
                let ghost tv = t@;
                self.file_transfers.insert(file_id, t);
                assert(self@.file_transfers =~= taken.file_transfers.insert(fid, tv));
                assert(self@.file_transfers =~= pre.file_transfers.insert(fid, tv));
                Ok(())
            },
            _ => Ok(()),
        }
    }

    /// Handles a transfer resumption.
    fn receive_transfer_resume(&mut self, message: ProtocolMessage, now: u64) -> (r: Result<(), ProtocolError>)
        requires
            old(self).wf(),
            message is FileTransferResume,
        ensures
            final(self).wf(),
            transfer_resume_handled(old(self)@, final(self)@, r, message, now),
    {
        let ghost pre = self@;
        match message {
            ProtocolMessage::FileTransferResume { file_id, resume_point, timestamp, expiry, .. } => {
                if is_expired_at(now, timestamp, expiry) {
                    return Ok(());
                }
                let ghost fid = file_id@;
                let mut t = self.take_transfer(&file_id, timestamp);
                let ghost taken = self@;
                t.resume_point = resume_point;
                t.error_count = 0;
                t.last_error = None;
                let ghost tv = t@;
                self.file_transfers.insert(file_id.clone(), t);
                assert(self@.file_transfers =~= taken.file_transfers.insert(fid, tv));
                assert(self@.file_transfers =~= pre.file_transfers.insert(fid, tv));
                self.transfer_queue.add_transfer(file_id);
                Ok(())
            },
            _ => Ok(()),
        }
    }

    /// Handles a target speed.
    fn receive_speed_adapt(&mut self, message: ProtocolMessage, now_secs: u64, now_ms: u64) -> (r: Result<(), ProtocolError>)
        requires
            old(self).wf(),
            message is FileTransferSpeedAdapt,
        ensures
            final(self).wf(),
            speed_adapt_handled(old(self)@, final(self)@, r, message, now_secs, now_ms),
    {
        let ghost pre = self@;
        match message {
            ProtocolMessage::FileTransferSpeedAdapt { file_id, target_speed, timestamp, expiry, .. } => {
                if is_expired_at(now_secs, timestamp, expiry) {
                    return Ok(());
                }
                let ghost fid = file_id@;
                let mut t = self.take_transfer(&file_id, timestamp);
                let ghost taken = self@;
                t.target_speed = target_speed;
                t.last_speed_adaptation = timestamp;
                let ghost tv = t@;
                self.file_transfers.insert(file_id.clone(), t);
                assert(self@.file_transfers =~= taken.file_transfers.insert(fid, tv));
                assert(self@.file_transfers =~= pre.file_transfers.insert(fid, tv));
                let ghost o = Outbound::TargetBandwidth { file_id, target_speed, now: now_ms };
                self.outbox.push(Outbound::TargetBandwidth { file_id, target_speed, now: now_ms });
                proof {
                    assert(self@.outbox.take(pre.outbox.len() as int) =~= pre.outbox);
                    assert(appended(pre, self@) =~= seq![o]);
                }
                Ok(())
            },
            _ => Ok(()),
        }
    }

    /// Handles a queue position message.
    fn receive_queue_update(&mut self, message: ProtocolMessage, now: u64) -> (r: Result<(), ProtocolError>)
        requires
            old(self).wf(),
            message is FileTransferQueueUpdate,
        ensures
            final(self).wf(),
            queue_update_handled(old(self)@, final(self)@, r, message, now),
    {
        let ghost pre = self@;
        match message {
            ProtocolMessage::FileTransferQueueUpdate { file_id, queue_position, timestamp, expiry, .. } => {
                if is_expired_at(now, timestamp, expiry) {
                    return Ok(());
                }
                let echo = ProtocolMessage::FileTransferQueueUpdate {
                    file_id,
                    queue_position,
                    timestamp,
                    expiry,
                    ephemeral_id: self.generate_ephemeral_id(),
                };
                let ghost o = Outbound::Local(echo);
                self.outbox.push(Outbound::Local(echo));
                proof {
                    assert(self@.outbox.take(pre.outbox.len() as int) =~= pre.outbox);
                    assert(appended(pre, self@) =~= seq![o]);
                }
                Ok(())
            },
            _ => Ok(()),
        }
    }

    /// Handles an error report.
    fn receive_error(&mut self, message: ProtocolMessage, now: u64) -> (r: Result<(), ProtocolError>)
        requires
            old(self).wf(),
            message is FileTransferError,
            handleable(message),
        ensures
            final(self).wf(),
            error_handled(old(self)@, final(self)@, r, message, now),
    {
        let ghost pre = self@;
        match message {
            ProtocolMessage::FileTransferError { file_id, error_type, retry_count, timestamp, expiry, .. } => {
                if is_expired_at(now, timestamp, expiry) {
                    return Ok(());
                }
                let ghost fid = file_id@;
                let mut t = self.take_transfer(&file_id, timestamp);
                let ghost taken = self@;
                t.error_count = retry_count;
                t.last_error = Some(error_type.clone());
                let bytes = t.bytes_transferred;
                let ghost tv = t@;
                self.file_transfers.insert(file_id.clone(), t);
                assert(self@.file_transfers =~= taken.file_transfers.insert(fid, tv));
                assert(self@.file_transfers =~= pre.file_transfers.insert(fid, tv));
                let ghost recorded_error = self@;
                if retry_count >= MAX_ERROR_RETRIES {
                    let mut reason = ERROR_RETRIES_PREFIX.to_owned();
                    reason.append(error_type.as_str());
                    self.handle_file_failure(file_id, reason);
                    proof {
                        assert(self@.outbox.take(pre.outbox.len() as int) =~= pre.outbox);
                        assert(appended(pre, self@) =~= appended(recorded_error, self@));
                    }
                } else {
                    let retry = ProtocolMessage::FileTransferResume {
                        file_id,
                        resume_point: bytes,
                        timestamp: timestamp + ERROR_RECOVERY_DELAY_SECS,
                        expiry,
                        ephemeral_id: self.generate_ephemeral_id(),
                    };
                    let ghost o = Outbound::Local(retry);
                    self.outbox.push(Outbound::Local(retry));
                    proof {
                        assert(self@.outbox.take(pre.outbox.len() as int) =~= pre.outbox);
                        assert(appended(pre, self@) =~= seq![o]);
                    }
                }
                Ok(())
            },
            _ => Ok(()),
        }
    }

    /// Handles the message `message`, `encoded_len` bytes long as received,
    /// from `peer_id` at `now_secs` (seconds) and `now_ms` (milliseconds).
    /// A message longer than `MAX_MESSAGE_SIZE` is refused.
    pub fn handle_message_at(
        &mut self,
        peer_id: String,
        message: ProtocolMessage,
        encoded_len: usize,
        now_secs: u64,
        now_ms: u64,
    ) -> (r: Result<(), ProtocolError>)
        requires
            old(self).wf(),
            handleable(message),
        ensures
            final(self).wf(),
            message_handled(old(self)@, final(self)@, r, peer_id@, message, encoded_len, now_secs, now_ms),
    {
        if encoded_len > MAX_MESSAGE_SIZE {
            return Err(ProtocolError::MessageTooLarge);
        }
        match message {
            ProtocolMessage::Text { .. } => self.receive_text(peer_id, message, now_secs),
            ProtocolMessage::Group { .. } => self.receive_group(peer_id, message, now_secs),
            ProtocolMessage::File { .. } => self.receive_file(peer_id, message, now_secs),
            ProtocolMessage::FileProgress { .. } => self.receive_file_progress(message, now_secs),
            ProtocolMessage::FileResume { .. } => self.receive_file_resume(peer_id, message, now_secs),
            ProtocolMessage::Control { command, data, ephemeral_id } => self.handle_control_message_at(
                peer_id,
                command,
                data,
                ephemeral_id,
                now_secs,
            ),
            ProtocolMessage::FileChunkRequest { .. } => self.receive_chunk_request(
                peer_id,
                message,
                now_secs,
                now_ms,
            ),
            ProtocolMessage::FileChunkResponse { .. } => self.receive_chunk_response(message, now_secs),
            ProtocolMessage::RateLimitExceeded { .. } => Ok(()),
            ProtocolMessage::FileTransferCancel { .. } => self.receive_cancel(message, now_secs),
            ProtocolMessage::FileTransferPriority { .. } => self.receive_priority(message, now_secs),
            ProtocolMessage::FileTransferBandwidth { .. } => self.receive_bandwidth(message, now_secs, now_ms),
            ProtocolMessage::FileTransferProgress { .. } => self.receive_transfer_progress(message, now_secs),
            ProtocolMessage::FileTransferResume { .. } => self.receive_transfer_resume(message, now_secs),
            ProtocolMessage::FileTransferSpeedAdapt { .. } => self.receive_speed_adapt(message, now_secs, now_ms),
            ProtocolMessage::FileTransferQueueUpdate { .. } => self.receive_queue_update(message, now_secs),
            ProtocolMessage::FileTransferError { .. } => self.receive_error(message, now_secs),
        }
    }
}

impl ProtocolHandler {
    /// `handle_message_at` at the current time.
    pub fn handle_message(&mut self, peer_id: String, message: ProtocolMessage, encoded_len: usize) -> (r: Result<
        (),
        ProtocolError,
    >)
        requires
            old(self).wf(),
            handleable(message),
        ensures
            final(self).wf(),
            exists|now_secs: u64, now_ms: u64|
                #[trigger] message_handled(old(self)@, final(self)@, r, peer_id@, message, encoded_len, now_secs, now_ms),
    {
        let now_secs = now_secs();
        let now_ms = now_millis();
        self.handle_message_at(peer_id, message, encoded_len, now_secs, now_ms)
    }

    /// `handle_control_message_at` at the current time.
    pub fn handle_control_message(&mut self, peer_id: String, command: ControlCommand, data: Vec<u8>, ephemeral_id: String) -> (r: Result<
        (),
        ProtocolError,
    >)
        requires
            old(self).wf(),
        ensures
            final(self).wf(),
            exists|now: u64| #[trigger] control_handled(old(self)@, final(self)@, r, peer_id@, command@, now),
    {
        let now = now_secs();
        self.handle_control_message_at(peer_id, command, data, ephemeral_id, now)
    }

    /// `handle_group_join_at` at the current time.
    pub fn handle_group_join(&mut self, peer_id: String, group_id: String) -> (r: Result<(), ProtocolError>)
        requires
            old(self).wf(),
        ensures
            final(self).wf(),
            exists|now: u64| #[trigger] join_done(old(self)@, final(self)@, r, peer_id@, group_id@, now),
    {
        let now = now_secs();
        let ghost pre = self@;
        let ghost peer = peer_id@;
        let ghost group = group_id@;
        let r = self.handle_group_join_at(peer_id, group_id, now);
        assert(join_done(pre, self@, r, peer, group, now));
        r
    }

    /// `handle_group_leave_at` at the current time.
    pub fn handle_group_leave(&mut self, peer_id: String, group_id: String)
        requires
            old(self).wf(),
        ensures
            final(self).wf(),
            leave_notice(old(self)@, peer_id@, group_id@, appended(old(self)@, final(self)@)),
            exists|now: u64| #[trigger] evolves(left(old(self)@, peer_id@, group_id@, now), final(self)@),
    {
        let now = now_secs();
        self.handle_group_leave_at(peer_id, group_id, now)
    }

    /// `handle_group_message_received_at` at the current time.
    pub fn handle_group_message_received(&mut self, group_id: String, message_id: String)
        requires
            old(self).wf(),
        ensures
            final(self).wf(),
            exists|now: u64| final(self)@ == #[trigger] group_touched(old(self)@, group_id@, now),
    {
        let now = now_secs();
        self.handle_group_message_received_at(group_id, message_id, now)
    }

    /// `handle_chunk_received_at` at the current time.
    pub fn handle_chunk_received(&mut self, file_id: String, chunk_index: u32)
        requires
            old(self).wf(),
        ensures
            final(self).wf(),
            chunk_notice(old(self)@, file_id@, chunk_index, appended(old(self)@, final(self)@)),
            exists|now: u64| #[trigger] evolves(chunk_received(old(self)@, file_id@, chunk_index, now), final(self)@),
    {
        let now = now_secs();
        self.handle_chunk_received_at(file_id, chunk_index, now)
    }

    /// `process_pending_chunks_at` at the current time.
    pub fn process_pending_chunks(&mut self, file_id: String, peer_id: String)
        requires
            old(self).wf(),
        ensures
            final(self).wf(),
            exists|now_secs: u64, now_ms: u64|
                #[trigger] chunk_reports(old(self)@, file_id@, peer_id@, now_secs, now_ms, appended(old(self)@, final(self)@))
                    && evolves(chunks_requested(old(self)@, file_id@, now_ms), final(self)@),
    {
        let now_secs = now_secs();
        let now_ms = now_millis();
        self.process_pending_chunks_at(file_id, peer_id, now_secs, now_ms)
    }

    /// `process_transfer_queue_at` at the current time.
    pub fn process_transfer_queue(&mut self)
        requires
            old(self).wf(),
        ensures
            final(self).wf(),
            exists|now_secs: u64, now_ms: u64|
                #[trigger] queue_reports(old(self)@, now_secs, now_ms, appended(old(self)@, final(self)@))
                    && evolves(queue_checked(old(self)@, now_ms), final(self)@),
    {
        let now_secs = now_secs();
        let now_ms = now_millis();
        self.process_transfer_queue_at(now_secs, now_ms)
    }

    /// `cleanup_expired_messages_at` at the current time.
    pub fn cleanup_expired_messages(&mut self)
        requires
            old(self).wf(),
        ensures
            final(self).wf(),
            exists|now_secs: u64, now_ms: u64| final(self)@ == #[trigger] cleaned(old(self)@, now_secs, now_ms),
    {
        let now_secs = now_secs();
        let now_ms = now_millis();
        self.cleanup_expired_messages_at(now_secs, now_ms)
    }

    /// Whether a message stamped `timestamp` with `expiry` seconds to live has
    /// expired at the current time.
    pub fn is_message_expired(&self, timestamp: u64, expiry: u64) -> (b: bool)
        ensures
            exists|now: u64| b == #[trigger] expired(now, timestamp, expiry),
    {
        let now = now_secs();
        is_expired_at(now, timestamp, expiry)
    }
}

} // verus!
