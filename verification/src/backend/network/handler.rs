//! The operations of the protocol handler: message tracking, delivery
//! confirmations, groups, file transfers and the dispatch of received
//! messages.
//!
//! Each operation is specified by the state it leaves behind, given by a spec
//! function of the state before and the arguments, and by what it appends to
//! the outbox.  Appended messages carry fresh random ephemeral ids, so the
//! outbox is described by predicates rather than by value.
use crate::backend::network::protocol::{
    allocations_after, broadcast_to, is_control, is_control_with_id, is_ephemeral_id,
    is_local_control, is_peer_control, CommandView, ControlCommand, DeliveryInfo, GroupInfo,
    GroupState, HandlerState, MessageInfo, Outbound, ProtocolError, ProtocolHandler,
    ProtocolMessage, TransferState, FileTransferInfo, grant_in, CHUNK_SIZE,
    MAX_BANDWIDTH_BYTES_PER_SEC, MAX_CHUNK_RETRIES, MAX_GROUP_SIZE, MAX_PARALLEL_CHUNKS,
    MESSAGE_EXPIRY_SECONDS, MIN_BANDWIDTH_BYTES_PER_SEC, PROGRESS_UPDATE_INTERVAL_MS,
    SPEED_ADAPTATION_INTERVAL_MS, QUEUE_CHECK_INTERVAL_MS, MAX_ERROR_RETRIES, RATE_LIMIT_WINDOW_MS,
    expired, recent, PriorityState, FileTransferPriority, MAX_MESSAGE_SIZE,
};
use crate::collections::{lemma_filter_all, lemma_filter_filter, ChunkSet, StrMap, StrSet};
use vstd::prelude::*;

verus! {

/// Where a notice about an expired message goes.
pub const EXPIRY_NOTICE_RECIPIENT: &'static str = "sender";

/// The peer asked for the chunks of a transfer taken from the queue.
pub const QUEUED_TRANSFER_PEER: &'static str = "peer";

/// Why a transfer fails after too many missing chunks.
pub const MAX_RETRIES_REASON: &'static str = "Max retries exceeded";

/// The views of a sequence of strings.
pub open spec fn strs(v: Seq<String>) -> Seq<Seq<char>> {
    v.map_values(|s: String| s@)
}

/// `post` is `s` with entries appended to its outbox and nothing else changed.
pub open spec fn evolves(s: HandlerState, post: HandlerState) -> bool {
    &&& post == HandlerState { outbox: post.outbox, ..s }
    &&& s.outbox.len() <= post.outbox.len()
    &&& post.outbox.take(s.outbox.len() as int) == s.outbox
}

/// The entries appended to the outbox from `pre` to `post`.
pub open spec fn appended(pre: HandlerState, post: HandlerState) -> Seq<Outbound> {
    post.outbox.skip(pre.outbox.len() as int)
}

/// The state after a message is recorded, with its delivery awaiting
/// confirmation when it asks for one.
pub open spec fn recorded(
    s: HandlerState,
    id: String,
    timestamp: u64,
    expiry: u64,
    delivery_id: Option<String>,
) -> HandlerState {
    HandlerState {
        message_tracker: s.message_tracker.insert(
            id@,
            MessageInfo { timestamp, expiry, is_viewed: false, delivery_id },
        ),
        delivery_tracker: match delivery_id {
            Some(d) => s.delivery_tracker.insert(
                d@,
                DeliveryInfo { message_id: id, timestamp, is_confirmed: false, retry_count: 0 },
            ),
            None => s.delivery_tracker,
        },
        ..s
    }
}

/// The state after the delivery `d` was confirmed.
pub open spec fn delivery_confirmed(s: HandlerState, d: Seq<char>) -> HandlerState {
    HandlerState { delivery_tracker: s.delivery_tracker.remove(d), ..s }
}

/// The state after the delivery `d` failed once more: it is dropped at its
/// third failure.
pub open spec fn delivery_failed(s: HandlerState, d: Seq<char>) -> HandlerState {
    if s.delivery_tracker.contains_key(d) {
        let info = s.delivery_tracker[d];
        if info.retry_count + 1 >= 3 {
            HandlerState { delivery_tracker: s.delivery_tracker.remove(d), ..s }
        } else {
            HandlerState {
                delivery_tracker: s.delivery_tracker.insert(
                    d,
                    DeliveryInfo { retry_count: (info.retry_count + 1) as u32, ..info },
                ),
                ..s
            }
        }
    } else {
        s
    }
}

/// The state after the message `id` is forgotten.
pub open spec fn message_forgotten(s: HandlerState, id: Seq<char>) -> HandlerState {
    HandlerState { message_tracker: s.message_tracker.remove(id), ..s }
}

/// The state after the message `id` was viewed.
pub open spec fn message_viewed(s: HandlerState, id: Seq<char>) -> HandlerState {
    if s.message_tracker.contains_key(id) {
        HandlerState {
            message_tracker: s.message_tracker.insert(
                id,
                MessageInfo { is_viewed: true, ..s.message_tracker[id] },
            ),
            ..s
        }
    } else {
        s
    }
}

/// `out` notifies every member of group `g`, in order, with command `cmd`;
/// nothing when there is no such group.
pub open spec fn group_notice(s: HandlerState, g: Seq<char>, cmd: CommandView, out: Seq<Outbound>) -> bool {
    if s.group_members.contains_key(g) {
        broadcast_to(out, s.group_members[g].members, cmd)
    } else {
        out.len() == 0
    }
}

/// The group `g` has reached its size limit.
pub open spec fn group_full(s: HandlerState, g: Seq<char>) -> bool {
    s.group_members.contains_key(g) && s.group_members[g].members.len() >= MAX_GROUP_SIZE
}

/// The group `g`, or a new empty one created at `now` with ephemeral id `eph`.
pub open spec fn group_or_new(s: HandlerState, g: Seq<char>, now: u64, eph: Seq<char>) -> GroupState {
    if s.group_members.contains_key(g) {
        s.group_members[g]
    } else {
        GroupState { members: Seq::empty(), created_at: now, last_activity: now, ephemeral_id: eph }
    }
}

/// The members with `peer` added at the end unless already there.
pub open spec fn with_member(members: Seq<Seq<char>>, peer: Seq<char>) -> Seq<Seq<char>> {
    if members.contains(peer) {
        members
    } else {
        members.push(peer)
    }
}

/// The members other than `peer`, in order.
pub open spec fn others(members: Seq<Seq<char>>, peer: Seq<char>) -> Seq<Seq<char>> {
    members.filter(|m: Seq<char>| m != peer)
}

/// The state after `peer` joined group `g` at `now`; a new group gets the
/// ephemeral id `eph`.
pub open spec fn joined(s: HandlerState, peer: Seq<char>, g: Seq<char>, now: u64, eph: Seq<char>) -> HandlerState {
    let grp = group_or_new(s, g, now, eph);
    HandlerState {
        group_members: s.group_members.insert(
            g,
            GroupState { members: with_member(grp.members, peer), last_activity: now, ..grp },
        ),
        ..s
    }
}

/// The members to tell that `peer` joined group `g`.
pub open spec fn join_recipients(s: HandlerState, peer: Seq<char>, g: Seq<char>, now: u64, eph: Seq<char>) -> Seq<Seq<char>> {
    others(with_member(group_or_new(s, g, now, eph).members, peer), peer)
}

/// The state after `peer` left group `g` at `now`; a group left empty is dropped.
pub open spec fn left(s: HandlerState, peer: Seq<char>, g: Seq<char>, now: u64) -> HandlerState {
    if s.group_members.contains_key(g) {
        let grp = s.group_members[g];
        let rest = others(grp.members, peer);
        HandlerState {
            group_members: if rest.len() == 0 {
                s.group_members.remove(g)
            } else {
                s.group_members.insert(g, GroupState { members: rest, last_activity: now, ..grp })
            },
            ..s
        }
    } else {
        s
    }
}

/// `out` tells the members that remain in group `g` that `peer` left.
pub open spec fn leave_notice(s: HandlerState, peer: Seq<char>, g: Seq<char>, out: Seq<Outbound>) -> bool {
    if s.group_members.contains_key(g) {
        broadcast_to(out, others(s.group_members[g].members, peer), CommandView::GroupLeave(g))
    } else {
        out.len() == 0
    }
}

/// The state after activity in group `g` at `now`.
pub open spec fn group_touched(s: HandlerState, g: Seq<char>, now: u64) -> HandlerState {
    if s.group_members.contains_key(g) {
        HandlerState {
            group_members: s.group_members.insert(
                g,
                GroupState { last_activity: now, ..s.group_members[g] },
            ),
            ..s
        }
    } else {
        s
    }
}

/// The state after the transfer `f` is dropped.
pub open spec fn transfer_dropped(s: HandlerState, f: Seq<char>) -> HandlerState {
    HandlerState { file_transfers: s.file_transfers.remove(f), ..s }
}

/// Receiving chunk `c` completes the transfer `f`.
pub open spec fn completes(s: HandlerState, f: Seq<char>, c: u32) -> bool {
    s.file_transfers.contains_key(f) && s.file_transfers[f].received_chunks.insert(c).len()
        == s.file_transfers[f].total_chunks
}

/// The state after chunk `c` of transfer `f` arrived at `now`.
pub open spec fn chunk_received(s: HandlerState, f: Seq<char>, c: u32, now: u64) -> HandlerState {
    if s.file_transfers.contains_key(f) {
        let t = s.file_transfers[f];
        HandlerState {
            file_transfers: s.file_transfers.insert(
                f,
                TransferState {
                    received_chunks: t.received_chunks.insert(c),
                    last_update: now,
                    is_complete: t.is_complete || completes(s, f, c),
                    ..t
                },
            ),
            ..s
        }
    } else {
        s
    }
}

/// One more missing chunk exhausts the retries of transfer `f`.
pub open spec fn retries_exhausted(s: HandlerState, f: Seq<char>) -> bool {
    s.file_transfers.contains_key(f) && s.file_transfers[f].retry_count + 1 > MAX_CHUNK_RETRIES
}

/// The state after a chunk of transfer `f` was reported missing: the
/// transfer is dropped once its retries are exhausted.
pub open spec fn chunk_missing(s: HandlerState, f: Seq<char>) -> HandlerState {
    if !s.file_transfers.contains_key(f) {
        s
    } else if retries_exhausted(s, f) {
        transfer_dropped(s, f)
    } else {
        let t = s.file_transfers[f];
        HandlerState {
            file_transfers: s.file_transfers.insert(
                f,
                TransferState { retry_count: (t.retry_count + 1) as u32, ..t },
            ),
            ..s
        }
    }
}

/// `b` brought into the range the speed adaptation allows.
pub open spec fn clamp_bandwidth(b: u64) -> u64 {
    if b < MIN_BANDWIDTH_BYTES_PER_SEC {
        MIN_BANDWIDTH_BYTES_PER_SEC
    } else if b > MAX_BANDWIDTH_BYTES_PER_SEC {
        MAX_BANDWIDTH_BYTES_PER_SEC
    } else {
        b
    }
}

/// The state after transfer `f` was given the bandwidth limit `b` at `now`
/// and asked the bandwidth manager for it.
pub open spec fn bandwidth_set(s: HandlerState, f: Seq<char>, b: u64, now: u64) -> HandlerState {
    if s.file_transfers.contains_key(f) {
        HandlerState {
            file_transfers: s.file_transfers.insert(
                f,
                TransferState { bandwidth_limit: b, ..s.file_transfers[f] },
            ),
            allocations: allocations_after(s.allocations, MAX_BANDWIDTH_BYTES_PER_SEC, f, b, now),
            ..s
        }
    } else {
        s
    }
}

/// The state after a speed adaptation of transfer `f` to bandwidth `b` at `now`.
pub open spec fn speed_adapted(s: HandlerState, f: Seq<char>, b: u64, now: u64) -> HandlerState {
    let t = bandwidth_set(s, f, clamp_bandwidth(b), now);
    if s.file_transfers.contains_key(f) {
        HandlerState {
            file_transfers: t.file_transfers.insert(
                f,
                TransferState { last_speed_adaptation: now, ..t.file_transfers[f] },
            ),
            ..t
        }
    } else {
        s
    }
}

/// The bandwidth a transfer asks for: its limit, or all of it when it has none.
pub open spec fn request_for(t: TransferState) -> u64 {
    if t.bandwidth_limit == 0 {
        MAX_BANDWIDTH_BYTES_PER_SEC
    } else {
        t.bandwidth_limit
    }
}

/// The chunks one round of requests picks from `pending`, in order: chunks
/// before the resume point are passed over, picking stops once no slot is
/// left or the granted `budget` (bytes) is spent, and chunks already in
/// flight are passed over.
pub open spec fn select_from(pending: Seq<u32>, active: Set<u32>, resume: u64, slots: int, budget: int) -> Seq<u32>
    decreases pending.len(),
{
    if pending.len() == 0 {
        Seq::empty()
    } else {
        let c = pending[0];
        let rest = pending.drop_first();
        if c < resume {
            select_from(rest, active, resume, slots, budget)
        } else if slots <= 0 || budget <= 0 {
            Seq::empty()
        } else if active.contains(c) {
            select_from(rest, active, resume, slots, budget)
        } else {
            seq![c] + select_from(rest, active, resume, slots - 1, budget - CHUNK_SIZE)
        }
    }
}

/// A round picks no more chunks than there are slots.
pub proof fn lemma_select_len(pending: Seq<u32>, active: Set<u32>, resume: u64, slots: int, budget: int)
    requires
        slots >= 0,
    ensures
        select_from(pending, active, resume, slots, budget).len() <= slots,
    decreases pending.len(),
{
    if pending.len() > 0 {
        let c = pending[0];
        let rest = pending.drop_first();
        if c < resume || active.contains(c) {
            lemma_select_len(rest, active, resume, slots, budget);
        } else if slots > 0 && budget > 0 {
            lemma_select_len(rest, active, resume, slots - 1, budget - CHUNK_SIZE);
        }
    }
}

/// Transfer `f` exists and was not cancelled.
pub open spec fn transfer_runs(s: HandlerState, f: Seq<char>) -> bool {
    s.file_transfers.contains_key(f) && !s.file_transfers[f].is_cancelled
}

/// The bandwidth granted to transfer `f` at `now` (ms).
pub open spec fn granted(s: HandlerState, f: Seq<char>, now: u64) -> int {
    grant_in(s.allocations, MAX_BANDWIDTH_BYTES_PER_SEC, request_for(s.file_transfers[f]), now)
}

/// The chunks of transfer `f` requested at `now` (ms).
pub open spec fn selection(s: HandlerState, f: Seq<char>, now: u64) -> Seq<u32> {
    let t = s.file_transfers[f];
    select_from(
        t.pending_chunks,
        t.active_chunks,
        t.resume_point,
        MAX_PARALLEL_CHUNKS - t.active_chunks.len(),
        granted(s, f, now),
    )
}

/// The transfer with the `chosen` chunks moved from pending to in flight.
pub open spec fn chunks_moved(t: TransferState, chosen: Seq<u32>) -> TransferState {
    TransferState {
        active_chunks: t.active_chunks.union(chosen.to_set()),
        pending_chunks: t.pending_chunks.filter(|c: u32| !chosen.contains(c)),
        ..t
    }
}

/// The state after a round of chunk requests for transfer `f` at `now` (ms):
/// bandwidth is asked for, and the chunks picked are put in flight.
pub open spec fn chunks_requested(s: HandlerState, f: Seq<char>, now: u64) -> HandlerState {
    if !transfer_runs(s, f) {
        s
    } else {
        let t = s.file_transfers[f];
        let allocations = allocations_after(s.allocations, MAX_BANDWIDTH_BYTES_PER_SEC, f, request_for(t), now);
        if granted(s, f, now) == 0 {
            HandlerState { allocations, ..s }
        } else {
            HandlerState {
                allocations,
                file_transfers: s.file_transfers.insert(f, chunks_moved(t, selection(s, f, now))),
                ..s
            }
        }
    }
}

/// A speed adaptation of transfer `t` is due at `now` (ms).
pub open spec fn adaptation_due(t: TransferState, now: u64) -> bool {
    now - t.last_speed_adaptation >= SPEED_ADAPTATION_INTERVAL_MS
}

/// A progress report on transfer `t` is due at `now` (ms).
pub open spec fn progress_due(t: TransferState, now: u64) -> bool {
    now - t.last_progress_update >= PROGRESS_UPDATE_INTERVAL_MS
}

/// Milliseconds from `start` to `now`, or none when `start` is later.
pub open spec fn elapsed_since(now: u64, start: u64) -> u64 {
    if now >= start {
        (now - start) as u64
    } else {
        0
    }
}

/// `o` asks the caller to adapt the speed of transfer `t`, named `f`, at `now`.
pub open spec fn is_adapt_speed(o: Outbound, f: Seq<char>, t: TransferState, now: u64) -> bool {
    &&& o matches Outbound::AdaptSpeed { file_id, speed, target_speed, bandwidth_limit, now: at }
    &&& o->AdaptSpeed_file_id@ == f
    &&& o->AdaptSpeed_speed == t.speed
    &&& o->AdaptSpeed_target_speed == t.target_speed
    &&& o->AdaptSpeed_bandwidth_limit == t.bandwidth_limit
    &&& o->AdaptSpeed_now == now
}

/// `m` requests the chunks `chunks` of file `f`, stamped `timestamp` and
/// living `expiry` seconds, with a fresh ephemeral id.
pub open spec fn is_chunk_request_message(m: ProtocolMessage, f: Seq<char>, chunks: Seq<u32>, timestamp: u64, expiry: u64) -> bool {
    &&& m matches ProtocolMessage::FileChunkRequest { file_id, chunk_indices, timestamp, expiry, ephemeral_id }
    &&& m->FileChunkRequest_file_id@ == f
    &&& m->FileChunkRequest_chunk_indices@ == chunks
    &&& m->FileChunkRequest_timestamp == timestamp
    &&& m->FileChunkRequest_expiry == expiry
    &&& is_ephemeral_id(m->FileChunkRequest_ephemeral_id@)
}

/// `o` sends `peer` such a request.
pub open spec fn is_chunk_request(o: Outbound, peer: Seq<char>, f: Seq<char>, chunks: Seq<u32>, timestamp: u64, expiry: u64) -> bool {
    o matches Outbound::Peer(p, m) && p@ == peer && is_chunk_request_message(m, f, chunks, timestamp, expiry)
}

/// `o` asks the caller for a progress report on transfer `t`, named `f`, at `now`.
pub open spec fn is_progress_report(o: Outbound, f: Seq<char>, t: TransferState, now: u64) -> bool {
    &&& o matches Outbound::Progress { file_id, bytes_transferred, total_bytes, elapsed_ms, timestamp, expiry, ephemeral_id }
    &&& o->Progress_file_id@ == f
    &&& o->Progress_bytes_transferred == t.bytes_transferred
    &&& o->Progress_total_bytes == t.total_chunks * CHUNK_SIZE
    &&& o->Progress_elapsed_ms == elapsed_since(now, t.start_time)
    &&& o->Progress_timestamp == now
    &&& o->Progress_expiry == MESSAGE_EXPIRY_SECONDS
    &&& is_ephemeral_id(o->Progress_ephemeral_id@)
}

/// What a check for a due speed adaptation of transfer `f` at `now` appends.
pub open spec fn adaptation_notice(s: HandlerState, f: Seq<char>, now: u64, out: Seq<Outbound>) -> bool {
    if s.file_transfers.contains_key(f) && adaptation_due(s.file_transfers[f], now) {
        out.len() == 1 && is_adapt_speed(out[0], f, s.file_transfers[f], now)
    } else {
        out.len() == 0
    }
}

/// What a check for a due progress report on transfer `f` at `now` appends.
pub open spec fn progress_notice(s: HandlerState, f: Seq<char>, now: u64, out: Seq<Outbound>) -> bool {
    if s.file_transfers.contains_key(f) && progress_due(s.file_transfers[f], now) {
        out.len() == 1 && is_progress_report(out[0], f, s.file_transfers[f], now)
    } else {
        out.len() == 0
    }
}

/// `out` holds, in order, the speed adaptation that is due, the request for
/// the `chosen` chunks if there are any, and the progress report that is due.
pub open spec fn transfer_reports(
    out: Seq<Outbound>,
    peer: Seq<char>,
    f: Seq<char>,
    t: TransferState,
    chosen: Seq<u32>,
    now_secs: u64,
    now_ms: u64,
) -> bool {
    let a: int = if adaptation_due(t, now_ms) { 1 } else { 0 };
    let r: int = if chosen.len() > 0 { 1 } else { 0 };
    let p: int = if progress_due(t, now_ms) { 1 } else { 0 };
    &&& out.len() == a + r + p
    &&& adaptation_due(t, now_ms) ==> is_adapt_speed(out[0], f, t, now_ms)
    &&& chosen.len() > 0 ==> is_chunk_request(out[a], peer, f, chosen, now_secs, MESSAGE_EXPIRY_SECONDS)
    &&& progress_due(t, now_ms) ==> is_progress_report(out[a + r], f, t, now_ms)
}

/// What a round of chunk requests for transfer `f` appends: nothing when the
/// transfer does not run or no bandwidth is granted.
pub open spec fn chunk_reports(s: HandlerState, f: Seq<char>, peer: Seq<char>, now_secs: u64, now_ms: u64, out: Seq<Outbound>) -> bool {
    if !transfer_runs(s, f) || granted(s, f, now_ms) == 0 {
        out.len() == 0
    } else {
        transfer_reports(out, peer, f, s.file_transfers[f], selection(s, f, now_ms), now_secs, now_ms)
    }
}

/// A check of the transfer queue is due at `now` (ms).
pub open spec fn queue_due(s: HandlerState, now: u64) -> bool {
    now - s.queue_last_check >= QUEUE_CHECK_INTERVAL_MS
}

/// `o` tells the local consumer that file `f` stands at `position` in the queue.
pub open spec fn is_queue_update(o: Outbound, f: Seq<char>, position: int, now: u64) -> bool {
    &&& o matches Outbound::Local(m)
    &&& o->Local_0 matches ProtocolMessage::FileTransferQueueUpdate { file_id, queue_position, timestamp, expiry, ephemeral_id }
    &&& o->Local_0->FileTransferQueueUpdate_file_id@ == f
    &&& o->Local_0->FileTransferQueueUpdate_queue_position == position as u32
    &&& o->Local_0->FileTransferQueueUpdate_timestamp == now
    &&& o->Local_0->FileTransferQueueUpdate_expiry == MESSAGE_EXPIRY_SECONDS
    &&& is_ephemeral_id(o->Local_0->FileTransferQueueUpdate_ephemeral_id@)
}

/// `out` tells each queued file its position, front first.
pub open spec fn queue_updates(out: Seq<Outbound>, queue: Seq<Seq<char>>, now: u64) -> bool {
    &&& out.len() == queue.len()
    &&& forall|i: int| 0 <= i < out.len() ==> is_queue_update(#[trigger] out[i], queue[i], i, now)
}

/// A check of the queue at `now` serves its front transfer.
pub open spec fn queue_serves(s: HandlerState, now: u64) -> bool {
    queue_due(s, now) && s.transfer_queue.len() > 0 && s.file_transfers.contains_key(s.transfer_queue[0])
}

/// The state after the front of the queue is taken off.
pub open spec fn queue_popped(s: HandlerState) -> HandlerState {
    HandlerState { transfer_queue: s.transfer_queue.drop_first(), ..s }
}

/// The state after a check of the transfer queue at `now` (ms): when due,
/// the front transfer is taken off and gets a round of chunk requests, and
/// the time of the check is recorded.
pub open spec fn queue_checked(s: HandlerState, now: u64) -> HandlerState {
    if !queue_due(s, now) {
        s
    } else if s.transfer_queue.len() == 0 {
        HandlerState { queue_last_check: now, ..s }
    } else if !s.file_transfers.contains_key(s.transfer_queue[0]) {
        HandlerState { queue_last_check: now, ..queue_popped(s) }
    } else {
        HandlerState {
            queue_last_check: now,
            ..chunks_requested(queue_popped(s), s.transfer_queue[0], now)
        }
    }
}

/// What a check of the queue appends: the positions of the files left in
/// the queue, then the reports of the round of chunk requests.
pub open spec fn queue_reports(s: HandlerState, now_secs: u64, now_ms: u64, out: Seq<Outbound>) -> bool {
    if !queue_serves(s, now_ms) {
        out.len() == 0
    } else {
        let rest = s.transfer_queue.drop_first();
        &&& rest.len() <= out.len()
        &&& queue_updates(out.take(rest.len() as int), rest, now_ms)
        &&& chunk_reports(
            queue_popped(s),
            s.transfer_queue[0],
            QUEUED_TRANSFER_PEER@,
            now_secs,
            now_ms,
            out.skip(rest.len() as int),
        )
    }
}

/// The entries of `m` whose values satisfy `keep`.
pub open spec fn keep_values<V>(m: Map<Seq<char>, V>, keep: spec_fn(V) -> bool) -> Map<Seq<char>, V> {
    Map::new(|k: Seq<char>| m.contains_key(k) && keep(m[k]), |k: Seq<char>| m[k])
}

/// The entries of `m` whose keys satisfy `keep`.
pub open spec fn keep_keys<V>(m: Map<Seq<char>, V>, keep: spec_fn(Seq<char>) -> bool) -> Map<Seq<char>, V> {
    Map::new(|k: Seq<char>| m.contains_key(k) && keep(k), |k: Seq<char>| m[k])
}

/// A transfer that neither failed too often nor was cancelled.
pub open spec fn transfer_kept(t: TransferState) -> bool {
    t.error_count < MAX_ERROR_RETRIES && !t.is_cancelled
}

/// Transfer `f` is dropped by a cleanup.
pub open spec fn transfer_discarded(s: HandlerState, f: Seq<char>) -> bool {
    s.file_transfers.contains_key(f) && !transfer_kept(s.file_transfers[f])
}

/// The rate-limit stamps still within the window at `now`, and only the
/// files that keep at least one.
pub open spec fn limits_cleaned(m: Map<Seq<char>, Seq<u64>>, now: u64) -> Map<Seq<char>, Seq<u64>> {
    Map::new(
        |k: Seq<char>| m.contains_key(k) && recent(m[k], now, RATE_LIMIT_WINDOW_MS).len() > 0,
        |k: Seq<char>| recent(m[k], now, RATE_LIMIT_WINDOW_MS),
    )
}

/// The state after a cleanup at `now_secs` (seconds) and `now_ms`
/// (milliseconds): expired messages, expired deliveries and inactive groups
/// are dropped, and so are the transfers that failed too often or were
/// cancelled, with their allocations, queue places and priorities; the
/// rate-limit stamps outside the window go too.
pub open spec fn cleaned(s: HandlerState, now_secs: u64, now_ms: u64) -> HandlerState {
    HandlerState {
        message_tracker: keep_values(
            s.message_tracker,
            |i: MessageInfo| !expired(now_secs, i.timestamp, i.expiry),
        ),
        delivery_tracker: keep_values(
            s.delivery_tracker,
            |d: DeliveryInfo| !expired(now_secs, d.timestamp, MESSAGE_EXPIRY_SECONDS),
        ),
        group_members: keep_values(
            s.group_members,
            |g: GroupState| !expired(now_secs, g.last_activity, MESSAGE_EXPIRY_SECONDS),
        ),
        file_transfers: keep_values(s.file_transfers, |t: TransferState| transfer_kept(t)),
        rate_limits: limits_cleaned(s.rate_limits, now_ms),
        allocations: keep_keys(s.allocations, |f: Seq<char>| !transfer_discarded(s, f)),
        transfer_queue: s.transfer_queue.filter(|f: Seq<char>| !transfer_discarded(s, f)),
        transfer_priorities: s.transfer_priorities.filter(
            |p: PriorityState| !transfer_discarded(s, p.file_id),
        ),
        ..s
    }
}

/// The views of a sequence of priority entries.
pub open spec fn priority_views(v: Seq<FileTransferPriority>) -> Seq<PriorityState> {
    v.map_values(|p: FileTransferPriority| p@)
}

/// Entries appended in two steps are the entries of the first step followed
/// by those of the second.
pub proof fn lemma_appended_chain(a: Seq<Outbound>, b: Seq<Outbound>, c: Seq<Outbound>)
    requires
        a.len() <= b.len() <= c.len(),
        b.take(a.len() as int) == a,
        c.take(b.len() as int) == b,
    ensures
        c.take(a.len() as int) == a,
        c.skip(a.len() as int) == b.skip(a.len() as int) + c.skip(b.len() as int),
{
    assert(c.take(a.len() as int) =~= b.take(a.len() as int));
    assert(c.skip(a.len() as int) =~= b.skip(a.len() as int) + c.skip(b.len() as int));
}

/// A copy of a control command.
pub fn copy_command(c: &ControlCommand) -> (r: ControlCommand)
    ensures
        r@ == c@,
{
    match c {
        ControlCommand::CircuitExtend => ControlCommand::CircuitExtend,
        ControlCommand::CircuitExtended => ControlCommand::CircuitExtended,
        ControlCommand::CircuitDestroy => ControlCommand::CircuitDestroy,
        ControlCommand::KeepAlive => ControlCommand::KeepAlive,
        ControlCommand::Error => ControlCommand::Error,
        ControlCommand::MessageReceived(a) => ControlCommand::MessageReceived(a.clone()),
        ControlCommand::MessageExpired(a) => ControlCommand::MessageExpired(a.clone()),
        ControlCommand::DeliveryConfirmed(a) => ControlCommand::DeliveryConfirmed(a.clone()),
        ControlCommand::DeliveryFailed(a, b) => ControlCommand::DeliveryFailed(a.clone(), b.clone()),
        ControlCommand::GroupJoin(a) => ControlCommand::GroupJoin(a.clone()),
        ControlCommand::GroupLeave(a) => ControlCommand::GroupLeave(a.clone()),
        ControlCommand::GroupMessageReceived(a, b) => ControlCommand::GroupMessageReceived(
            a.clone(),
            b.clone(),
        ),
        ControlCommand::GroupMessageExpired(a, b) => ControlCommand::GroupMessageExpired(
            a.clone(),
            b.clone(),
        ),
        ControlCommand::ChunkReceived(a, c) => ControlCommand::ChunkReceived(a.clone(), *c),
        ControlCommand::ChunkMissing(a, c) => ControlCommand::ChunkMissing(a.clone(), *c),
        ControlCommand::FileComplete(a) => ControlCommand::FileComplete(a.clone()),
        ControlCommand::FileFailed(a, b) => ControlCommand::FileFailed(a.clone(), b.clone()),
    }
}

/// A control message with `command`, no data, and the ephemeral id `id`.
pub fn control_with_id(command: ControlCommand, id: String) -> (m: ProtocolMessage)
    ensures
        is_control_with_id(m, command@, id@),
{
    ProtocolMessage::Control { command, data: Vec::new(), ephemeral_id: id }
}

/// The entries of `v` other than `x`, in order.
pub fn without(v: &Vec<String>, x: &str) -> (r: Vec<String>)
    ensures
        strs(r@) == others(strs(v@), x@),
{
    let ghost pred = |m: Seq<char>| m != x@;
    let mut r: Vec<String> = Vec::new();
    let mut i: usize = 0;
    while i < v.len()
        invariant
            i <= v@.len(),
            strs(r@) == strs(v@).take(i as int).filter(pred),
            pred == (|m: Seq<char>| m != x@),
        decreases v@.len() - i,
    {
        let ghost vs = strs(v@);
        proof {
            assert(vs.take(i + 1) =~= vs.take(i as int).push(vs[i as int]));
            vs.take(i as int).lemma_filter_push(vs[i as int], pred);
        }
        if !crate::collections::str_equals(x, &v[i]) {
            let ghost before = r@;
            r.push(v[i].clone());
            assert(strs(r@) =~= strs(before).push(vs[i as int]));
        }
        i = i + 1;
    }
    assert(strs(v@).take(i as int) =~= strs(v@));
    r
}

/// The chunks one round of requests picks; see `select_from`.
pub fn select_chunks(pending: &ChunkSet, active: &ChunkSet, resume: u64, slots: usize, allocated: u64) -> (r: Vec<u32>)
    requires
        pending.wf(),
        slots <= MAX_PARALLEL_CHUNKS,
    ensures
        r@ == select_from(pending.elems(), active@, resume, slots as int, allocated as int),
{
    let ghost target = select_from(pending.elems(), active@, resume, slots as int, allocated as int);
    let mut chosen: Vec<u32> = Vec::new();
    let mut left: usize = slots;
    let mut total: u64 = 0;
    let n = pending.len();
    let mut i: usize = 0;
    assert(pending.elems().skip(0) =~= pending.elems());
    while i < n
        invariant
            pending.wf(),
            n == pending.elems().len(),
            n == pending@.len(),
            i <= n,
            left <= slots,
            slots <= MAX_PARALLEL_CHUNKS,
            total == (slots - left) * 65536,
            chosen@ + select_from(pending.elems().skip(i as int), active@, resume, left as int, allocated - total) == target,
        decreases n - i,
    {
        let c = pending.at(i);
        let ghost rest = pending.elems().skip(i as int);
        assert(rest[0] == c);
        assert(rest.drop_first() =~= pending.elems().skip(i + 1));
        if (c as u64) < resume {
            i = i + 1;
        } else if left == 0 || total >= allocated {
            assert(chosen@ + Seq::<u32>::empty() =~= chosen@);
            i = n;
            assert(pending.elems().skip(n as int) =~= Seq::<u32>::empty());
        } else if active.contains(c) {
            i = i + 1;
        } else {
            let ghost before = chosen@;
            chosen.push(c);
            left = left - 1;
            total = total + CHUNK_SIZE as u64;
            i = i + 1;
            assert(before + (seq![c] + select_from(pending.elems().skip(i as int), active@, resume, left as int, allocated - total))
                =~= chosen@ + select_from(pending.elems().skip(i as int), active@, resume, left as int, allocated - total));
        }
    }
    assert(pending.elems().skip(n as int) =~= Seq::<u32>::empty());
    assert(chosen@ + Seq::<u32>::empty() =~= chosen@);
    chosen
}

/// Moves the `chosen` chunks of a transfer from pending to in flight.
pub fn move_chunks(transfer: &mut FileTransferInfo, chosen: &Vec<u32>)
    requires
        old(transfer).wf(),
        old(transfer).active_chunks@.len() + chosen@.len() <= MAX_PARALLEL_CHUNKS,
    ensures
        final(transfer).wf(),
        final(transfer)@ == chunks_moved(old(transfer)@, chosen@),
{
    let ghost t0 = transfer@;
    let ghost p0 = t0.pending_chunks;
    proof {
        transfer.active_chunks.lemma_view();
        lemma_filter_all(p0, |c: u32| !chosen@.take(0).contains(c));
        assert(t0.active_chunks.union(chosen@.take(0).to_set()) =~= t0.active_chunks);
    }
    let mut i: usize = 0;
    while i < chosen.len()
        invariant
            transfer.wf(),
            i <= chosen@.len(),
            t0 == old(transfer)@,
            p0 == t0.pending_chunks,
            t0.active_chunks.finite(),
            t0.active_chunks.len() + chosen@.len() <= MAX_PARALLEL_CHUNKS,
            transfer.active_chunks@.len() <= t0.active_chunks.len() + i,
            transfer@ == (TransferState {
                active_chunks: t0.active_chunks.union(chosen@.take(i as int).to_set()),
                pending_chunks: p0.filter(|c: u32| !chosen@.take(i as int).contains(c)),
                ..t0
            }),
        decreases chosen@.len() - i,
    {
        let c = chosen[i];
        let ghost prev_len = transfer.active_chunks@.len();
        transfer.active_chunks.insert(c);
        transfer.pending_chunks.remove(c);
        proof {
            let shorter = chosen@.take(i as int);
            let longer = chosen@.take(i + 1);
            assert(longer =~= shorter.push(c));
            shorter.lemma_push_to_set_commute(c);
            assert(longer.to_set() =~= shorter.to_set().insert(c));
            assert(transfer@.active_chunks =~= t0.active_chunks.union(longer.to_set()));
            let p = |x: u32| !shorter.contains(x);
            let q = |x: u32| x != c;
            let r = |x: u32| !longer.contains(x);
            assert forall|x: u32| #[trigger] r(x) == (p(x) && q(x)) by {
                if longer.contains(x) && x != c {
                    let j = choose|j: int| 0 <= j < longer.len() && longer[j] == x;
                    assert(shorter[j] == x);
                }
                if shorter.contains(x) {
                    let j = choose|j: int| 0 <= j < shorter.len() && shorter[j] == x;
                    assert(longer[j] == x);
                }
                assert(longer[i as int] == c);
            }
            lemma_filter_filter(p0, p, q, r);
            assert(transfer@.pending_chunks == p0.filter(r));
            assert(transfer.active_chunks@.len() <= prev_len + 1);
        }
        i = i + 1;
    }
    assert(chosen@.take(i as int) =~= chosen@);
}

impl ProtocolHandler {
    /// A control message with `command`, no data, and a fresh ephemeral id.
    pub fn fresh_control(&self, command: ControlCommand) -> (m: ProtocolMessage)
        ensures
            is_control(m, command@),
    {
        let id = self.generate_ephemeral_id();
        control_with_id(command, id)
    }

    /// Sends `command`, under one fresh ephemeral id, to each recipient in order.
    pub fn broadcast_control(&mut self, recipients: &Vec<String>, command: &ControlCommand)
        requires
            old(self).wf(),
        ensures
            final(self).wf(),
            evolves(old(self)@, final(self)@),
            broadcast_to(appended(old(self)@, final(self)@), strs(recipients@), command@),
    {
        let id = self.generate_ephemeral_id();
        let ghost start = self@;
        assert(start.outbox.take(start.outbox.len() as int) =~= start.outbox);
        let mut i: usize = 0;
        while i < recipients.len()
            invariant
                self.wf(),
                evolves(start, self@),
                start == old(self)@,
                i <= recipients@.len(),
                appended(start, self@).len() == i,
                is_ephemeral_id(id@),
                forall|j: int|
                    0 <= j < i ==> (#[trigger] appended(start, self@)[j] matches Outbound::Peer(p, m)
                        && p@ == recipients@[j]@ && is_control_with_id(m, command@, id@)),
            decreases recipients@.len() - i,
        {
            let msg = control_with_id(copy_command(command), id.clone());
            let ghost before = self@;
            self.outbox.push(Outbound::Peer(recipients[i].clone(), msg));
            proof {
                assert(self@.outbox =~= before.outbox.push(Outbound::Peer(recipients@[i as int], msg)));
                assert forall|j: int| 0 <= j <= i implies (#[trigger] appended(start, self@)[j] matches Outbound::Peer(p, m)
                    && p@ == recipients@[j]@ && is_control_with_id(m, command@, id@)) by {
                    if j < i {
                        assert(appended(start, self@)[j] == appended(start, before)[j]);
                    }
                }
                assert(self@.outbox.take(start.outbox.len() as int) =~= start.outbox);
            }
            i = i + 1;
        }
        proof {
            let out = appended(start, self@);
            assert(forall|j: int|
                0 <= j < out.len() ==> (#[trigger] out[j] matches Outbound::Peer(p, m) && p@ == strs(recipients@)[j]
                    && is_control_with_id(m, command@, id@)));
        }
    }

    /// Records the message `ephemeral_id`, and its delivery `delivery_id` as
    /// awaiting confirmation.
    pub fn track_message(
        &mut self,
        ephemeral_id: String,
        timestamp: u64,
        expiry: u64,
        delivery_id: Option<String>,
    )
        requires
            old(self).wf(),
        ensures
            final(self).wf(),
            final(self)@ == recorded(old(self)@, ephemeral_id, timestamp, expiry, delivery_id),
    {
        let kept: Option<String> = match &delivery_id {
            Some(d) => Some(d.clone()),
            None => None,
        };
        self.message_tracker.insert(
            ephemeral_id.clone(),
            MessageInfo { timestamp, expiry, is_viewed: false, delivery_id: kept },
        );
        if let Some(d) = delivery_id {
            self.delivery_tracker.insert(
                d,
                DeliveryInfo { message_id: ephemeral_id, timestamp, is_confirmed: false, retry_count: 0 },
            );
        }
    }

    /// Confirms the delivery `delivery_id`, which is then no longer awaited.
    pub fn handle_delivery_confirmation(&mut self, delivery_id: String)
        requires
            old(self).wf(),
        ensures
            final(self).wf(),
            final(self)@ == delivery_confirmed(old(self)@, delivery_id@),
    {
        let _ = self.delivery_tracker.remove(delivery_id.as_str());
    }

    /// Counts a failure of the delivery `delivery_id`; at the third it is dropped.
    pub fn handle_delivery_failure(&mut self, delivery_id: String, reason: String)
        requires
            old(self).wf(),
        ensures
            final(self).wf(),
            final(self)@ == delivery_failed(old(self)@, delivery_id@),
    {
        match self.delivery_tracker.remove(delivery_id.as_str()) {
            Some(info) => {
                let retries = info.retry_count + 1;
                if retries < 3 {
                    self.delivery_tracker.insert(
                        delivery_id,
                        DeliveryInfo { retry_count: retries, ..info },
                    );
                }
            },
            None => {},
        }
    }

    /// Forgets the message `ephemeral_id`.
    pub fn handle_message_expired(&mut self, ephemeral_id: String)
        requires
            old(self).wf(),
        ensures
            final(self).wf(),
            final(self)@ == message_forgotten(old(self)@, ephemeral_id@),
    {
        let _ = self.message_tracker.remove(ephemeral_id.as_str());
    }

    /// Marks the message `ephemeral_id` viewed and asks the caller to forget
    /// it once its expiry has passed.
    pub fn handle_message_received(&mut self, ephemeral_id: String)
        requires
            old(self).wf(),
        ensures
            final(self).wf(),
            evolves(message_viewed(old(self)@, ephemeral_id@), final(self)@),
            appended(old(self)@, final(self)@) == if old(self)@.message_tracker.contains_key(ephemeral_id@) {
                seq![Outbound::ExpireAfter {
                    ephemeral_id: ephemeral_id,
                    seconds: old(self)@.message_tracker[ephemeral_id@].expiry,
                }]
            } else {
                Seq::<Outbound>::empty()
            },
    {
        let ghost pre = self@;
        match self.message_tracker.remove(ephemeral_id.as_str()) {
            Some(info) => {
                let seconds = info.expiry;
                self.message_tracker.insert(ephemeral_id.clone(), MessageInfo { is_viewed: true, ..info });
                self.outbox.push(Outbound::ExpireAfter { ephemeral_id, seconds });
                proof {
                    assert(self@.message_tracker =~= message_viewed(pre, ephemeral_id@).message_tracker);
                    assert(self@.outbox.take(pre.outbox.len() as int) =~= pre.outbox);
                    assert(appended(pre, self@) =~= seq![Outbound::ExpireAfter { ephemeral_id: ephemeral_id, seconds: seconds }]);
                }
            },
            None => {
                proof {
                    assert(self@.message_tracker =~= pre.message_tracker);
                    assert(self@.outbox.take(pre.outbox.len() as int) =~= pre.outbox);
                    assert(appended(pre, self@) =~= Seq::<Outbound>::empty());
                }
            },
        }
    }

    /// Readies the serialized form of an outgoing message for the wire: one
    /// longer than `MAX_MESSAGE_SIZE` is refused; any other is encrypted by
    /// the handler's crypto service (`encrypt_message`).
    pub fn seal_outgoing(&self, serialized: &[u8]) -> (r: Result<Vec<u8>, ProtocolError>)
        requires
            self.crypto_service.wf(),
        ensures
            r is Err <==> serialized@.len() > MAX_MESSAGE_SIZE,
            r is Err ==> r == Err::<Vec<u8>, ProtocolError>(ProtocolError::MessageTooLarge),
            r matches Ok(c) ==> c@.len() == 96 + serialized@.len() + 16 && exists|eph: Seq<u8>|
                eph.len() == 32 && self.crypto_service.sealed_with(c@, eph, serialized@),
    {
        if serialized.len() > MAX_MESSAGE_SIZE {
            return Err(ProtocolError::MessageTooLarge);
        }
        let own_key = self.crypto_service.keypair.public_key();
        match self.crypto_service.encrypt_message(serialized, own_key) {
            Ok(encrypted) => Ok(encrypted),
            Err(_) => {
                assert(false);
                Err(ProtocolError::MessageTooLarge)
            },
        }
    }

    /// Hands `message` over for delivery to `peer_id`.
    pub fn send_message(&mut self, peer_id: String, message: ProtocolMessage)
        requires
            old(self).wf(),
        ensures
            final(self).wf(),
            evolves(old(self)@, final(self)@),
            appended(old(self)@, final(self)@) == seq![Outbound::Peer(peer_id, message)],
    {
        let ghost pre = self@;
        let ghost o = Outbound::Peer(peer_id, message);
        self.outbox.push(Outbound::Peer(peer_id, message));
        proof {
            assert(self@.outbox.take(pre.outbox.len() as int) =~= pre.outbox);
            assert(appended(pre, self@) =~= seq![o]);
        }
    }

    /// Confirms to `peer_id` the delivery `delivery_id`.
    pub fn send_delivery_confirmation(&mut self, peer_id: String, delivery_id: String)
        requires
            old(self).wf(),
        ensures
            final(self).wf(),
            evolves(old(self)@, final(self)@),
            appended(old(self)@, final(self)@).len() == 1,
            is_peer_control(
                appended(old(self)@, final(self)@)[0],
                peer_id@,
                CommandView::DeliveryConfirmed(delivery_id@),
            ),
    {
        let confirmation = self.fresh_control(ControlCommand::DeliveryConfirmed(delivery_id));
        self.send_message(peer_id, confirmation);
    }

    /// Forgets the expired message `ephemeral_id` and tells its sender.
    pub fn handle_expired_message(&mut self, ephemeral_id: String)
        requires
            old(self).wf(),
        ensures
            final(self).wf(),
            evolves(message_forgotten(old(self)@, ephemeral_id@), final(self)@),
            appended(old(self)@, final(self)@).len() == 1,
            is_peer_control(
                appended(old(self)@, final(self)@)[0],
                EXPIRY_NOTICE_RECIPIENT@,
                CommandView::MessageExpired(ephemeral_id@),
            ),
    {
        let _ = self.message_tracker.remove(ephemeral_id.as_str());
        let response = self.fresh_control(ControlCommand::MessageExpired(ephemeral_id));
        self.send_message(EXPIRY_NOTICE_RECIPIENT.to_owned(), response);
    }

    /// Tells every member of group `group_id` that the message `message_id`
    /// expired.
    pub fn handle_group_message_expired(&mut self, group_id: String, message_id: String)
        requires
            old(self).wf(),
        ensures
            final(self).wf(),
            evolves(old(self)@, final(self)@),
            group_notice(
                old(self)@,
                group_id@,
                CommandView::GroupMessageExpired(group_id@, message_id@),
                appended(old(self)@, final(self)@),
            ),
    {
        let ghost pre = self@;
        let members: Option<Vec<String>> = match self.group_members.get(group_id.as_str()) {
            Some(group) => Some(group.members.to_vec()),
            None => None,
        };
        match members {
            Some(list) => {
                let command = ControlCommand::GroupMessageExpired(group_id, message_id);
                self.broadcast_control(&list, &command);
            },
            None => {
                assert(self@.outbox.take(pre.outbox.len() as int) =~= pre.outbox);
                assert(appended(pre, self@) =~= Seq::<Outbound>::empty());
            },
        }
    }

    /// Tells every member of group `group_id` that the message `message_id`
    /// arrived expired.
    pub fn handle_expired_group_message(&mut self, group_id: String, message_id: String)
        requires
            old(self).wf(),
        ensures
            final(self).wf(),
            evolves(old(self)@, final(self)@),
            group_notice(
                old(self)@,
                group_id@,
                CommandView::GroupMessageExpired(group_id@, message_id@),
                appended(old(self)@, final(self)@),
            ),
    {
        self.handle_group_message_expired(group_id, message_id);
    }

    /// Adds `peer_id` to the group `group_id` at `now`, creating the group
    /// if there is none, and tells the other members.  A full group refuses.
    pub fn handle_group_join_at(&mut self, peer_id: String, group_id: String, now: u64) -> (r: Result<
        (),
        ProtocolError,
    >)
        requires
            old(self).wf(),
        ensures
            final(self).wf(),
            r is Err <==> group_full(old(self)@, group_id@),
            r is Err ==> r == Err::<(), ProtocolError>(ProtocolError::GroupFull) && final(self)@
                == old(self)@,
            r is Ok ==> ({
                let eph = final(self)@.group_members[group_id@].ephemeral_id;
                &&& (!old(self)@.group_members.contains_key(group_id@) ==> is_ephemeral_id(eph))
                &&& evolves(joined(old(self)@, peer_id@, group_id@, now, eph), final(self)@)
                &&& broadcast_to(
                    appended(old(self)@, final(self)@),
                    join_recipients(old(self)@, peer_id@, group_id@, now, eph),
                    CommandView::GroupJoin(group_id@),
                )
            }),
    {
        let ghost pre = self@;
        let existing = self.group_members.remove(group_id.as_str());
        assert(self@.group_members =~= pre.group_members.remove(group_id@));
        let mut group = match existing {
            Some(g) => g,
            None => GroupInfo {
                members: StrSet::new(),
                created_at: now,
                last_activity: now,
                ephemeral_id: self.generate_ephemeral_id(),
            },
        };
        let ghost g0 = group@;
        proof {
            group.members.lemma_view();
            assert(group.members@.contains(peer_id@) == g0.members.contains(peer_id@));
        }
        if group.members.len() >= MAX_GROUP_SIZE {
            self.group_members.insert(group_id, group);
            assert(self@.group_members =~= pre.group_members);
            return Err(ProtocolError::GroupFull);
        }
        group.members.insert(peer_id.clone());
        group.last_activity = now;
        let recipients = without(&group.members.to_vec(), peer_id.as_str());
        let command = ControlCommand::GroupJoin(group_id.clone());
        let ghost mid = self@;
        self.broadcast_control(&recipients, &command);
        let ghost gid = group_id@;
        let ghost eph = group.ephemeral_id@;
        let ghost after_broadcast = self@;
        let ghost gv = group@;
        self.group_members.insert(group_id, group);
        assert(self@.group_members =~= after_broadcast.group_members.insert(gid, gv));
        proof {
            assert(g0 == group_or_new(pre, gid, now, eph));
            assert(group@.members == with_member(g0.members, peer_id@));
            assert(group@ == GroupState { members: with_member(g0.members, peer_id@), last_activity: now, ..g0 });
            assert(self@.group_members =~= joined(pre, peer_id@, gid, now, eph).group_members);
            assert(self@.outbox.take(pre.outbox.len() as int) =~= pre.outbox);
            assert(appended(pre, self@) =~= appended(mid, self@));
        }
        Ok(())
    }

    /// Takes `peer_id` out of the group `group_id` at `now` and tells the
    /// remaining members; a group left empty is dropped.
    pub fn handle_group_leave_at(&mut self, peer_id: String, group_id: String, now: u64)
        requires
            old(self).wf(),
        ensures
            final(self).wf(),
            evolves(left(old(self)@, peer_id@, group_id@, now), final(self)@),
            leave_notice(old(self)@, peer_id@, group_id@, appended(old(self)@, final(self)@)),
    {
        let ghost pre = self@;
        match self.group_members.remove(group_id.as_str()) {
            Some(mut group) => {
                let ghost g0 = group@;
                assert(self@.group_members =~= pre.group_members.remove(group_id@));
                group.members.remove(peer_id.as_str());
                group.last_activity = now;
                proof {
                    assert((|x: Seq<char>| x != peer_id@) =~= (|m: Seq<char>| m != peer_id@));
                    assert(group@.members == others(g0.members, peer_id@));
                }
                let recipients = group.members.to_vec();
                let command = ControlCommand::GroupLeave(group_id.clone());
                let ghost mid = self@;
                self.broadcast_control(&recipients, &command);
                let ghost gid = group_id@;
                let ghost after_broadcast = self@;
                let ghost gv = group@;
                if !group.members.is_empty() {
                    self.group_members.insert(group_id, group);
                    assert(self@.group_members =~= after_broadcast.group_members.insert(gid, gv));
                    assert(self@.group_members =~= left(pre, peer_id@, gid, now).group_members);
                } else {
                    assert(self@.group_members =~= left(pre, peer_id@, gid, now).group_members);
                }
                proof {
                    assert(self@.outbox.take(pre.outbox.len() as int) =~= pre.outbox);
                    assert(appended(pre, self@) =~= appended(mid, self@));
                }
            },
            None => {
                proof {
                    assert(self@.group_members =~= pre.group_members);
                    assert(self@.outbox.take(pre.outbox.len() as int) =~= pre.outbox);
                    assert(appended(pre, self@) =~= Seq::<Outbound>::empty());
                }
            },
        }
    }

    /// Records activity in group `group_id` at `now`.
    pub fn handle_group_message_received_at(&mut self, group_id: String, message_id: String, now: u64)
        requires
            old(self).wf(),
        ensures
            final(self).wf(),
            final(self)@ == group_touched(old(self)@, group_id@, now),
    {
        let ghost pre = self@;
        match self.group_members.remove(group_id.as_str()) {
            Some(mut group) => {
                group.last_activity = now;
                let ghost gid = group_id@;
                self.group_members.insert(group_id, group);
                assert(self@.group_members =~= group_touched(pre, gid, now).group_members);
            },
            None => {
                assert(self@.group_members =~= pre.group_members);
            },
        }
    }

    /// Reports the failure of transfer `file_id` and drops it.
    pub fn handle_file_failure(&mut self, file_id: String, reason: String)
        requires
            old(self).wf(),
        ensures
            final(self).wf(),
            evolves(transfer_dropped(old(self)@, file_id@), final(self)@),
            appended(old(self)@, final(self)@).len() == 1,
            is_local_control(
                appended(old(self)@, final(self)@)[0],
                CommandView::FileFailed(file_id@, reason@),
            ),
    {
        let ghost pre = self@;
        let notification = self.fresh_control(ControlCommand::FileFailed(file_id.clone(), reason));
        let ghost o = Outbound::Local(notification);
        self.outbox.push(Outbound::Local(notification));
        let _ = self.file_transfers.remove(file_id.as_str());
        proof {
            assert(self@.file_transfers =~= transfer_dropped(pre, file_id@).file_transfers);
            assert(self@.outbox.take(pre.outbox.len() as int) =~= pre.outbox);
            assert(appended(pre, self@) =~= seq![o]);
        }
    }

    /// Records chunk `chunk_index` of transfer `file_id` as received at
    /// `now`, and reports the transfer complete once every chunk is in.
    pub fn handle_chunk_received_at(&mut self, file_id: String, chunk_index: u32, now: u64)
        requires
            old(self).wf(),
        ensures
            final(self).wf(),
            evolves(chunk_received(old(self)@, file_id@, chunk_index, now), final(self)@),
            appended(old(self)@, final(self)@).len() == if completes(old(self)@, file_id@, chunk_index) {
                1int
            } else {
                0int
            },
            completes(old(self)@, file_id@, chunk_index) ==> is_local_control(
                appended(old(self)@, final(self)@)[0],
                CommandView::FileComplete(file_id@),
            ),
    {
        let ghost pre = self@;
        let ghost stored = self.file_transfers@;
        match self.file_transfers.remove(file_id.as_str()) {
            Some(mut transfer) => {
                assert(stored[file_id@].wf());
                transfer.received_chunks.insert(chunk_index);
                transfer.last_update = now;
                let n = transfer.received_chunks.len();
                let done = n as u64 == transfer.total_chunks as u64;
                if done {
                    transfer.is_complete = true;
                }
                let ghost fid = file_id@;
                if done {
                    let notification = self.fresh_control(ControlCommand::FileComplete(file_id.clone()));
                    let ghost o = Outbound::Local(notification);
                    self.outbox.push(Outbound::Local(notification));
                    self.file_transfers.insert(file_id, transfer);
                    proof {
                        assert(appended(pre, self@) =~= seq![o]);
                    }
                } else {
                    self.file_transfers.insert(file_id, transfer);
                    proof {
                        assert(appended(pre, self@) =~= Seq::<Outbound>::empty());
                    }
                }
                proof {
                    assert(self@.file_transfers =~= chunk_received(pre, fid, chunk_index, now).file_transfers);
                    assert(self@.outbox.take(pre.outbox.len() as int) =~= pre.outbox);
                }
            },
            None => {
                proof {
                    assert(self@.file_transfers =~= pre.file_transfers);
                    assert(self@.outbox.take(pre.outbox.len() as int) =~= pre.outbox);
                    assert(appended(pre, self@) =~= Seq::<Outbound>::empty());
                }
            },
        }
    }

    /// Counts a missing chunk of transfer `file_id` and asks for it again;
    /// past `MAX_CHUNK_RETRIES` the transfer fails.
    pub fn handle_chunk_missing(&mut self, file_id: String, chunk_index: u32)
        requires
            old(self).wf(),
        ensures
            final(self).wf(),
            evolves(chunk_missing(old(self)@, file_id@), final(self)@),
            !old(self)@.file_transfers.contains_key(file_id@) ==> appended(old(self)@, final(self)@).len() == 0,
            old(self)@.file_transfers.contains_key(file_id@) ==> appended(old(self)@, final(self)@).len() == 1,
            retries_exhausted(old(self)@, file_id@) ==> is_local_control(
                appended(old(self)@, final(self)@)[0],
                CommandView::FileFailed(file_id@, MAX_RETRIES_REASON@),
            ),
            old(self)@.file_transfers.contains_key(file_id@) && !retries_exhausted(old(self)@, file_id@)
                ==> is_local_control(
                appended(old(self)@, final(self)@)[0],
                CommandView::ChunkMissing(file_id@, chunk_index),
            ),
    {
        let ghost pre = self@;
        let ghost stored = self.file_transfers@;
        match self.file_transfers.remove(file_id.as_str()) {
            Some(mut transfer) => {
                assert(stored[file_id@].wf());
                let retries = transfer.retry_count + 1;
                if retries > MAX_CHUNK_RETRIES {
                    let ghost mid = self@;
                    self.handle_file_failure(file_id, MAX_RETRIES_REASON.to_owned());
                    proof {
                        assert(mid.file_transfers.remove(file_id@) =~= pre.file_transfers.remove(file_id@));
                        assert(self@.outbox.take(pre.outbox.len() as int) =~= pre.outbox);
                        assert(appended(pre, self@) =~= appended(mid, self@));
                    }
                } else {
                    transfer.retry_count = retries;
                    let ghost fid = file_id@;
                    let request = self.fresh_control(ControlCommand::ChunkMissing(file_id.clone(), chunk_index));
                    let ghost o = Outbound::Local(request);
                    self.file_transfers.insert(file_id, transfer);
                    self.outbox.push(Outbound::Local(request));
                    proof {
                        assert(self@.file_transfers =~= chunk_missing(pre, fid).file_transfers);
                        assert(self@.outbox.take(pre.outbox.len() as int) =~= pre.outbox);
                        assert(appended(pre, self@) =~= seq![o]);
                    }
                }
            },
            None => {
                proof {
                    assert(self@.file_transfers =~= pre.file_transfers);
                    assert(self@.outbox.take(pre.outbox.len() as int) =~= pre.outbox);
                    assert(appended(pre, self@) =~= Seq::<Outbound>::empty());
                }
            },
        }
    }

    /// Gives transfer `file_id` the bandwidth limit `bandwidth` at `now` (ms)
    /// and asks the bandwidth manager for it.
    pub fn apply_target_bandwidth(&mut self, file_id: String, bandwidth: u64, now: u64)
        requires
            old(self).wf(),
        ensures
            final(self).wf(),
            final(self)@ == bandwidth_set(old(self)@, file_id@, bandwidth, now),
    {
        let ghost pre = self@;
        let ghost stored = self.file_transfers@;
        match self.file_transfers.remove(file_id.as_str()) {
            Some(mut transfer) => {
                assert(stored[file_id@].wf());
                transfer.bandwidth_limit = bandwidth;
                let _ = self.bandwidth_manager.allocate_bandwidth_at(file_id.as_str(), bandwidth, now);
                let ghost fid = file_id@;
                self.file_transfers.insert(file_id, transfer);
                proof {
                    assert(self@.file_transfers =~= bandwidth_set(pre, fid, bandwidth, now).file_transfers);
                    assert(self@.allocations =~= bandwidth_set(pre, fid, bandwidth, now).allocations);
                }
            },
            None => {
                assert(self@.file_transfers =~= pre.file_transfers);
            },
        }
    }

    /// Applies a speed adaptation of transfer `file_id` at `now` (ms): its
    /// bandwidth becomes `bandwidth` brought into the allowed range.
    pub fn apply_speed_adaptation(&mut self, file_id: String, bandwidth: u64, now: u64)
        requires
            old(self).wf(),
        ensures
            final(self).wf(),
            final(self)@ == speed_adapted(old(self)@, file_id@, bandwidth, now),
    {
        let ghost pre = self@;
        let adjusted = if bandwidth < MIN_BANDWIDTH_BYTES_PER_SEC {
            MIN_BANDWIDTH_BYTES_PER_SEC
        } else if bandwidth > MAX_BANDWIDTH_BYTES_PER_SEC {
            MAX_BANDWIDTH_BYTES_PER_SEC
        } else {
            bandwidth
        };
        let ghost stored = self.file_transfers@;
        match self.file_transfers.remove(file_id.as_str()) {
            Some(mut transfer) => {
                assert(stored[file_id@].wf());
                transfer.bandwidth_limit = adjusted;
                let _ = self.bandwidth_manager.allocate_bandwidth_at(file_id.as_str(), adjusted, now);
                transfer.last_speed_adaptation = now;
                let ghost fid = file_id@;
                self.file_transfers.insert(file_id, transfer);
                proof {
                    let mid = bandwidth_set(pre, fid, adjusted, now);
                    assert(self@.file_transfers =~= speed_adapted(pre, fid, bandwidth, now).file_transfers);
                    assert(self@.allocations =~= mid.allocations);
                }
            },
            None => {
                assert(self@.file_transfers =~= pre.file_transfers);
            },
        }
    }
    /// Asks the caller to adapt the speed of transfer `file_id` when an
    /// adaptation is due at `now` (ms).
    pub fn adapt_transfer_speed_at(&mut self, file_id: &String, now: u64)
        requires
            old(self).wf(),
        ensures
            final(self).wf(),
            evolves(old(self)@, final(self)@),
            adaptation_notice(old(self)@, file_id@, now, appended(old(self)@, final(self)@)),
    {
        let ghost pre = self@;
        assert(pre.outbox.take(pre.outbox.len() as int) =~= pre.outbox);
        let notice = match self.file_transfers.get(file_id.as_str()) {
            Some(t) => {
                if now >= t.last_speed_adaptation && now - t.last_speed_adaptation >= SPEED_ADAPTATION_INTERVAL_MS {
                    Some(Outbound::AdaptSpeed {
                        file_id: file_id.clone(),
                        speed: t.speed,
                        target_speed: t.target_speed,
                        bandwidth_limit: t.bandwidth_limit,
                        now,
                    })
                } else {
                    None
                }
            },
            None => None,
        };
        match notice {
            Some(o) => {
                self.outbox.push(o);
                proof {
                    assert(self@.outbox.take(pre.outbox.len() as int) =~= pre.outbox);
                    assert(appended(pre, self@) =~= seq![o]);
                }
            },
            None => {
                assert(appended(pre, self@) =~= Seq::<Outbound>::empty());
            },
        }
    }

    /// Asks the caller for a progress report on transfer `file_id` when one
    /// is due at `now` (ms).
    pub fn update_transfer_progress_at(&mut self, file_id: &String, now: u64)
        requires
            old(self).wf(),
        ensures
            final(self).wf(),
            evolves(old(self)@, final(self)@),
            progress_notice(old(self)@, file_id@, now, appended(old(self)@, final(self)@)),
    {
        let ghost pre = self@;
        assert(pre.outbox.take(pre.outbox.len() as int) =~= pre.outbox);
        let due = match self.file_transfers.get(file_id.as_str()) {
            Some(t) => {
                if now >= t.last_progress_update && now - t.last_progress_update >= PROGRESS_UPDATE_INTERVAL_MS {
                    let elapsed = if now >= t.start_time {
                        now - t.start_time
                    } else {
                        0
                    };
                    assert(t.total_chunks * 65536 <= 0xffff_ffff * 65536) by (nonlinear_arith)
                        requires
                            t.total_chunks <= 0xffff_ffff,
                    ;
                    Some((t.bytes_transferred, t.total_chunks as u64 * 65536, elapsed))
                } else {
                    None
                }
            },
            None => None,
        };
        match due {
            Some((bytes_transferred, total_bytes, elapsed_ms)) => {
                let o = Outbound::Progress {
                    file_id: file_id.clone(),
                    bytes_transferred,
                    total_bytes,
                    elapsed_ms,
                    timestamp: now,
                    expiry: MESSAGE_EXPIRY_SECONDS,
                    ephemeral_id: self.generate_ephemeral_id(),
                };
                self.outbox.push(o);
                proof {
                    assert(self@.outbox.take(pre.outbox.len() as int) =~= pre.outbox);
                    assert(appended(pre, self@) =~= seq![o]);
                }
            },
            None => {
                assert(appended(pre, self@) =~= Seq::<Outbound>::empty());
            },
        }
    }

    /// Runs a round of chunk requests for transfer `file_id` with `peer_id`
    /// at `now_secs` (seconds) and `now_ms` (milliseconds): asks for
    /// bandwidth, asks for the speed adaptation that is due, moves pending
    /// chunks into flight and requests them, and asks for the progress
    /// report that is due.
    pub fn process_pending_chunks_at(&mut self, file_id: String, peer_id: String, now_secs: u64, now_ms: u64)
        requires
            old(self).wf(),
        ensures
            final(self).wf(),
            evolves(chunks_requested(old(self)@, file_id@, now_ms), final(self)@),
            chunk_reports(old(self)@, file_id@, peer_id@, now_secs, now_ms, appended(old(self)@, final(self)@)),
    {
        let ghost pre = self@;
        let ghost fid = file_id@;
        let ghost peer = peer_id@;
        assert(pre.outbox.take(pre.outbox.len() as int) =~= pre.outbox);
        let request = match self.file_transfers.get(file_id.as_str()) {
            Some(t) => {
                if t.is_cancelled {
                    return;
                }
                if t.bandwidth_limit == 0 {
                    MAX_BANDWIDTH_BYTES_PER_SEC
                } else {
                    t.bandwidth_limit
                }
            },
            None => {
                assert(appended(pre, self@) =~= Seq::<Outbound>::empty());
                return;
            },
        };
        let ghost t = pre.file_transfers[fid];
        let allocated = self.bandwidth_manager.allocate_bandwidth_at(file_id.as_str(), request, now_ms);
        assert(allocated == granted(pre, fid, now_ms));
        assert(self@.allocations =~= chunks_requested(pre, fid, now_ms).allocations);
        if allocated == 0 {
            assert(appended(pre, self@) =~= Seq::<Outbound>::empty());
            return;
        }
        self.adapt_transfer_speed_at(&file_id, now_ms);
        let ghost adapted = self@;
        let ghost stored = self.file_transfers@;
        let mut transfer = match self.file_transfers.remove(file_id.as_str()) {
            Some(tr) => tr,
            None => {
                return;
            },
        };
        assert(stored[fid].wf());
        let active_count = transfer.active_chunks.len();
        let slots = MAX_PARALLEL_CHUNKS - active_count;
        let chosen = select_chunks(
            &transfer.pending_chunks,
            &transfer.active_chunks,
            transfer.resume_point,
            slots,
            allocated,
        );
        let ghost picked = chosen@;
        proof {
            lemma_select_len(t.pending_chunks, t.active_chunks, t.resume_point, slots as int, allocated as int);
            assert(picked == selection(pre, fid, now_ms));
        }
        move_chunks(&mut transfer, &chosen);
        let ghost tv = transfer@;
        self.file_transfers.insert(file_id.clone(), transfer);
        assert(self@.file_transfers =~= chunks_requested(pre, fid, now_ms).file_transfers);
        let ghost moved = self@;
        if chosen.len() > 0 {
            let id = self.generate_ephemeral_id();
            let request_msg = ProtocolMessage::FileChunkRequest {
                file_id: file_id.clone(),
                chunk_indices: chosen,
                timestamp: now_secs,
                expiry: MESSAGE_EXPIRY_SECONDS,
                ephemeral_id: id,
            };
            let o = Outbound::Peer(peer_id, request_msg);
            self.outbox.push(o);
            assert(self@.outbox =~= moved.outbox.push(o));
        } else {
            assert(self@.outbox =~= moved.outbox);
        }
        let ghost requested = self@;
        self.update_transfer_progress_at(&file_id, now_ms);
        proof {
            assert(requested.file_transfers[fid] == tv);
            assert(self@.outbox.take(pre.outbox.len() as int) =~= pre.outbox);
            assert(moved.outbox == adapted.outbox);
            assert(requested.outbox.take(adapted.outbox.len() as int) =~= adapted.outbox);
            lemma_appended_chain(pre.outbox, adapted.outbox, requested.outbox);
            lemma_appended_chain(pre.outbox, requested.outbox, self@.outbox);
            let out = appended(pre, self@);
            let a = appended(pre, adapted);
            let r = appended(adapted, requested);
            let p = appended(requested, self@);
            assert(out =~= a + r + p);
            assert(transfer_reports(out, peer, fid, t, picked, now_secs, now_ms));
        }
    }

    /// Drops the priority entries of `file_id`.
    pub fn drop_priorities(&mut self, file_id: &str)
        requires
            old(self).wf(),
        ensures
            final(self).wf(),
            final(self)@ == (HandlerState {
                transfer_priorities: old(self)@.transfer_priorities.filter(
                    |p: PriorityState| p.file_id != file_id@,
                ),
                ..old(self)@
            }),
    {
        let ghost pre = self@;
        let ghost pred = |p: PriorityState| p.file_id != file_id@;
        let mut kept: Vec<FileTransferPriority> = Vec::new();
        let mut i: usize = 0;
        let n = self.transfer_priorities.len();
        while i < n
            invariant
                self@ == pre,
                n == self.transfer_priorities@.len(),
                i <= n,
                priority_views(kept@) == pre.transfer_priorities.take(i as int).filter(pred),
                pred == (|p: PriorityState| p.file_id != file_id@),
            decreases n - i,
        {
            let ghost ps = pre.transfer_priorities;
            proof {
                assert(ps.take(i + 1) =~= ps.take(i as int).push(ps[i as int]));
                ps.take(i as int).lemma_filter_push(ps[i as int], pred);
            }
            let entry = &self.transfer_priorities[i];
            if !crate::collections::str_equals(file_id, &entry.file_id) {
                let ghost before = kept@;
                kept.push(FileTransferPriority {
                    priority: entry.priority,
                    start_time: entry.start_time,
                    file_id: entry.file_id.clone(),
                });
                assert(priority_views(kept@) =~= priority_views(before).push(ps[i as int]));
            }
            i = i + 1;
        }
        self.transfer_priorities = kept;
        proof {
            assert(pre.transfer_priorities.take(n as int) =~= pre.transfer_priorities);
            assert(self@ =~= (HandlerState {
                transfer_priorities: pre.transfer_priorities.filter(pred),
                ..pre
            }));
        }
    }

    /// Checks the transfer queue at `now_secs` (seconds) and `now_ms`
    /// (milliseconds): when a check is due, the front transfer is taken off,
    /// the files left are told their positions, and the transfer gets a
    /// round of chunk requests.
    pub fn process_transfer_queue_at(&mut self, now_secs: u64, now_ms: u64)
        requires
            old(self).wf(),
        ensures
            final(self).wf(),
            evolves(queue_checked(old(self)@, now_ms), final(self)@),
            queue_reports(old(self)@, now_secs, now_ms, appended(old(self)@, final(self)@)),
    {
        let ghost pre = self@;
        assert(pre.outbox.take(pre.outbox.len() as int) =~= pre.outbox);
        if now_ms >= self.transfer_queue.last_check && now_ms - self.transfer_queue.last_check
            >= QUEUE_CHECK_INTERVAL_MS {
            match self.transfer_queue.next_transfer() {
                Some(file_id) => {
                    let ghost popped = self@;
                    assert(popped == queue_popped(pre));
                    if self.file_transfers.contains_key(file_id.as_str()) {
                        let n = self.transfer_queue.queue.len();
                        let mut i: usize = 0;
                        while i < n
                            invariant
                                self.wf(),
                                n == self.transfer_queue.queue@.len(),
                                n == popped.transfer_queue.len(),
                                i <= n,
                                evolves(popped, self@),
                                appended(popped, self@).len() == i,
                                forall|j: int|
                                    0 <= j < i ==> is_queue_update(
                                        #[trigger] appended(popped, self@)[j],
                                        popped.transfer_queue[j],
                                        j,
                                        now_ms,
                                    ),
                            decreases n - i,
                        {
                            let ghost before = self@;
                            let update = ProtocolMessage::FileTransferQueueUpdate {
                                file_id: self.transfer_queue.queue[i].clone(),
                                queue_position: i as u32,
                                timestamp: now_ms,
                                expiry: MESSAGE_EXPIRY_SECONDS,
                                ephemeral_id: self.generate_ephemeral_id(),
                            };
                            let o = Outbound::Local(update);
                            self.outbox.push(o);
                            proof {
                                assert(self@.outbox =~= before.outbox.push(o));
                                assert(self@.outbox.take(popped.outbox.len() as int) =~= popped.outbox);
                                assert forall|j: int| 0 <= j <= i implies is_queue_update(
                                    #[trigger] appended(popped, self@)[j],
                                    popped.transfer_queue[j],
                                    j,
                                    now_ms,
                                ) by {
                                    if j < i {
                                        assert(appended(popped, self@)[j] == appended(popped, before)[j]);
                                    }
                                }
                            }
                            i = i + 1;
                        }
                        let ghost listed = self@;
                        let ghost fid = file_id@;
                        self.process_pending_chunks_at(file_id, QUEUED_TRANSFER_PEER.to_owned(), now_secs, now_ms);
                        self.transfer_queue.last_check = now_ms;
                        proof {
                            assert(chunks_requested(listed, fid, now_ms) == HandlerState {
                                outbox: listed.outbox,
                                ..chunks_requested(popped, fid, now_ms)
                            });
                            assert(self@.outbox.take(pre.outbox.len() as int) =~= pre.outbox);
                            let out = appended(pre, self@);
                            let k = popped.transfer_queue.len();
                            assert(out.take(k as int) =~= appended(popped, listed));
                            assert(out.skip(k as int) =~= appended(listed, self@));
                            assert(chunk_reports(popped, fid, QUEUED_TRANSFER_PEER@, now_secs, now_ms, appended(listed, self@))
                                == chunk_reports(listed, fid, QUEUED_TRANSFER_PEER@, now_secs, now_ms, appended(listed, self@)));
                        }
                    } else {
                        self.transfer_queue.last_check = now_ms;
                        assert(appended(pre, self@) =~= Seq::<Outbound>::empty());
                    }
                },
                None => {
                    self.transfer_queue.last_check = now_ms;
                    assert(appended(pre, self@) =~= Seq::<Outbound>::empty());
                },
            }
        } else {
            assert(appended(pre, self@) =~= Seq::<Outbound>::empty());
        }
    }
    /// The transfers a cleanup drops: those that failed too often or were cancelled.
    pub fn discarded_transfers(&self) -> (r: Vec<String>)
        requires
            self.wf(),
        ensures
            forall|f: Seq<char>| #[trigger] strs(r@).contains(f) <==> transfer_discarded(self@, f),
    {
        proof {
            self.file_transfers.lemma_keys();
        }
        let ghost ks = self.file_transfers.key_seq();
        let n = self.file_transfers.len();
        let mut r: Vec<String> = Vec::new();
        let mut i: usize = 0;
        while i < n
            invariant
                self.wf(),
                ks == self.file_transfers.key_seq(),
                n == ks.len(),
                n == self.file_transfers@.dom().len(),
                forall|k: Seq<char>| self.file_transfers@.contains_key(k) <==> #[trigger] ks.contains(k),
                i <= n,
                forall|f: Seq<char>|
                    #[trigger] strs(r@).contains(f) <==> ks.take(i as int).contains(f) && transfer_discarded(self@, f),
            decreases n - i,
        {
            let key = self.file_transfers.key_at(i);
            let t = self.file_transfers.value_at(i);
            proof {
                assert(ks.take(i + 1) =~= ks.take(i as int).push(key@));
            }
            let ghost before = r@;
            if !(t.error_count < MAX_ERROR_RETRIES && !t.is_cancelled) {
                r.push(key.clone());
                assert(strs(r@) =~= strs(before).push(key@));
            }
            proof {
                assert forall|f: Seq<char>|
                    #[trigger] strs(r@).contains(f) <==> ks.take(i + 1).contains(f) && transfer_discarded(self@, f) by {
                    let longer = ks.take(i + 1);
                    let shorter = ks.take(i as int);
                    if longer.contains(f) && f != key@ {
                        let j = choose|j: int| 0 <= j < longer.len() && longer[j] == f;
                        assert(shorter[j] == f);
                    }
                    if shorter.contains(f) {
                        let j = choose|j: int| 0 <= j < shorter.len() && shorter[j] == f;
                        assert(longer[j] == f);
                    }
                    assert(longer[i as int] == key@);
                    if strs(r@).contains(f) && !strs(before).contains(f) {
                        assert(f == key@) by {
                            let j = choose|j: int| 0 <= j < strs(r@).len() && strs(r@)[j] == f;
                            if j < strs(before).len() {
                                assert(strs(before)[j] == f);
                            }
                        }
                    }
                    if f == key@ && transfer_discarded(self@, f) {
                        assert(strs(r@)[strs(r@).len() - 1] == f);
                    }
                    if strs(before).contains(f) {
                        let j = choose|j: int| 0 <= j < strs(before).len() && strs(before)[j] == f;
                        assert(strs(r@)[j] == f);
                    }
                }
            }
            i = i + 1;
        }
        assert(ks.take(n as int) =~= ks);
        r
    }

    /// Drops, at `now_secs` (seconds) and `now_ms` (milliseconds), the
    /// expired messages and deliveries, the inactive groups, the transfers
    /// that failed too often or were cancelled with everything kept for
    /// them, and the rate-limit stamps outside the window.
    pub fn cleanup_expired_messages_at(&mut self, now_secs: u64, now_ms: u64)
        requires
            old(self).wf(),
        ensures
            final(self).wf(),
            final(self)@ == cleaned(old(self)@, now_secs, now_ms),
    {
        let ghost pre = self@;
        let live_message = |i: &MessageInfo| -> (b: bool)
            ensures
                b == !expired(now_secs, i.timestamp, i.expiry),
            { !(now_secs >= i.timestamp && now_secs - i.timestamp > i.expiry) };
        self.message_tracker.retain(
            live_message,
            Ghost(|i: MessageInfo| !expired(now_secs, i.timestamp, i.expiry)),
        );
        let live_delivery = |d: &DeliveryInfo| -> (b: bool)
            ensures
                b == !expired(now_secs, d.timestamp, 60),
            { !(now_secs >= d.timestamp && now_secs - d.timestamp > 60) };
        self.delivery_tracker.retain(
            live_delivery,
            Ghost(|d: DeliveryInfo| !expired(now_secs, d.timestamp, 60)),
        );
        let live_group = |g: &GroupInfo| -> (b: bool)
            ensures
                b == !expired(now_secs, g.last_activity, 60),
            { !(now_secs >= g.last_activity && now_secs - g.last_activity > 60) };
        self.group_members.retain(
            live_group,
            Ghost(|g: GroupInfo| !expired(now_secs, g.last_activity, 60)),
        );
        let discarded = self.discarded_transfers();
        let kept_transfer = |t: &FileTransferInfo| -> (b: bool)
            ensures
                b == (t.error_count < 3 && !t.is_cancelled),
            { t.error_count < 3 && !t.is_cancelled };
        self.file_transfers.retain(
            kept_transfer,
            Ghost(|t: FileTransferInfo| t.error_count < 3 && !t.is_cancelled),
        );
        let ghost mid = self@;
        let ghost a0 = mid.allocations;
        let ghost q0 = mid.transfer_queue;
        let ghost p0 = mid.transfer_priorities;
        let ghost names = strs(discarded@);
        proof {
            assert(keep_keys(a0, |f: Seq<char>| !names.take(0).contains(f)) =~= a0);
            lemma_filter_all(q0, |f: Seq<char>| !names.take(0).contains(f));
            lemma_filter_all(p0, |p: PriorityState| !names.take(0).contains(p.file_id));
            assert(self@ =~= (HandlerState {
                allocations: keep_keys(a0, |f: Seq<char>| !names.take(0).contains(f)),
                transfer_queue: q0.filter(|f: Seq<char>| !names.take(0).contains(f)),
                transfer_priorities: p0.filter(|p: PriorityState| !names.take(0).contains(p.file_id)),
                ..mid
            }));
        }
        let mut i: usize = 0;
        while i < discarded.len()
            invariant
                self.wf(),
                i <= discarded@.len(),
                names == strs(discarded@),
                self@ == (HandlerState {
                    allocations: keep_keys(a0, |f: Seq<char>| !names.take(i as int).contains(f)),
                    transfer_queue: q0.filter(|f: Seq<char>| !names.take(i as int).contains(f)),
                    transfer_priorities: p0.filter(|p: PriorityState| !names.take(i as int).contains(p.file_id)),
                    ..mid
                }),
            decreases discarded@.len() - i,
        {
            let id = discarded[i].as_str();
            let ghost x = names[i as int];
            let ghost before = self@;
            self.bandwidth_manager.release_bandwidth(id);
            self.transfer_queue.remove_transfer(id);
            let ghost after_queue = self@;
            self.drop_priorities(id);
            proof {
                let shorter = names.take(i as int);
                let longer = names.take(i + 1);
                assert(longer =~= shorter.push(x));
                assert forall|f: Seq<char>| #[trigger] longer.contains(f) <==> (shorter.contains(f) || f == x) by {
                    if longer.contains(f) && f != x {
                        let j = choose|j: int| 0 <= j < longer.len() && longer[j] == f;
                        assert(shorter[j] == f);
                    }
                    if shorter.contains(f) {
                        let j = choose|j: int| 0 <= j < shorter.len() && shorter[j] == f;
                        assert(longer[j] == f);
                    }
                    assert(longer[i as int] == x);
                }
                assert(self@.allocations =~= keep_keys(a0, |f: Seq<char>| !longer.contains(f)));
                assert(id@ == x);
                assert((|q: Seq<char>| q != id@) =~= (|q: Seq<char>| q != x));
                assert(after_queue.transfer_queue == before.transfer_queue.filter(|q: Seq<char>| q != x));
                lemma_filter_filter(
                    q0,
                    |f: Seq<char>| !shorter.contains(f),
                    |q: Seq<char>| q != x,
                    |f: Seq<char>| !longer.contains(f),
                );
                assert(self@.transfer_queue == q0.filter(|f: Seq<char>| !longer.contains(f)));
                lemma_filter_filter(
                    p0,
                    |p: PriorityState| !shorter.contains(p.file_id),
                    |p: PriorityState| p.file_id != x,
                    |p: PriorityState| !longer.contains(p.file_id),
                );
                assert(self@.transfer_priorities == p0.filter(|p: PriorityState| !longer.contains(p.file_id)));
            }
            i = i + 1;
        }
        self.rate_limiter.cleanup_at(now_ms);
        proof {
            assert(names.take(i as int) =~= names);
            assert((|f: Seq<char>| !names.contains(f)) =~= (|f: Seq<char>| !transfer_discarded(pre, f)));
            assert((|p: PriorityState| !names.contains(p.file_id)) =~= (|p: PriorityState| !transfer_discarded(pre, p.file_id)));
            assert(self@.rate_limits =~= limits_cleaned(pre.rate_limits, now_ms));
            assert(self@.message_tracker =~= cleaned(pre, now_secs, now_ms).message_tracker);
            assert(self@.delivery_tracker =~= cleaned(pre, now_secs, now_ms).delivery_tracker);
            assert(self@.group_members =~= cleaned(pre, now_secs, now_ms).group_members);
            assert(self@.file_transfers =~= cleaned(pre, now_secs, now_ms).file_transfers);
            assert(self@.allocations =~= cleaned(pre, now_secs, now_ms).allocations);
        }
    }
}

} // verus!
