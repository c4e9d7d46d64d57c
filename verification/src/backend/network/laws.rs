//! Properties of the protocol handler that span several operations or hold
//! of every state.
use crate::backend::network::dispatch::{
    admitted, expiry_reported, limit_checked, limit_stamps, message_handled,
};
use crate::backend::network::handler::{
    appended, chunk_missing, chunk_received, chunks_requested, cleaned, completes, delivery_confirmed,
    evolves, granted, group_full, joined, leave_notice, left, others, recorded, select_from, selection,
    transfer_runs, with_member,
};
use crate::backend::network::protocol::{
    expired, grant_in, live_allocations, map_sum, priority_order, recent, within_window, HandlerState, PriorityState,
    ControlCommand, Outbound, ProtocolError, ProtocolMessage, CHUNK_SIZE, MAX_CHUNK_RETRIES,
    MAX_MESSAGE_SIZE, MAX_PARALLEL_CHUNKS, MESSAGE_EXPIRY_SECONDS,
    RATE_LIMIT_CHUNKS_PER_SEC, RATE_LIMIT_WINDOW_MS,
};
use vstd::prelude::*;

verus! {

/// A delivery recorded with a message awaits confirmation, and once
/// confirmed it is no longer awaited while the message stays recorded.
pub proof fn law_confirmation_forgets_delivery(
    s: HandlerState,
    id: String,
    timestamp: u64,
    expiry: u64,
    delivery_id: String,
)
    ensures
        recorded(s, id, timestamp, expiry, Some(delivery_id)).delivery_tracker.contains_key(delivery_id@),
        !delivery_confirmed(recorded(s, id, timestamp, expiry, Some(delivery_id)), delivery_id@).delivery_tracker.contains_key(
            delivery_id@,
        ),
        delivery_confirmed(recorded(s, id, timestamp, expiry, Some(delivery_id)), delivery_id@).message_tracker.contains_key(
            id@,
        ),
{
}

/// A cleanup keeps exactly the recorded messages that have not expired.
pub proof fn law_cleanup_keeps_live_messages(s: HandlerState, now_secs: u64, now_ms: u64, id: Seq<char>)
    ensures
        cleaned(s, now_secs, now_ms).message_tracker.contains_key(id) <==> s.message_tracker.contains_key(id)
            && !expired(now_secs, s.message_tracker[id].timestamp, s.message_tracker[id].expiry),
{
}

/// An expired text message is not recorded: it is forgotten and its sender told.
pub proof fn law_expired_text_not_recorded(
    pre: HandlerState,
    post: HandlerState,
    r: Result<(), ProtocolError>,
    peer: Seq<char>,
    msg: ProtocolMessage,
    len: usize,
    now_secs: u64,
    now_ms: u64,
)
    requires
        message_handled(pre, post, r, peer, msg, len, now_secs, now_ms),
        len <= MAX_MESSAGE_SIZE,
        msg is Text,
        expired(now_secs, msg->Text_timestamp, msg->Text_expiry),
    ensures
        r is Ok,
        !post.message_tracker.contains_key(msg->Text_ephemeral_id@),
        post.delivery_tracker == pre.delivery_tracker,
{
}

/// A message longer than the limit is refused and changes nothing.
pub proof fn law_oversized_message_refused(
    pre: HandlerState,
    post: HandlerState,
    r: Result<(), ProtocolError>,
    peer: Seq<char>,
    msg: ProtocolMessage,
    len: usize,
    now_secs: u64,
    now_ms: u64,
)
    requires
        message_handled(pre, post, r, peer, msg, len, now_secs, now_ms),
        len > MAX_MESSAGE_SIZE,
    ensures
        r == Err::<(), ProtocolError>(ProtocolError::MessageTooLarge),
        post == pre,
{
}

/// A peer that joins a group that is not full is one of its members.
pub proof fn law_join_makes_member(s: HandlerState, peer: Seq<char>, g: Seq<char>, now: u64, eph: Seq<char>)
    requires
        !group_full(s, g),
    ensures
        joined(s, peer, g, now, eph).group_members.contains_key(g),
        joined(s, peer, g, now, eph).group_members[g].members.contains(peer),
        forall|m: Seq<char>|
            s.group_members.contains_key(g) && #[trigger] s.group_members[g].members.contains(m)
                ==> joined(s, peer, g, now, eph).group_members[g].members.contains(m),
{
    let members = if s.group_members.contains_key(g) {
        s.group_members[g].members
    } else {
        Seq::empty()
    };
    if !members.contains(peer) {
        assert(members.push(peer)[members.len() as int] == peer);
        assert forall|m: Seq<char>| members.contains(m) implies #[trigger] members.push(peer).contains(m) by {
            let i = choose|i: int| 0 <= i < members.len() && members[i] == m;
            assert(members.push(peer)[i] == m);
        }
    }
}

/// A peer that leaves a group is no longer a member, the other members
/// stay, and a group left without members is dropped.
pub proof fn law_leave_removes_member(s: HandlerState, peer: Seq<char>, g: Seq<char>, now: u64, m: Seq<char>)
    requires
        s.group_members.contains_key(g),
    ensures
        left(s, peer, g, now).group_members.contains_key(g) ==> !left(s, peer, g, now).group_members[g].members.contains(peer),
        m != peer && s.group_members[g].members.contains(m) ==> left(s, peer, g, now).group_members.contains_key(g)
            && left(s, peer, g, now).group_members[g].members.contains(m),
        !left(s, peer, g, now).group_members.contains_key(g) <==> others(s.group_members[g].members, peer).len() == 0,
{
    broadcast use vstd::seq_lib::group_filter_ensures;
    broadcast use vstd::seq::Seq::lemma_filter_contains_rev;

    let members = s.group_members[g].members;
    let rest = others(members, peer);
    if m != peer && members.contains(m) {
        let i = choose|i: int| 0 <= i < members.len() && members[i] == m;
        assert(rest.contains(members[i]));
        assert(rest.len() > 0);
    }
    if rest.contains(peer) {
        let i = choose|i: int| 0 <= i < rest.len() && rest[i] == peer;
        assert(rest[i] != peer);
    }
}

/// Receiving the chunk that completes a transfer marks it complete, and a
/// received chunk stays received.
pub proof fn law_chunk_completion(s: HandlerState, f: Seq<char>, c: u32, now: u64)
    requires
        s.file_transfers.contains_key(f),
    ensures
        chunk_received(s, f, c, now).file_transfers[f].received_chunks == s.file_transfers[f].received_chunks.insert(c),
        completes(s, f, c) ==> chunk_received(s, f, c, now).file_transfers[f].is_complete,
{
}

/// Missing chunks are retried `MAX_CHUNK_RETRIES` times; the next report
/// drops the transfer.
pub proof fn law_missing_chunk_retries(s: HandlerState, f: Seq<char>)
    requires
        s.file_transfers.contains_key(f),
        s.file_transfers[f].retry_count <= MAX_CHUNK_RETRIES,
    ensures
        s.file_transfers[f].retry_count < MAX_CHUNK_RETRIES ==> chunk_missing(s, f).file_transfers.contains_key(f)
            && chunk_missing(s, f).file_transfers[f].retry_count == s.file_transfers[f].retry_count + 1,
        s.file_transfers[f].retry_count == MAX_CHUNK_RETRIES ==> !chunk_missing(s, f).file_transfers.contains_key(f),
{
}

/// No file ever has more rate-limit stamps than the limit allows: a check
/// of a file within the limit keeps it within the limit, and it admits a
/// request exactly when fewer stamps lie within the window.
pub proof fn law_rate_limit_bounded(s: HandlerState, f: Seq<char>, now: u64)
    requires
        limit_stamps(s.rate_limits, f).len() <= RATE_LIMIT_CHUNKS_PER_SEC,
    ensures
        limit_checked(s, f, now).rate_limits[f].len() <= RATE_LIMIT_CHUNKS_PER_SEC,
        admitted(s, f, now) <==> recent(limit_stamps(s.rate_limits, f), now, RATE_LIMIT_WINDOW_MS).len()
            < RATE_LIMIT_CHUNKS_PER_SEC,
{
    let stamps = limit_stamps(s.rate_limits, f);
    stamps.lemma_filter_len(|t: u64| within_window(now, t, RATE_LIMIT_WINDOW_MS));
}

/// A grant never exceeds the request nor the total bandwidth.
pub proof fn law_grant_bounded(m: Map<Seq<char>, u64>, total: u64, requested: u64, now: u64)
    requires
        m.dom().finite(),
    ensures
        0 <= grant_in(m, total, requested, now) <= requested,
        grant_in(m, total, requested, now) <= total,
{
    let live = live_allocations(m, now);
    assert(live.dom().subset_of(m.dom()));
    vstd::set_lib::lemma_len_subset(live.dom(), m.dom());
    lemma_map_sum_nonnegative(live);
}

/// A sum of values is never negative.
proof fn lemma_map_sum_nonnegative(m: Map<Seq<char>, u64>)
    requires
        m.dom().finite(),
    ensures
        map_sum(m) >= 0,
    decreases m.dom().len(),
{
    if m.dom().len() > 0 {
        let k = m.dom().choose();
        lemma_map_sum_nonnegative(m.remove(k));
    }
}

/// The scheduling order of priority entries is antisymmetric: one entry
/// runs before another exactly when the other runs after it.
pub proof fn law_priority_order_antisymmetric(a: PriorityState, b: PriorityState)
    ensures
        priority_order(a, b) == -priority_order(b, a),
        priority_order(a, a) == 0,
{
}

/// Taking the front of a queue without repetitions out moves every other
/// file one place forward.
pub proof fn law_queue_front_removal(q: Seq<Seq<char>>)
    requires
        q.len() > 0,
        q.no_duplicates(),
    ensures
        q.filter(|id: Seq<char>| id != q[0]) == q.drop_first(),
{
    let front = q[0];
    assert((|id: Seq<char>| id != q[0]) =~= (|id: Seq<char>| id != front));
    lemma_front_removal(q, front, |id: Seq<char>| id != front);
}

proof fn lemma_front_removal(q: Seq<Seq<char>>, front: Seq<char>, pred: spec_fn(Seq<char>) -> bool)
    requires
        q.len() > 0,
        q.no_duplicates(),
        q[0] == front,
        forall|x: Seq<char>| #[trigger] pred(x) == (x != front),
    ensures
        q.filter(pred) == q.drop_first(),
    decreases q.len(),
{
    reveal_with_fuel(Seq::filter, 1);
    if q.len() == 1 {
        assert(q.drop_last() =~= Seq::<Seq<char>>::empty());
        assert(q.drop_last().filter(pred) =~= Seq::<Seq<char>>::empty());
        assert(q.drop_first() =~= Seq::<Seq<char>>::empty());
    } else {
        let t = q.drop_last();
        assert(t[0] == front);
        assert(t.no_duplicates());
        lemma_front_removal(t, front, pred);
        assert(q.last() != front);
        assert(q.drop_first() =~= t.drop_first().push(q.last()));
    }
}

/// The bytes of the chunks picked before the `i`-th one in a round.
pub open spec fn bytes_before(i: int) -> int {
    i * CHUNK_SIZE
}

/// One round of chunk requests for a running transfer stays within the free
/// parallel slots and the granted bandwidth: it picks only pending chunks at
/// or past the resume point that are not already in flight, no more of them
/// than there are free slots, and no chunk once the bytes already picked
/// (`CHUNK_SIZE` each) reach the grant.  The picked chunks are then in
/// flight and no longer pending.
pub proof fn law_request_round_within_grant(s: HandlerState, f: Seq<char>, now: u64)
    requires
        transfer_runs(s, f),
        s.file_transfers[f].active_chunks.len() <= MAX_PARALLEL_CHUNKS,
    ensures
        ({
            let t = s.file_transfers[f];
            let picked = selection(s, f, now);
            let post = chunks_requested(s, f, now).file_transfers[f];
            &&& picked.len() <= MAX_PARALLEL_CHUNKS - t.active_chunks.len()
            &&& forall|i: int| 0 <= i < picked.len() ==> #[trigger] bytes_before(i) < granted(s, f, now)
            &&& forall|i: int|
                0 <= i < picked.len() ==> t.pending_chunks.contains(#[trigger] picked[i]) && picked[i]
                    >= t.resume_point && !t.active_chunks.contains(picked[i])
            &&& granted(s, f, now) > 0 ==> forall|i: int|
                0 <= i < picked.len() ==> post.active_chunks.contains(#[trigger] picked[i])
                    && !post.pending_chunks.contains(picked[i])
        }),
{
    let t = s.file_transfers[f];
    let slots = MAX_PARALLEL_CHUNKS - t.active_chunks.len();
    let budget = granted(s, f, now);
    lemma_select_within(t.pending_chunks, t.active_chunks, t.resume_point, slots, budget);
    let picked = selection(s, f, now);
    if budget > 0 {
        let post = chunks_requested(s, f, now).file_transfers[f];
        assert forall|i: int| 0 <= i < picked.len() implies post.active_chunks.contains(#[trigger] picked[i])
            && !post.pending_chunks.contains(picked[i]) by {
            assert(picked.contains(picked[i]));
            assert(picked.to_set().contains(picked[i]));
            let keep = |c: u32| !picked.contains(c);
            if post.pending_chunks.contains(picked[i]) {
                t.pending_chunks.lemma_filter_contains_rev(keep, picked[i]);
            }
        }
    }
}

/// What `select_from` picks: chunks of `pending` at or past `resume`, not in
/// `active`, at most `slots` of them (when `slots` is not negative), the
/// `i`-th only while `i` chunks' worth of bytes stay below `budget`.
proof fn lemma_select_within(pending: Seq<u32>, active: Set<u32>, resume: u64, slots: int, budget: int)
    ensures
        ({
            let picked = select_from(pending, active, resume, slots, budget);
            &&& slots >= 0 ==> picked.len() <= slots
            &&& forall|i: int| 0 <= i < picked.len() ==> #[trigger] bytes_before(i) < budget
            &&& forall|i: int|
                0 <= i < picked.len() ==> pending.contains(#[trigger] picked[i]) && picked[i] >= resume
                    && !active.contains(picked[i])
        }),
    decreases pending.len(),
{
    if pending.len() > 0 {
        let c = pending[0];
        let rest = pending.drop_first();
        let picked = select_from(pending, active, resume, slots, budget);
        assert forall|x: u32| rest.contains(x) implies pending.contains(x) by {
            let j = choose|j: int| 0 <= j < rest.len() && rest[j] == x;
            assert(pending[j + 1] == x);
        }
        if c < resume || (slots > 0 && budget > 0 && active.contains(c)) {
            lemma_select_within(rest, active, resume, slots, budget);
        } else if slots > 0 && budget > 0 {
            lemma_select_within(rest, active, resume, slots - 1, budget - CHUNK_SIZE);
            let tail = select_from(rest, active, resume, slots - 1, budget - CHUNK_SIZE);
            assert(picked == seq![c] + tail);
            assert forall|i: int| 0 <= i < picked.len() implies #[trigger] bytes_before(i) < budget by {
                if i > 0 {
                    assert(bytes_before(i - 1) < budget - CHUNK_SIZE);
                }
            }
            assert forall|i: int| 0 <= i < picked.len() implies pending.contains(#[trigger] picked[i])
                && picked[i] >= resume && !active.contains(picked[i]) by {
                if i == 0 {
                    assert(pending[0] == c);
                } else {
                    assert(picked[i] == tail[i - 1]);
                }
            }
        }
    }
}

/// Handling a progress report on a known transfer never makes it forget a
/// chunk: every chunk it had received is still received afterwards, and an
/// accepted, unexpired report adds the chunks it reports.
pub proof fn law_progress_keeps_received_chunks(
    pre: HandlerState,
    post: HandlerState,
    r: Result<(), ProtocolError>,
    peer: Seq<char>,
    msg: ProtocolMessage,
    len: usize,
    now_secs: u64,
    now_ms: u64,
)
    requires
        message_handled(pre, post, r, peer, msg, len, now_secs, now_ms),
        msg is FileProgress,
        pre.file_transfers.contains_key(msg->FileProgress_file_id@),
    ensures
        post.file_transfers.contains_key(msg->FileProgress_file_id@),
        pre.file_transfers[msg->FileProgress_file_id@].received_chunks.subset_of(
            post.file_transfers[msg->FileProgress_file_id@].received_chunks,
        ),
        len <= MAX_MESSAGE_SIZE && now_secs <= msg->FileProgress_timestamp + msg->FileProgress_expiry
            ==> msg->FileProgress_received_chunks@.subset_of(
            post.file_transfers[msg->FileProgress_file_id@].received_chunks,
        ),
{
}

/// `o` sends `member` a control message saying that someone left group `g`.
pub open spec fn is_leave_notice_to(o: Outbound, member: Seq<char>, g: Seq<char>) -> bool {
    match o {
        Outbound::Peer(p, m) => p@ == member && match m {
            ProtocolMessage::Control { command, .. } => match command {
                ControlCommand::GroupLeave(group) => group@ == g,
                _ => false,
            },
            _ => false,
        },
        _ => false,
    }
}

/// When a peer leaves an existing group, each member that remains (the
/// members other than the peer, in the order of the group) is sent exactly
/// one `GroupLeave` notice for that group, and nothing else is sent; the
/// members that remain are the group's members afterwards.
pub proof fn law_leave_notifies_remaining_members(
    pre: HandlerState,
    post: HandlerState,
    peer: Seq<char>,
    g: Seq<char>,
    now: u64,
)
    requires
        pre.group_members.contains_key(g),
        evolves(left(pre, peer, g, now), post),
        leave_notice(pre, peer, g, appended(pre, post)),
    ensures
        ({
            let rest = others(pre.group_members[g].members, peer);
            let out = appended(pre, post);
            &&& out.len() == rest.len()
            &&& forall|i: int| 0 <= i < out.len() ==> is_leave_notice_to(#[trigger] out[i], rest[i], g)
            &&& rest.len() > 0 ==> post.group_members.contains_key(g) && post.group_members[g].members == rest
            &&& forall|i: int| 0 <= i < rest.len() ==> #[trigger] rest[i] != peer
        }),
{
    let rest = others(pre.group_members[g].members, peer);
    let out = appended(pre, post);
    assert forall|i: int| 0 <= i < out.len() implies is_leave_notice_to(#[trigger] out[i], rest[i], g) by {
        let m = out[i]->Peer_1;
        assert(m->command@ == crate::backend::network::protocol::CommandView::GroupLeave(g));
    }
}

/// A cleanup at `now_secs` keeps every group whose last activity lies within
/// `MESSAGE_EXPIRY_SECONDS` of `now_secs`, unchanged, whenever it was
/// created, and drops every group inactive for longer.
pub proof fn law_cleanup_keeps_active_groups(s: HandlerState, now_secs: u64, now_ms: u64, g: Seq<char>)
    requires
        s.group_members.contains_key(g),
    ensures
        now_secs <= s.group_members[g].last_activity + MESSAGE_EXPIRY_SECONDS ==> cleaned(
            s,
            now_secs,
            now_ms,
        ).group_members.contains_key(g) && cleaned(s, now_secs, now_ms).group_members[g] == s.group_members[g],
        now_secs > s.group_members[g].last_activity + MESSAGE_EXPIRY_SECONDS ==> !cleaned(
            s,
            now_secs,
            now_ms,
        ).group_members.contains_key(g),
{
}

} // verus!
