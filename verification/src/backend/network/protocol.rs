//! The messaging protocol: ephemeral text and group messages with delivery
//! confirmations, and chunked file transfers with rate limiting, bandwidth
//! allocation, priorities, resumption and error recovery.
//!
//! The handler is a state machine.  Each call updates the handler's tables
//! and appends what it wants done to its outbox: messages for the local
//! consumer, messages for peers, and the floating-point computations of
//! transfer speed that the caller performs and feeds back.
use crate::backend::crypto::CryptoService;
use crate::clock::{now_millis, now_secs};
use crate::collections::{str_equals, ChunkSet, StrMap, StrSet};
use crate::hex::{format_lower_hex, lower_hex};
use crate::primitives::thread_rng_u64;
use vstd::prelude::*;

verus! {

/// Seconds a message lives unless it says otherwise.
pub const MESSAGE_EXPIRY_SECONDS: u64 = 60;

/// The largest encoded message, and the largest file, in bytes.
pub const MAX_MESSAGE_SIZE: usize = 1024 * 1024;

/// Seconds to wait for a delivery confirmation.
pub const DELIVERY_CONFIRMATION_TIMEOUT_SECS: u64 = 30;

/// The most members a group can have.
pub const MAX_GROUP_SIZE: usize = 50;

/// Bytes per file chunk.
pub const CHUNK_SIZE: usize = 1024 * 64;

/// Missing-chunk reports tolerated before a transfer fails.
pub const MAX_CHUNK_RETRIES: u32 = 3;

/// Chunks in flight at once for one transfer.
pub const MAX_PARALLEL_CHUNKS: usize = 4;

/// Chunk requests served per file and rate-limit window.
pub const RATE_LIMIT_CHUNKS_PER_SEC: u32 = 10;

/// Length of the rate-limit window in milliseconds.
pub const RATE_LIMIT_WINDOW_MS: u64 = 1000;

/// The least bandwidth a speed adaptation assigns.
pub const MIN_BANDWIDTH_BYTES_PER_SEC: u64 = 1024;

/// The most bandwidth a speed adaptation assigns, and the total to share.
pub const MAX_BANDWIDTH_BYTES_PER_SEC: u64 = 1024 * 1024;

/// Milliseconds between progress reports.
pub const PROGRESS_UPDATE_INTERVAL_MS: u64 = 1000;

/// Number of transfer priority levels.
pub const PRIORITY_LEVELS: u8 = 5;

/// Milliseconds between speed adaptations.
pub const SPEED_ADAPTATION_INTERVAL_MS: u64 = 5000;

/// Milliseconds between transfer-queue checks.
pub const QUEUE_CHECK_INTERVAL_MS: u64 = 1000;

/// Delay before a failed transfer is retried.
pub const ERROR_RECOVERY_DELAY_MS: u64 = 1000;

/// Reported errors tolerated before a transfer fails.
pub const MAX_ERROR_RETRIES: u32 = 3;

/// A piece of a file.
#[derive(Debug)]
pub struct FileChunk {
    pub index: u32,
    pub data: Vec<u8>,
    pub hash: String,
}

/// Commands carried by control messages.
#[derive(Debug)]
pub enum ControlCommand {
    CircuitExtend,
    CircuitExtended,
    CircuitDestroy,
    KeepAlive,
    Error,
    MessageReceived(String),
    MessageExpired(String),
    DeliveryConfirmed(String),
    DeliveryFailed(String, String),
    GroupJoin(String),
    GroupLeave(String),
    GroupMessageReceived(String, String),
    GroupMessageExpired(String, String),
    /// file id, chunk index
    ChunkReceived(String, u32),
    /// file id, chunk index
    ChunkMissing(String, u32),
    /// file id
    FileComplete(String),
    /// file id, reason
    FileFailed(String, String),
}

/// The messages of the protocol.  Transfer speeds are IEEE-754 doubles and
/// are carried as their bit patterns (`f64::to_bits`).
#[derive(Debug)]
pub enum ProtocolMessage {
    Text {
        content: String,
        timestamp: u64,
        expiry: u64,
        ephemeral_id: String,
        delivery_id: Option<String>,
    },
    Group {
        group_id: String,
        content: String,
        timestamp: u64,
        expiry: u64,
        ephemeral_id: String,
        delivery_id: Option<String>,
        sender_ephemeral_id: String,
    },
    File {
        name: String,
        size: u64,
        hash: String,
        chunks: Vec<FileChunk>,
        timestamp: u64,
        expiry: u64,
        ephemeral_id: String,
        delivery_id: Option<String>,
    },
    FileProgress {
        file_id: String,
        total_chunks: u32,
        received_chunks: ChunkSet,
        timestamp: u64,
        expiry: u64,
        ephemeral_id: String,
    },
    FileResume {
        file_id: String,
        missing_chunks: ChunkSet,
        timestamp: u64,
        expiry: u64,
        ephemeral_id: String,
    },
    Control { command: ControlCommand, data: Vec<u8>, ephemeral_id: String },
    FileChunkRequest {
        file_id: String,
        chunk_indices: Vec<u32>,
        timestamp: u64,
        expiry: u64,
        ephemeral_id: String,
    },
    FileChunkResponse {
        file_id: String,
        chunks: Vec<FileChunk>,
        timestamp: u64,
        expiry: u64,
        ephemeral_id: String,
    },
    RateLimitExceeded { file_id: String, timestamp: u64, expiry: u64, ephemeral_id: String },
    FileTransferCancel {
        file_id: String,
        reason: String,
        timestamp: u64,
        expiry: u64,
        ephemeral_id: String,
    },
    FileTransferPriority {
        file_id: String,
        priority: u8,
        timestamp: u64,
        expiry: u64,
        ephemeral_id: String,
    },
    FileTransferBandwidth {
        file_id: String,
        bandwidth_limit: u64,
        timestamp: u64,
        expiry: u64,
        ephemeral_id: String,
    },
    FileTransferProgress {
        file_id: String,
        bytes_transferred: u64,
        total_bytes: u64,
        /// bits of an `f64`
        speed: u64,
        estimated_time: u64,
        timestamp: u64,
        expiry: u64,
        ephemeral_id: String,
    },
    FileTransferResume {
        file_id: String,
        resume_point: u64,
        timestamp: u64,
        expiry: u64,
        ephemeral_id: String,
    },
    FileTransferSpeedAdapt {
        file_id: String,
        /// bits of an `f64`
        target_speed: u64,
        timestamp: u64,
        expiry: u64,
        ephemeral_id: String,
    },
    FileTransferQueueUpdate {
        file_id: String,
        queue_position: u32,
        timestamp: u64,
        expiry: u64,
        ephemeral_id: String,
    },
    FileTransferError {
        file_id: String,
        error_type: String,
        retry_count: u32,
        timestamp: u64,
        expiry: u64,
        ephemeral_id: String,
    },
}

/// `now - t < window`, read over the integers.
pub open spec fn within_window(now: u64, t: u64, window: u64) -> bool {
    now - t < window
}

/// The time stamps of `ts` that lie within `window` of `now`, in order.
pub open spec fn recent(ts: Seq<u64>, now: u64, window: u64) -> Seq<u64> {
    ts.filter(|t: u64| within_window(now, t, window))
}

/// The stamps stored under `k`, or none.
pub open spec fn stamps_of(m: Map<Seq<char>, Vec<u64>>, k: Seq<char>) -> Seq<u64> {
    if m.contains_key(k) {
        m[k]@
    } else {
        Seq::empty()
    }
}

/// The time stamps of `ts` within `window` of `now`.
pub fn keep_recent(ts: &Vec<u64>, now: u64, window: u64) -> (r: Vec<u64>)
    ensures
        r@ == recent(ts@, now, window),
{
    let mut r: Vec<u64> = Vec::new();
    let mut i: usize = 0;
    while i < ts.len()
        invariant
            i <= ts@.len(),
            r@ == recent(ts@.take(i as int), now, window),
        decreases ts@.len() - i,
    {
        let t = ts[i];
        proof {
            assert(ts@.take(i + 1) =~= ts@.take(i as int).push(t));
            ts@.take(i as int).lemma_filter_push(t, |t: u64| within_window(now, t, window));
        }
        if t > now || now - t < window {
            r.push(t);
        }
        i = i + 1;
    }
    assert(ts@.take(i as int) =~= ts@);
    r
}

/// Per-file sliding-window limit on chunk requests.
#[derive(Debug)]
pub struct RateLimiter {
    /// For each file, when its recent chunk requests were admitted (ms).
    pub chunks_sent: StrMap<Vec<u64>>,
    pub window_size: u64,
    pub max_chunks: u32,
}

impl RateLimiter {
    /// The table is well formed and no file has more admitted requests than the limit.
    pub open spec fn wf(&self) -> bool {
        &&& self.chunks_sent.wf()
        &&& forall|k: Seq<char>|
            self.chunks_sent@.contains_key(k) ==> #[trigger] self.chunks_sent@[k]@.len()
                <= self.max_chunks
    }

    /// The admission decision and table for a request at time `now`.
    pub open spec fn admits(&self, file_id: Seq<char>, now: u64) -> bool {
        recent(stamps_of(self.chunks_sent@, file_id), now, self.window_size).len() < self.max_chunks
    }

    /// `after` holds the stamps of this limiter that lie within the window
    /// at `now`, and only the files that keep at least one.
    pub open spec fn cleaned_to(&self, after: &Self, now: u64) -> bool {
        &&& forall|k: Seq<char>|
            #[trigger] after.chunks_sent@.contains_key(k) <==> self.chunks_sent@.contains_key(k)
                && recent(self.chunks_sent@[k]@, now, self.window_size).len() > 0
        &&& forall|k: Seq<char>|
            #[trigger] after.chunks_sent@.contains_key(k) ==> after.chunks_sent@[k]@ == recent(
                self.chunks_sent@[k]@,
                now,
                self.window_size,
            )
    }

    /// `after` is this limiter after a chunk request for `file_id` at `now`:
    /// the file's stamps older than the window are dropped and `now` is added
    /// when the request is admitted; every other file keeps its stamps.
    pub open spec fn requested_to(&self, after: &Self, file_id: Seq<char>, now: u64) -> bool {
        &&& after.window_size == self.window_size
        &&& after.max_chunks == self.max_chunks
        &&& after.chunks_sent@.dom() == self.chunks_sent@.dom().insert(file_id)
        &&& forall|k: Seq<char>|
            k != file_id && self.chunks_sent@.contains_key(k) ==> #[trigger] after.chunks_sent@[k]
                == self.chunks_sent@[k]
        &&& after.chunks_sent@[file_id]@ == ({
            let kept = recent(stamps_of(self.chunks_sent@, file_id), now, self.window_size);
            if self.admits(file_id, now) {
                kept.push(now)
            } else {
                kept
            }
        })
    }

    /// A limiter with an empty table.
    pub fn new(window_size: u64, max_chunks: u32) -> (r: Self)
        ensures
            r.wf(),
            r.chunks_sent@ == Map::<Seq<char>, Vec<u64>>::empty(),
            r.window_size == window_size,
            r.max_chunks == max_chunks,
    {
        RateLimiter { chunks_sent: StrMap::new(), window_size, max_chunks }
    }

    /// Admits a chunk request for `file_id` at time `now` (ms) if fewer than
    /// `max_chunks` requests lie within the window; stamps older than the
    /// window are dropped either way.
    pub fn can_send_chunks_at(&mut self, file_id: &str, now: u64) -> (r: bool)
        requires
            old(self).wf(),
        ensures
            final(self).wf(),
            final(self).window_size == old(self).window_size,
            final(self).max_chunks == old(self).max_chunks,
            r == old(self).admits(file_id@, now),
            final(self).chunks_sent@.dom() == old(self).chunks_sent@.dom().insert(file_id@),
            forall|k: Seq<char>|
                k != file_id@ && old(self).chunks_sent@.contains_key(k)
                    ==> #[trigger] final(self).chunks_sent@[k] == old(self).chunks_sent@[k],
            final(self).chunks_sent@[file_id@]@ == ({
                let kept = recent(stamps_of(old(self).chunks_sent@, file_id@), now, old(self).window_size);
                if r {
                    kept.push(now)
                } else {
                    kept
                }
            }),
            old(self).requested_to(final(self), file_id@, now),
    {
        let ghost pre = self.chunks_sent@;
        let stamps: Vec<u64> = match self.chunks_sent.remove(file_id) {
            Some(v) => v,
            None => Vec::new(),
        };
        assert(stamps@ == stamps_of(pre, file_id@));
        let mut kept = keep_recent(&stamps, now, self.window_size);
        proof {
            stamps@.lemma_filter_len(|t: u64| within_window(now, t, self.window_size));
        }
        let admitted = kept.len() < self.max_chunks as usize;
        if admitted {
            kept.push(now);
        }
        self.chunks_sent.insert(file_id.to_owned(), kept);
        proof {
            assert(self.chunks_sent@ =~= pre.remove(file_id@).insert(file_id@, kept));
            assert(self.chunks_sent@.dom() =~= pre.dom().insert(file_id@));
            assert(admitted == old(self).admits(file_id@, now));
        }
        admitted
    }

    /// `can_send_chunks_at` at the current time.
    pub fn can_send_chunks(&mut self, file_id: &str) -> (r: bool)
        requires
            old(self).wf(),
        ensures
            final(self).wf(),
            final(self).window_size == old(self).window_size,
            final(self).max_chunks == old(self).max_chunks,
            exists|now: u64|
                r == old(self).admits(file_id@, now) && #[trigger] old(self).requested_to(final(self), file_id@, now),
    {
        let now = now_millis();
        self.can_send_chunks_at(file_id, now)
    }

    /// Drops the stamps older than the window at time `now` (ms), and the
    /// files left without any.
    pub fn cleanup_at(&mut self, now: u64)
        requires
            old(self).wf(),
        ensures
            final(self).wf(),
            final(self).window_size == old(self).window_size,
            final(self).max_chunks == old(self).max_chunks,
            old(self).cleaned_to(final(self), now),
    {
        let ghost pre = self.chunks_sent@;
        proof {
            self.chunks_sent.lemma_keys();
        }
        let mut fresh: StrMap<Vec<u64>> = StrMap::new();
        let n = self.chunks_sent.len();
        let mut i: usize = 0;
        while i < n
            invariant
                self.wf(),
                self.chunks_sent@ == pre,
                n == pre.dom().len(),
                n == self.chunks_sent.key_seq().len(),
                self.chunks_sent.key_seq().no_duplicates(),
                forall|k: Seq<char>| pre.contains_key(k) <==> #[trigger] self.chunks_sent.key_seq().contains(k),
                i <= n,
                fresh.wf(),
                forall|k: Seq<char>|
                    #[trigger] fresh@.contains_key(k) <==> self.chunks_sent.key_seq().take(i as int).contains(k)
                        && recent(pre[k]@, now, self.window_size).len() > 0,
                forall|k: Seq<char>|
                    #[trigger] fresh@.contains_key(k) ==> fresh@[k]@ == recent(pre[k]@, now, self.window_size),
            decreases n - i,
        {
            let key = self.chunks_sent.key_at(i);
            let stamps = self.chunks_sent.value_at(i);
            let kept = keep_recent(stamps, now, self.window_size);
            let ghost ks = self.chunks_sent.key_seq();
            proof {
                assert(ks.take(i + 1) =~= ks.take(i as int).push(key@));
            }
            if kept.len() > 0 {
                fresh.insert(key.clone(), kept);
            }
            proof {
                assert forall|k: Seq<char>|
                    #[trigger] fresh@.contains_key(k) <==> ks.take(i + 1).contains(k) && recent(
                        pre[k]@,
                        now,
                        self.window_size,
                    ).len() > 0 by {
                    let longer = ks.take(i + 1);
                    let shorter = ks.take(i as int);
                    if longer.contains(k) && k != key@ {
                        let j = choose|j: int| 0 <= j < longer.len() && #[trigger] longer[j] == k;
                        assert(shorter[j] == k);
                    }
                    if shorter.contains(k) {
                        let j = choose|j: int| 0 <= j < shorter.len() && #[trigger] shorter[j] == k;
                        assert(longer[j] == k);
                    }
                    assert(longer[i as int] == key@);
                }
            }
            i = i + 1;
        }
        proof {
            assert(self.chunks_sent.key_seq().take(n as int) =~= self.chunks_sent.key_seq());
            assert forall|k: Seq<char>| #[trigger] fresh@.contains_key(k) implies fresh@[k]@.len()
                <= self.max_chunks by {
                pre[k]@.lemma_filter_len(|t: u64| within_window(now, t, self.window_size));
            }
        }
        self.chunks_sent = fresh;
    }

    /// `cleanup_at` at the current time.
    pub fn cleanup(&mut self)
        requires
            old(self).wf(),
        ensures
            final(self).wf(),
            final(self).window_size == old(self).window_size,
            final(self).max_chunks == old(self).max_chunks,
            exists|now: u64| #[trigger] old(self).cleaned_to(final(self), now),
    {
        let now = now_millis();
        self.cleanup_at(now);
    }
}

/// The sum of the values of a finite map.
pub open spec fn map_sum(m: Map<Seq<char>, u64>) -> int
    decreases m.dom().len(),
    when m.dom().finite()
{
    if m.dom().len() == 0 {
        0
    } else {
        let k = m.dom().choose();
        m[k] + map_sum(m.remove(k))
    }
}

/// Any key can be taken out first when summing.
pub proof fn lemma_map_sum_remove(m: Map<Seq<char>, u64>, k: Seq<char>)
    requires
        m.dom().finite(),
        m.contains_key(k),
    ensures
        map_sum(m) == m[k] + map_sum(m.remove(k)),
    decreases m.dom().len(),
{
    let c = m.dom().choose();
    assert(m.dom().contains(c));
    if c != k {
        lemma_map_sum_remove(m.remove(c), k);
        lemma_map_sum_remove(m.remove(k), c);
        assert(m.remove(c).remove(k) =~= m.remove(k).remove(c));
        assert(m.remove(k).dom().len() > 0);
    }
}

proof fn lemma_map_sum_empty(m: Map<Seq<char>, u64>)
    requires
        m.dom().finite(),
        m.dom().len() == 0,
    ensures
        map_sum(m) == 0,
{
}

/// The sum of the values of a map, computed over its entries.
pub fn sum_values(m: &StrMap<u64>) -> (s: u128)
    requires
        m.wf(),
    ensures
        s == map_sum(m@),
{
    proof {
        m.lemma_keys();
    }
    let n = m.len();
    let mut s: u128 = 0;
    let mut i: usize = 0;
    let ghost ks = m.key_seq();
    let ghost mut rest = m@;
    assert(ks.skip(0) =~= ks);
    while i < n
        invariant
            m.wf(),
            n == m@.dom().len(),
            ks == m.key_seq(),
            n == ks.len(),
            ks.no_duplicates(),
            forall|k: Seq<char>| m@.contains_key(k) <==> #[trigger] ks.contains(k),
            i <= n,
            rest.dom().finite(),
            forall|k: Seq<char>| #[trigger] rest.contains_key(k) <==> ks.skip(i as int).contains(k),
            forall|k: Seq<char>| #[trigger] rest.contains_key(k) ==> rest[k] == m@[k],
            s + map_sum(rest) == map_sum(m@),
            s <= i * 0xffff_ffff_ffff_ffffu128,
        decreases n - i,
    {
        let k = m.key_at(i);
        let v = *m.value_at(i);
        proof {
            assert(ks.skip(i as int).contains(k@)) by {
                assert(ks.skip(i as int)[0] == ks[i as int]);
            }
            lemma_map_sum_remove(rest, k@);
            let old_rest = rest;
            rest = rest.remove(k@);
            assert forall|kk: Seq<char>| #[trigger] rest.contains_key(kk) <==> ks.skip(i + 1).contains(kk) by {
                let later = ks.skip(i + 1);
                let here = ks.skip(i as int);
                if later.contains(kk) {
                    let j = choose|j: int| 0 <= j < later.len() && #[trigger] later[j] == kk;
                    assert(here[j + 1] == kk);
                    assert(kk != ks[i as int]);
                }
                if rest.contains_key(kk) {
                    assert(here.contains(kk));
                    let j = choose|j: int| 0 <= j < here.len() && #[trigger] here[j] == kk;
                    assert(j != 0);
                    assert(later[j - 1] == kk);
                }
            }
            assert(s + v <= (i + 1) * 0xffff_ffff_ffff_ffffu128) by (nonlinear_arith)
                requires
                    s <= i * 0xffff_ffff_ffff_ffffu128,
                    v <= 0xffff_ffff_ffff_ffffu64,
            ;
            assert((i + 1) * 0xffff_ffff_ffff_ffffu128 <= 0xffff_ffff_ffff_ffff_ffff_ffff_ffff_ffffu128) by (nonlinear_arith)
                requires
                    i < 0x1_0000_0000_0000_0000int,
            ;
        }
        s = s + v as u128;
        i = i + 1;
    }
    proof {
        assert(rest.dom() =~= Set::<Seq<char>>::empty()) by {
            assert forall|k: Seq<char>| !rest.contains_key(k) by {
                assert(ks.skip(n as int).len() == 0);
            }
        }
        lemma_map_sum_empty(rest);
    }
    s
}

/// The allocations of `m` still within the window at `now`.
pub open spec fn live_allocations(m: Map<Seq<char>, u64>, now: u64) -> Map<Seq<char>, u64> {
    Map::new(
        |k: Seq<char>| m.contains_key(k) && within_window(now, m[k], RATE_LIMIT_WINDOW_MS),
        |k: Seq<char>| m[k],
    )
}

/// What is left of `total` at `now` after the live allocations of `m`, or
/// nothing when they exceed it.
pub open spec fn available_in(m: Map<Seq<char>, u64>, total: u64, now: u64) -> int {
    let used = map_sum(live_allocations(m, now));
    if used < total {
        total - used
    } else {
        0
    }
}

/// What an allocation of `requested` at `now` grants: the smaller of the
/// request and what is available.
pub open spec fn grant_in(m: Map<Seq<char>, u64>, total: u64, requested: u64, now: u64) -> int {
    if requested < available_in(m, total, now) {
        requested as int
    } else {
        available_in(m, total, now)
    }
}

/// The allocations after `file_id` asked for `requested` at `now`: the live
/// ones, with `file_id` stamped `now` when something was granted.
pub open spec fn allocations_after(
    m: Map<Seq<char>, u64>,
    total: u64,
    file_id: Seq<char>,
    requested: u64,
    now: u64,
) -> Map<Seq<char>, u64> {
    if grant_in(m, total, requested, now) > 0 {
        live_allocations(m, now).insert(file_id, now)
    } else {
        live_allocations(m, now)
    }
}

/// Grants bandwidth out of a fixed total.  What an allocation counts as
/// used is the sum of the values kept for the transfers seen within the last
/// window, and the value kept for a transfer is the time (ms) of its last
/// grant: so the sum is one of time stamps, not of granted amounts.
#[derive(Debug)]
pub struct BandwidthManager {
    /// For each file, when it last received an allocation (ms).
    pub active_transfers: StrMap<u64>,
    pub total_bandwidth: u64,
    pub last_update: u64,
}

impl BandwidthManager {
    pub open spec fn wf(&self) -> bool {
        self.active_transfers.wf()
    }

    /// The allocations still within the window at `now`.
    pub open spec fn live_at(&self, now: u64) -> Map<Seq<char>, u64> {
        live_allocations(self.active_transfers@, now)
    }

    /// The bandwidth that an allocation at `now` can grant.
    pub open spec fn available_at(&self, now: u64) -> int {
        available_in(self.active_transfers@, self.total_bandwidth, now)
    }

    /// What an allocation of `requested` at `now` grants.
    pub open spec fn grant_at(&self, requested: u64, now: u64) -> int {
        grant_in(self.active_transfers@, self.total_bandwidth, requested, now)
    }

    /// A manager of `total_bandwidth` with no allocation.
    pub fn new(total_bandwidth: u64) -> (r: Self)
        ensures
            r.wf(),
            r.total_bandwidth == total_bandwidth,
            r.active_transfers@ == Map::<Seq<char>, u64>::empty(),
    {
        BandwidthManager { active_transfers: StrMap::new(), total_bandwidth, last_update: now_millis() }
    }

    /// Drops the entries older than the window at `now` (ms), then grants
    /// `file_id` the smaller of `requested` and what is left; a positive
    /// grant records `now` for the file.
    pub fn allocate_bandwidth_at(&mut self, file_id: &str, requested: u64, now: u64) -> (r: u64)
        requires
            old(self).wf(),
        ensures
            final(self).wf(),
            final(self).total_bandwidth == old(self).total_bandwidth,
            final(self).last_update == old(self).last_update,
            r == old(self).grant_at(requested, now),
            final(self).active_transfers@ == if r > 0 {
                old(self).live_at(now).insert(file_id@, now)
            } else {
                old(self).live_at(now)
            },
    {
        let in_window = |t: &u64| -> (b: bool)
            ensures
                b == within_window(now, *t, 1000),
            { *t > now || now - *t < 1000 };
        self.active_transfers.retain(in_window, Ghost(|t: u64| within_window(now, t, 1000)));
        assert(self.active_transfers@ =~= old(self).live_at(now));
        let used = sum_values(&self.active_transfers);
        let available: u64 = if used < self.total_bandwidth as u128 {
            self.total_bandwidth - used as u64
        } else {
            0
        };
        let allocated = if requested < available {
            requested
        } else {
            available
        };
        if allocated > 0 {
            self.active_transfers.insert(file_id.to_owned(), now);
        }
        allocated
    }

    /// `allocate_bandwidth_at` at the current time.
    pub fn allocate_bandwidth(&mut self, file_id: &str, requested: u64) -> (r: u64)
        requires
            old(self).wf(),
        ensures
            final(self).wf(),
            final(self).total_bandwidth == old(self).total_bandwidth,
            final(self).last_update == old(self).last_update,
            r <= requested,
            exists|now: u64|
                r == old(self).grant_at(requested, now) && final(self).active_transfers@ == #[trigger] allocations_after(
                    old(self).active_transfers@,
                    old(self).total_bandwidth,
                    file_id@,
                    requested,
                    now,
                ),
    {
        let now = now_millis();
        let r = self.allocate_bandwidth_at(file_id, requested, now);
        assert(self.active_transfers@ == allocations_after(
            old(self).active_transfers@,
            old(self).total_bandwidth,
            file_id@,
            requested,
            now,
        ));
        r
    }

    /// Forgets the allocation of `file_id`.
    pub fn release_bandwidth(&mut self, file_id: &str)
        requires
            old(self).wf(),
        ensures
            final(self).wf(),
            final(self).total_bandwidth == old(self).total_bandwidth,
            final(self).active_transfers@ == old(self).active_transfers@.remove(file_id@),
    {
        let _ = self.active_transfers.remove(file_id);
    }
}

/// File transfers waiting their turn, first come first served.
#[derive(Debug)]
pub struct TransferQueue {
    pub queue: Vec<String>,
    pub last_check: u64,
}

impl TransferQueue {
    /// The queued file ids, front first.
    pub open spec fn ids(&self) -> Seq<Seq<char>> {
        self.queue@.map_values(|s: String| s@)
    }

    /// No file is queued twice.
    pub open spec fn wf(&self) -> bool {
        self.ids().no_duplicates()
    }

    /// An empty queue.
    pub fn new() -> (q: Self)
        ensures
            q.wf(),
            q.ids() == Seq::<Seq<char>>::empty(),
    {
        let q = TransferQueue { queue: Vec::new(), last_check: now_millis() };
        assert(q.ids() =~= Seq::<Seq<char>>::empty());
        q
    }

    fn position(&self, file_id: &str) -> (r: Option<usize>)
        ensures
            r is None ==> !self.ids().contains(file_id@),
            r matches Some(i) ==> i < self.ids().len() && self.ids()[i as int] == file_id@ && forall|j: int|
                0 <= j < i ==> self.ids()[j] != file_id@,
    {
        let mut i: usize = 0;
        while i < self.queue.len()
            invariant
                i <= self.queue@.len(),
                forall|j: int| 0 <= j < i ==> #[trigger] self.queue@[j]@ != file_id@,
            decreases self.queue@.len() - i,
        {
            if str_equals(file_id, &self.queue[i]) {
                return Some(i);
            }
            i = i + 1;
        }
        proof {
            if self.ids().contains(file_id@) {
                let j = choose|j: int| 0 <= j < self.ids().len() && self.ids()[j] == file_id@;
                assert(self.queue@[j]@ == file_id@);
            }
        }
        None
    }

    /// Queues `file_id` at the back unless it is already queued.
    pub fn add_transfer(&mut self, file_id: String)
        requires
            old(self).wf(),
        ensures
            final(self).wf(),
            final(self).last_check == old(self).last_check,
            final(self).ids() == if old(self).ids().contains(file_id@) {
                old(self).ids()
            } else {
                old(self).ids().push(file_id@)
            },
    {
        if self.position(file_id.as_str()).is_none() {
            let ghost fid = file_id@;
            self.queue.push(file_id);
            assert(self.ids() =~= old(self).ids().push(fid));
            proof {
                assert forall|a: int, b: int|
                    0 <= a < self.ids().len() && 0 <= b < self.ids().len() && a != b implies self.ids()[a]
                    != self.ids()[b] by {
                    let n = old(self).ids().len();
                    if a == n {
                        assert(old(self).ids().contains(old(self).ids()[b]));
                    } else if b == n {
                        assert(old(self).ids().contains(old(self).ids()[a]));
                    }
                }
            }
        }
    }

    /// Takes `file_id` out of the queue.
    pub fn remove_transfer(&mut self, file_id: &str)
        requires
            old(self).wf(),
        ensures
            final(self).wf(),
            final(self).last_check == old(self).last_check,
            final(self).ids() == old(self).ids().filter(|id: Seq<char>| id != file_id@),
    {
        let ghost pred = |id: Seq<char>| id != file_id@;
        let mut kept: Vec<String> = Vec::new();
        let mut i: usize = 0;
        while i < self.queue.len()
            invariant
                self.wf(),
                i <= self.queue@.len(),
                kept@.map_values(|s: String| s@) == self.ids().take(i as int).filter(pred),
                pred == (|id: Seq<char>| id != file_id@),
            decreases self.queue@.len() - i,
        {
            let ghost ids = self.ids();
            proof {
                assert(ids.take(i + 1) =~= ids.take(i as int).push(ids[i as int]));
                ids.take(i as int).lemma_filter_push(ids[i as int], pred);
            }
            assert(ids[i as int] == self.queue@[i as int]@);
            if !str_equals(file_id, &self.queue[i]) {
                let ghost before = kept@;
                kept.push(self.queue[i].clone());
                assert(kept@.map_values(|s: String| s@) =~= before.map_values(|s: String| s@).push(ids[i as int]));
                assert(pred(ids[i as int]));
                assert(kept@.map_values(|s: String| s@) == ids.take(i + 1).filter(pred));
            } else {
                assert(!pred(ids[i as int]));
                assert(kept@.map_values(|s: String| s@) == ids.take(i + 1).filter(pred));
            }
            i = i + 1;
        }
        let ghost result = kept@.map_values(|s: String| s@);
        proof {
            assert(self.ids().take(i as int) =~= self.ids());
            assert forall|a: int, b: int| 0 <= a < result.len() && 0 <= b < result.len() && a != b implies 
                result[a] != result[b] by {
                lemma_filter_no_duplicates(self.ids(), pred);
            }
        }
        self.queue = kept;
    }

    /// The position of `file_id` from the front, as a `u32`.
    pub fn get_position(&self, file_id: &str) -> (r: Option<u32>)
        requires
            self.wf(),
        ensures
            r is Some <==> self.ids().contains(file_id@),
            r matches Some(p) ==> p == self.ids().index_of(file_id@) as u32,
    {
        match self.position(file_id) {
            Some(i) => {
                proof {
                    let j = self.ids().index_of(file_id@);
                    assert(self.ids().contains(file_id@));
                    assert(self.ids()[j] == file_id@);
                    if j != i {
                        assert(self.ids()[j] != self.ids()[i as int]);
                    }
                }
                Some(i as u32)
            },
            None => None,
        }
    }

    /// Takes the transfer at the front.
    pub fn next_transfer(&mut self) -> (r: Option<String>)
        requires
            old(self).wf(),
        ensures
            final(self).wf(),
            final(self).last_check == old(self).last_check,
            old(self).ids().len() == 0 ==> r is None && final(self).ids() == old(self).ids(),
            old(self).ids().len() > 0 ==> (r matches Some(id) && id@ == old(self).ids()[0]
                && final(self).ids() == old(self).ids().drop_first()),
    {
        if self.queue.len() == 0 {
            None
        } else {
            let id = self.queue.remove(0);
            assert(self.ids() =~= old(self).ids().drop_first());
            Some(id)
        }
    }
}

/// Filtering keeps a sequence free of duplicates.
pub proof fn lemma_filter_no_duplicates(s: Seq<Seq<char>>, pred: spec_fn(Seq<char>) -> bool)
    requires
        s.no_duplicates(),
    ensures
        s.filter(pred).no_duplicates(),
    decreases s.len(),
{
    reveal_with_fuel(Seq::filter, 1);
    if s.len() > 0 {
        let t = s.drop_last();
        assert(t.no_duplicates());
        lemma_filter_no_duplicates(t, pred);
        if pred(s.last()) {
            assert(s.filter(pred) =~= t.filter(pred).push(s.last()));
            assert(!t.filter(pred).contains(s.last())) by {
                if t.filter(pred).contains(s.last()) {
                    t.lemma_filter_contains_rev(pred, s.last());
                    assert(t.contains(s.last()));
                    let i = choose|i: int| 0 <= i < t.len() && t[i] == s.last();
                    assert(s[i] == s[s.len() - 1]);
                }
            }
        } else {
            assert(s.filter(pred) =~= t.filter(pred));
        }
    }
}


/// The spec form of a control command.
pub enum CommandView {
    CircuitExtend,
    CircuitExtended,
    CircuitDestroy,
    KeepAlive,
    Error,
    MessageReceived(Seq<char>),
    MessageExpired(Seq<char>),
    DeliveryConfirmed(Seq<char>),
    DeliveryFailed(Seq<char>, Seq<char>),
    GroupJoin(Seq<char>),
    GroupLeave(Seq<char>),
    GroupMessageReceived(Seq<char>, Seq<char>),
    GroupMessageExpired(Seq<char>, Seq<char>),
    ChunkReceived(Seq<char>, u32),
    ChunkMissing(Seq<char>, u32),
    FileComplete(Seq<char>),
    FileFailed(Seq<char>, Seq<char>),
}

impl View for ControlCommand {
    type V = CommandView;

    open spec fn view(&self) -> CommandView {
        match self {
            ControlCommand::CircuitExtend => CommandView::CircuitExtend,
            ControlCommand::CircuitExtended => CommandView::CircuitExtended,
            ControlCommand::CircuitDestroy => CommandView::CircuitDestroy,
            ControlCommand::KeepAlive => CommandView::KeepAlive,
            ControlCommand::Error => CommandView::Error,
            ControlCommand::MessageReceived(a) => CommandView::MessageReceived(a@),
            ControlCommand::MessageExpired(a) => CommandView::MessageExpired(a@),
            ControlCommand::DeliveryConfirmed(a) => CommandView::DeliveryConfirmed(a@),
            ControlCommand::DeliveryFailed(a, b) => CommandView::DeliveryFailed(a@, b@),
            ControlCommand::GroupJoin(a) => CommandView::GroupJoin(a@),
            ControlCommand::GroupLeave(a) => CommandView::GroupLeave(a@),
            ControlCommand::GroupMessageReceived(a, b) => CommandView::GroupMessageReceived(a@, b@),
            ControlCommand::GroupMessageExpired(a, b) => CommandView::GroupMessageExpired(a@, b@),
            ControlCommand::ChunkReceived(a, c) => CommandView::ChunkReceived(a@, *c),
            ControlCommand::ChunkMissing(a, c) => CommandView::ChunkMissing(a@, *c),
            ControlCommand::FileComplete(a) => CommandView::FileComplete(a@),
            ControlCommand::FileFailed(a, b) => CommandView::FileFailed(a@, b@),
        }
    }
}

/// The hexadecimal numeral of a 64-bit number, the form of ephemeral ids.
pub open spec fn hex_id(x: u64) -> Seq<char> {
    lower_hex(x as nat)
}

/// `s` is an ephemeral id: the hexadecimal numeral of some 64-bit number.
pub open spec fn is_ephemeral_id(s: Seq<char>) -> bool {
    exists|x: u64| #[trigger] hex_id(x) == s
}

/// `m` is a control message with command `cmd`, no data, and the id `id`.
pub open spec fn is_control_with_id(m: ProtocolMessage, cmd: CommandView, id: Seq<char>) -> bool {
    &&& m matches ProtocolMessage::Control { command, data, ephemeral_id }
    &&& m->command@ == cmd
    &&& m->data@.len() == 0
    &&& m->Control_ephemeral_id@ == id
}

/// `m` is a control message with command `cmd`, no data, and a fresh ephemeral id.
pub open spec fn is_control(m: ProtocolMessage, cmd: CommandView) -> bool {
    m matches ProtocolMessage::Control { ephemeral_id, .. } && is_control_with_id(m, cmd, ephemeral_id@)
        && is_ephemeral_id(ephemeral_id@)
}

/// `o` hands the local consumer a control message with command `cmd`.
pub open spec fn is_local_control(o: Outbound, cmd: CommandView) -> bool {
    o matches Outbound::Local(m) && is_control(m, cmd)
}

/// `o` sends `peer` a control message with command `cmd`.
pub open spec fn is_peer_control(o: Outbound, peer: Seq<char>, cmd: CommandView) -> bool {
    o matches Outbound::Peer(p, m) && p@ == peer && is_control(m, cmd)
}

/// `out` sends every recipient, in order, the same control message (one id)
/// with command `cmd`.
pub open spec fn broadcast_to(out: Seq<Outbound>, recipients: Seq<Seq<char>>, cmd: CommandView) -> bool {
    &&& out.len() == recipients.len()
    &&& exists|id: Seq<char>|
        is_ephemeral_id(id) && forall|i: int|
            0 <= i < out.len() ==> (#[trigger] out[i] matches Outbound::Peer(p, m) && p@ == recipients[i]
                && is_control_with_id(m, cmd, id))
}

/// What the handler hands its caller.
#[derive(Debug)]
pub enum Outbound {
    /// A message for the local consumer.
    Local(ProtocolMessage),
    /// A message for a peer.
    Peer(String, ProtocolMessage),
    /// A progress report is due: the caller computes the speed in bytes per
    /// second and the estimated seconds left, and reports a
    /// `FileTransferProgress` message with these fields.
    Progress {
        file_id: String,
        bytes_transferred: u64,
        total_bytes: u64,
        elapsed_ms: u64,
        timestamp: u64,
        expiry: u64,
        ephemeral_id: String,
    },
    /// A speed adaptation is due: the caller compares the measured speed with
    /// the target and, when their ratio is below 0.1 or above 1.5, calls
    /// `apply_speed_adaptation` with the bandwidth scaled by that ratio.
    AdaptSpeed { file_id: String, speed: u64, target_speed: u64, bandwidth_limit: u64, now: u64 },
    /// A target speed was set: the caller calls `apply_target_bandwidth` with
    /// the target speed times `CHUNK_SIZE`.
    TargetBandwidth { file_id: String, target_speed: u64, now: u64 },
    /// The message `ephemeral_id` was viewed: the caller calls
    /// `handle_message_expired` for it after `seconds`.
    ExpireAfter { ephemeral_id: String, seconds: u64 },
}

/// Failures of message handling.
#[derive(Debug, Clone, Copy, PartialEq, Eq)]
pub enum ProtocolError {
    MessageTooLarge,
    SenderNotGroupMember,
    GroupDoesNotExist,
    FileTooLarge,
    InvalidChunkHash,
    GroupFull,
}

/// A protocol stream to a peer.
#[derive(Debug)]
pub struct StreamState {
    pub stream_id: String,
    pub peer_id: String,
    pub protocol: String,
    pub is_active: bool,
}

/// What the handler remembers of a received message.
#[derive(Debug)]
pub struct MessageInfo {
    pub timestamp: u64,
    pub expiry: u64,
    pub is_viewed: bool,
    pub delivery_id: Option<String>,
}

/// A delivery awaiting confirmation.
#[derive(Debug)]
pub struct DeliveryInfo {
    pub message_id: String,
    pub timestamp: u64,
    pub is_confirmed: bool,
    pub retry_count: u32,
}

/// A group and its members.
#[derive(Debug)]
pub struct GroupInfo {
    pub members: StrSet,
    pub created_at: u64,
    pub last_activity: u64,
    pub ephemeral_id: String,
}

/// The spec form of a group: its members in the order they joined.
#[verifier::ext_equal]
pub struct GroupState {
    pub members: Seq<Seq<char>>,
    pub created_at: u64,
    pub last_activity: u64,
    pub ephemeral_id: Seq<char>,
}

impl View for GroupInfo {
    type V = GroupState;

    open spec fn view(&self) -> GroupState {
        GroupState {
            members: self.members.elems(),
            created_at: self.created_at,
            last_activity: self.last_activity,
            ephemeral_id: self.ephemeral_id@,
        }
    }
}

/// An entry of the transfer priority list.
#[derive(Debug)]
pub struct FileTransferPriority {
    pub priority: u8,
    pub start_time: u64,
    pub file_id: String,
}

/// The spec form of a priority entry.
#[verifier::ext_equal]
pub struct PriorityState {
    pub priority: u8,
    pub start_time: u64,
    pub file_id: Seq<char>,
}

impl View for FileTransferPriority {
    type V = PriorityState;

    open spec fn view(&self) -> PriorityState {
        PriorityState {
            priority: self.priority,
            start_time: self.start_time,
            file_id: self.file_id@,
        }
    }
}

/// How two priority entries are ordered for scheduling: higher priority
/// first, then the earlier start.
pub open spec fn priority_order(a: PriorityState, b: PriorityState) -> int {
    if b.priority < a.priority {
        -1
    } else if b.priority > a.priority {
        1
    } else if a.start_time < b.start_time {
        -1
    } else if a.start_time > b.start_time {
        1
    } else {
        0
    }
}

impl FileTransferPriority {
    /// Compares two entries: `Less` for the one to run first.
    pub fn heap_order(&self, other: &Self) -> (o: std::cmp::Ordering)
        ensures
            priority_order(self@, other@) < 0 ==> o == std::cmp::Ordering::Less,
            priority_order(self@, other@) == 0 ==> o == std::cmp::Ordering::Equal,
            priority_order(self@, other@) > 0 ==> o == std::cmp::Ordering::Greater,
    {
        if other.priority < self.priority {
            std::cmp::Ordering::Less
        } else if other.priority > self.priority {
            std::cmp::Ordering::Greater
        } else if self.start_time < other.start_time {
            std::cmp::Ordering::Less
        } else if self.start_time > other.start_time {
            std::cmp::Ordering::Greater
        } else {
            std::cmp::Ordering::Equal
        }
    }
}

/// The state of a file transfer.
#[derive(Debug)]
pub struct FileTransferInfo {
    pub file_id: String,
    pub total_chunks: u32,
    pub received_chunks: ChunkSet,
    pub start_time: u64,
    pub last_update: u64,
    pub is_complete: bool,
    pub retry_count: u32,
    pub pending_chunks: ChunkSet,
    pub active_chunks: ChunkSet,
    pub priority: u8,
    pub bandwidth_limit: u64,
    pub bytes_transferred: u64,
    pub last_progress_update: u64,
    /// bits of an `f64`
    pub speed: u64,
    pub is_cancelled: bool,
    pub resume_point: u64,
    /// bits of an `f64`
    pub target_speed: u64,
    pub error_count: u32,
    pub last_error: Option<String>,
    pub last_speed_adaptation: u64,
}

/// The spec form of a transfer; pending chunks keep their order.
#[verifier::ext_equal]
pub struct TransferState {
    pub file_id: Seq<char>,
    pub total_chunks: u32,
    pub received_chunks: Set<u32>,
    pub start_time: u64,
    pub last_update: u64,
    pub is_complete: bool,
    pub retry_count: u32,
    pub pending_chunks: Seq<u32>,
    pub active_chunks: Set<u32>,
    pub priority: u8,
    pub bandwidth_limit: u64,
    pub bytes_transferred: u64,
    pub last_progress_update: u64,
    pub speed: u64,
    pub is_cancelled: bool,
    pub resume_point: u64,
    pub target_speed: u64,
    pub error_count: u32,
    pub last_error: Option<Seq<char>>,
    pub last_speed_adaptation: u64,
}

/// An optional string read as an optional sequence.
pub open spec fn opt_view(o: Option<String>) -> Option<Seq<char>> {
    match o {
        Some(s) => Some(s@),
        None => None,
    }
}

impl View for FileTransferInfo {
    type V = TransferState;

    open spec fn view(&self) -> TransferState {
        TransferState {
            file_id: self.file_id@,
            total_chunks: self.total_chunks,
            received_chunks: self.received_chunks@,
            start_time: self.start_time,
            last_update: self.last_update,
            is_complete: self.is_complete,
            retry_count: self.retry_count,
            pending_chunks: self.pending_chunks.elems(),
            active_chunks: self.active_chunks@,
            priority: self.priority,
            bandwidth_limit: self.bandwidth_limit,
            bytes_transferred: self.bytes_transferred,
            last_progress_update: self.last_progress_update,
            speed: self.speed,
            is_cancelled: self.is_cancelled,
            resume_point: self.resume_point,
            target_speed: self.target_speed,
            error_count: self.error_count,
            last_error: opt_view(self.last_error),
            last_speed_adaptation: self.last_speed_adaptation,
        }
    }
}

/// The state a transfer starts in when a message refers to a file the
/// handler has no record of.
pub open spec fn fresh_transfer(file_id: Seq<char>, timestamp: u64) -> TransferState {
    TransferState {
        file_id: file_id,
        total_chunks: 0,
        received_chunks: Set::empty(),
        start_time: timestamp,
        last_update: timestamp,
        is_complete: false,
        retry_count: 0,
        pending_chunks: Seq::empty(),
        active_chunks: Set::empty(),
        priority: 0,
        bandwidth_limit: 0,
        bytes_transferred: 0,
        last_progress_update: timestamp,
        speed: 0,
        is_cancelled: false,
        resume_point: 0,
        target_speed: 0,
        error_count: 0,
        last_error: None,
        last_speed_adaptation: timestamp,
    }
}

impl FileTransferInfo {
    /// The chunk sets are well formed, at most `MAX_PARALLEL_CHUNKS` chunks
    /// are in flight, and the retries have not run past their limit.
    pub open spec fn wf(&self) -> bool {
        &&& self.received_chunks.wf()
        &&& self.pending_chunks.wf()
        &&& self.active_chunks.wf()
        &&& self.active_chunks@.len() <= MAX_PARALLEL_CHUNKS
        &&& self.retry_count <= MAX_CHUNK_RETRIES
    }

    /// A transfer of `total_chunks` chunks, all pending, started at `timestamp`.
    pub fn new(file_id: String, total_chunks: u32, timestamp: u64) -> (t: Self)
        ensures
            t.wf(),
            t@ == (TransferState {
                total_chunks: total_chunks,
                pending_chunks: Seq::new(total_chunks as nat, |i: int| i as u32),
                ..fresh_transfer(file_id@, timestamp)
            }),
    {
        let t = FileTransferInfo {
            file_id,
            total_chunks,
            received_chunks: ChunkSet::new(),
            start_time: timestamp,
            last_update: timestamp,
            is_complete: false,
            retry_count: 0,
            pending_chunks: ChunkSet::from_range(total_chunks),
            active_chunks: ChunkSet::new(),
            priority: 0,
            bandwidth_limit: 0,
            bytes_transferred: 0,
            last_progress_update: timestamp,
            speed: 0,
            is_cancelled: false,
            resume_point: 0,
            target_speed: 0,
            error_count: 0,
            last_error: None,
            last_speed_adaptation: timestamp,
        };
        proof {
            assert(t@.received_chunks =~= Set::<u32>::empty());
            assert(t@.active_chunks =~= Set::<u32>::empty());
        }
        t
    }
}

/// The spec form of the handler's state.
#[verifier::ext_equal]
pub struct HandlerState {
    pub active_streams: Map<Seq<char>, StreamState>,
    pub message_tracker: Map<Seq<char>, MessageInfo>,
    pub delivery_tracker: Map<Seq<char>, DeliveryInfo>,
    pub group_members: Map<Seq<char>, GroupState>,
    pub file_transfers: Map<Seq<char>, TransferState>,
    pub rate_limits: Map<Seq<char>, Seq<u64>>,
    pub allocations: Map<Seq<char>, u64>,
    pub transfer_queue: Seq<Seq<char>>,
    pub queue_last_check: u64,
    pub transfer_priorities: Seq<PriorityState>,
    pub outbox: Seq<Outbound>,
}

/// The protocol state machine.
#[derive(Debug)]
pub struct ProtocolHandler {
    pub crypto_service: CryptoService,
    /// What the handler asks its caller to do, oldest first.
    pub outbox: Vec<Outbound>,
    pub active_streams: StrMap<StreamState>,
    pub message_tracker: StrMap<MessageInfo>,
    pub delivery_tracker: StrMap<DeliveryInfo>,
    pub group_members: StrMap<GroupInfo>,
    pub file_transfers: StrMap<FileTransferInfo>,
    pub rate_limiter: RateLimiter,
    pub bandwidth_manager: BandwidthManager,
    pub transfer_priorities: Vec<FileTransferPriority>,
    pub transfer_queue: TransferQueue,
}

impl View for ProtocolHandler {
    type V = HandlerState;

    open spec fn view(&self) -> HandlerState {
        HandlerState {
            active_streams: self.active_streams@,
            message_tracker: self.message_tracker@,
            delivery_tracker: self.delivery_tracker@,
            group_members: self.group_members@.map_values(|g: GroupInfo| g@),
            file_transfers: self.file_transfers@.map_values(|t: FileTransferInfo| t@),
            rate_limits: self.rate_limiter.chunks_sent@.map_values(|v: Vec<u64>| v@),
            allocations: self.bandwidth_manager.active_transfers@,
            transfer_queue: self.transfer_queue.ids(),
            queue_last_check: self.transfer_queue.last_check,
            transfer_priorities: self.transfer_priorities@.map_values(|p: FileTransferPriority| p@),
            outbox: self.outbox@,
        }
    }
}

/// `now > timestamp + expiry`, read over the integers.
pub open spec fn expired(now: u64, timestamp: u64, expiry: u64) -> bool {
    now > timestamp + expiry
}

/// `t` extends `s` by exactly `n` entries.
pub open spec fn grows_by(s: Seq<Outbound>, t: Seq<Outbound>, n: nat) -> bool {
    t.len() == s.len() + n && t.take(s.len() as int) == s
}

impl ProtocolHandler {
    /// The tables are well formed, every stored group and transfer is well
    /// formed, pending deliveries have failed fewer than three times, and the
    /// rate limiter and bandwidth manager keep their configuration.
    pub open spec fn wf(&self) -> bool {
        &&& self.active_streams.wf()
        &&& self.message_tracker.wf()
        &&& self.delivery_tracker.wf()
        &&& forall|k: Seq<char>|
            self.delivery_tracker@.contains_key(k) ==> #[trigger] self.delivery_tracker@[k].retry_count < 3
        &&& self.group_members.wf()
        &&& forall|k: Seq<char>|
            self.group_members@.contains_key(k) ==> #[trigger] self.group_members@[k].members.wf()
        &&& self.file_transfers.wf()
        &&& forall|k: Seq<char>|
            self.file_transfers@.contains_key(k) ==> #[trigger] self.file_transfers@[k].wf()
        &&& self.rate_limiter.wf()
        &&& self.rate_limiter.window_size == RATE_LIMIT_WINDOW_MS
        &&& self.rate_limiter.max_chunks == RATE_LIMIT_CHUNKS_PER_SEC
        &&& self.bandwidth_manager.wf()
        &&& self.bandwidth_manager.total_bandwidth == MAX_BANDWIDTH_BYTES_PER_SEC
        &&& self.transfer_queue.wf()
    }

    /// A handler with empty tables.
    pub fn new(crypto_service: CryptoService) -> (h: Self)
        ensures
            h.wf(),
            h@.active_streams == Map::<Seq<char>, StreamState>::empty(),
            h@.message_tracker == Map::<Seq<char>, MessageInfo>::empty(),
            h@.delivery_tracker == Map::<Seq<char>, DeliveryInfo>::empty(),
            h@.group_members == Map::<Seq<char>, GroupState>::empty(),
            h@.file_transfers == Map::<Seq<char>, TransferState>::empty(),
            h@.rate_limits == Map::<Seq<char>, Seq<u64>>::empty(),
            h@.allocations == Map::<Seq<char>, u64>::empty(),
            h@.transfer_queue == Seq::<Seq<char>>::empty(),
            h@.transfer_priorities == Seq::<PriorityState>::empty(),
            h@.outbox == Seq::<Outbound>::empty(),
    {
        let h = ProtocolHandler {
            crypto_service,
            outbox: Vec::new(),
            active_streams: StrMap::new(),
            message_tracker: StrMap::new(),
            delivery_tracker: StrMap::new(),
            group_members: StrMap::new(),
            file_transfers: StrMap::new(),
            rate_limiter: RateLimiter::new(RATE_LIMIT_WINDOW_MS, RATE_LIMIT_CHUNKS_PER_SEC),
            bandwidth_manager: BandwidthManager::new(MAX_BANDWIDTH_BYTES_PER_SEC),
            transfer_priorities: Vec::new(),
            transfer_queue: TransferQueue::new(),
        };
        proof {
            assert(h@.group_members =~= Map::<Seq<char>, GroupState>::empty());
            assert(h@.file_transfers =~= Map::<Seq<char>, TransferState>::empty());
            assert(h@.rate_limits =~= Map::<Seq<char>, Seq<u64>>::empty());
            assert(h@.transfer_priorities =~= Seq::<PriorityState>::empty());
        }
        h
    }

    /// A fresh ephemeral id: a random 64-bit number in hexadecimal.
    pub fn generate_ephemeral_id(&self) -> (id: String)
        ensures
            is_ephemeral_id(id@),
    {
        let x = thread_rng_u64();
        let id = format_lower_hex(x);
        assert(hex_id(x) == id@);
        id
    }
}

} // verus!
