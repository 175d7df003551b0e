//! Per-КПЗ runtime state that a poll updates: the quality of index
//! registers (ready after two fresh samples, reset when stale or when the
//! device stops answering), the no-response streak with its polling
//! backoff, the latency histogram of jobs, and the guard that drops the
//! results of a worker whose task was restarted or reloaded meanwhile.

use vstd::prelude::*;

use crate::text::str_eq;

verus! {

// ---------------------------------------------------------------------
// Index-register quality.
// ---------------------------------------------------------------------

/// Seconds without a fresh sample after which an index register is stale.
pub const IDX_QUALITY_STALE_SEC: i64 = 300;

/// What is known of one index register: the Unix time of its last sample
/// (0 for none) and how many fresh samples, up to two, it has had.
#[derive(Clone, Copy, Debug, PartialEq, Eq, Structural)]
pub struct IdxSeen {
    pub last_ts: i64,
    pub samples: u8,
}

impl Default for IdxSeen {
    fn default() -> (r: Self)
        ensures
            r == (IdxSeen { last_ts: 0, samples: 0 }),
    {
        IdxSeen { last_ts: 0, samples: 0 }
    }
}

/// A sample at `ts`: ignored (`None`) unless newer than the last one;
/// otherwise the last time moves to `ts` and the count grows, up to two.
pub open spec fn idx_update_spec(seen: IdxSeen, ts: i64) -> Option<IdxSeen> {
    if seen.last_ts != 0 && ts <= seen.last_ts {
        None
    } else {
        Some(IdxSeen { last_ts: ts, samples: if seen.samples < 2 { (seen.samples + 1) as u8 } else { seen.samples } })
    }
}

/// Takes a sample at `ts` into `seen`, as `idx_update_spec` says.
pub fn idx_seen_update(seen: IdxSeen, ts: i64) -> (r: Option<IdxSeen>)
    ensures
        r == idx_update_spec(seen, ts),
{
    if seen.last_ts != 0 && ts <= seen.last_ts {
        return None;
    }
    let samples = if seen.samples < 2 { seen.samples + 1 } else { seen.samples };
    Some(IdxSeen { last_ts: ts, samples })
}

/// An index register is ready, with full quality, after two fresh samples.
pub fn idx_ready(samples: u8) -> (r: bool)
    ensures
        r == (samples >= 2),
{
    samples >= 2
}

/// Whether a register sampled at `last_ts` is stale at `now_ts`.
pub open spec fn idx_stale_spec(seen: IdxSeen, now_ts: i64) -> bool {
    seen.last_ts > 0 && now_ts - seen.last_ts > IDX_QUALITY_STALE_SEC
}

/// Marks every register of `seen` that is stale at `now_ts` as needing two
/// fresh samples again, and returns the addresses of those registers in
/// order.
pub fn refresh_idx_staleness(seen: &mut Vec<(i32, IdxSeen)>, now_ts: i64) -> (stale: Vec<i32>)
    requires
        forall|k: int| 0 <= k < old(seen)@.len() ==> i64::MIN <= now_ts - (#[trigger] old(seen)@[k]).1.last_ts,
    ensures
        final(seen)@.len() == old(seen)@.len(),
        forall|k: int| 0 <= k < old(seen)@.len() ==> #[trigger] final(seen)@[k] == (
            if idx_stale_spec(old(seen)@[k].1, now_ts) {
                (old(seen)@[k].0, IdxSeen { last_ts: old(seen)@[k].1.last_ts, samples: 0 })
            } else {
                old(seen)@[k]
            }),
        stale@ == stale_addrs(old(seen)@, now_ts),
{
    let mut out: Vec<i32> = Vec::new();
    let n = seen.len();
    let mut i: usize = 0;
    while i < n
        invariant
            n == old(seen)@.len(),
            i <= n,
            seen@.len() == n,
            forall|k: int| 0 <= k < old(seen)@.len() ==> i64::MIN <= now_ts - (#[trigger] old(seen)@[k]).1.last_ts,
            forall|k: int| i <= k < n ==> #[trigger] seen@[k] == old(seen)@[k],
            forall|k: int| 0 <= k < i ==> #[trigger] seen@[k] == (
                if idx_stale_spec(old(seen)@[k].1, now_ts) {
                    (old(seen)@[k].0, IdxSeen { last_ts: old(seen)@[k].1.last_ts, samples: 0 })
                } else {
                    old(seen)@[k]
                }),
            out@ == stale_addrs(old(seen)@.take(i as int), now_ts),
        decreases n - i,
    {
        assert(old(seen)@.take(i as int + 1).drop_last() =~= old(seen)@.take(i as int));
        let (addr, s) = seen[i];
        assert((addr, s) == old(seen)@[i as int]);
        if s.last_ts > 0 && now_ts - s.last_ts > IDX_QUALITY_STALE_SEC {
            out.push(addr);
            seen.set(i, (addr, IdxSeen { last_ts: s.last_ts, samples: 0 }));
        }
        i = i + 1;
    }
    assert(old(seen)@.take(n as int) =~= old(seen)@);
    out
}

/// The addresses, in order, of the registers of `seen` stale at `now_ts`.
pub open spec fn stale_addrs(seen: Seq<(i32, IdxSeen)>, now_ts: i64) -> Seq<i32>
    decreases seen.len(),
{
    if seen.len() == 0 {
        Seq::empty()
    } else {
        let prev = stale_addrs(seen.drop_last(), now_ts);
        if idx_stale_spec(seen.last().1, now_ts) {
            prev.push(seen.last().0)
        } else {
            prev
        }
    }
}

/// Forgets every register's samples: each needs two fresh ones again.
pub fn reset_idx_samples(seen: &mut Vec<(i32, IdxSeen)>)
    ensures
        final(seen)@.len() == old(seen)@.len(),
        forall|k: int| 0 <= k < old(seen)@.len() ==> #[trigger] final(seen)@[k] == (
            old(seen)@[k].0, IdxSeen { last_ts: old(seen)@[k].1.last_ts, samples: 0 }),
{
    let n = seen.len();
    let mut i: usize = 0;
    while i < n
        invariant
            n == old(seen)@.len(),
            i <= n,
            seen@.len() == n,
            forall|k: int| i <= k < n ==> #[trigger] seen@[k] == old(seen)@[k],
            forall|k: int| 0 <= k < i ==> #[trigger] seen@[k] == (
                old(seen)@[k].0, IdxSeen { last_ts: old(seen)@[k].1.last_ts, samples: 0 }),
        decreases n - i,
    {
        let (addr, s) = seen[i];
        seen.set(i, (addr, IdxSeen { last_ts: s.last_ts, samples: 0 }));
        i = i + 1;
    }
}

/// A register becomes ready only after two samples, each newer than the
/// one before: one sample after a reset never makes it ready, and a
/// sample that is not newer changes nothing.
pub proof fn lemma_idx_ready_needs_two_fresh_samples(seen: IdxSeen, t1: i64, t2: i64)
    requires
        seen.samples == 0,
    ensures
        ({
            match idx_update_spec(seen, t1) {
                Some(s1) => s1.samples == 1
                    && (t2 <= t1 && t1 != 0 ==> idx_update_spec(s1, t2) is None)
                    && (t2 > t1 ==> idx_update_spec(s1, t2) == Some(IdxSeen { last_ts: t2, samples: 2 })),
                None => true,
            }
        }),
{
}

// ---------------------------------------------------------------------
// No-response streak and backoff.
// ---------------------------------------------------------------------

/// The streak after one more poll without an answer, and whether it has
/// reached `failures`.
pub open spec fn no_response_spec(streak: Option<u8>, failures: u8) -> (u8, bool) {
    let prev: u8 = match streak { Some(v) => v, None => 0 };
    let next: u8 = if prev == u8::MAX { u8::MAX } else { (prev + 1) as u8 };
    (next, next >= failures)
}

/// Counts one more poll without an answer: the new streak (held at 255)
/// and whether it reached `failures`, when index quality is reset and
/// polling backs off.
pub fn no_response_step(streak: Option<u8>, failures: u8) -> (r: (u8, bool))
    ensures
        r == no_response_spec(streak, failures),
{
    let prev: u8 = match streak {
        Some(v) => v,
        None => 0,
    };
    let next = prev.saturating_add(1);
    (next, next >= failures)
}

/// The next start of a job after a backoff until `until`: never earlier
/// than it was.
pub fn backoff_next(next: u64, until: u64) -> (r: u64)
    ensures
        r == if next < until { until } else { next },
        r >= next,
        r >= until,
{
    if next < until {
        until
    } else {
        next
    }
}

// ---------------------------------------------------------------------
// Job latency histogram.
// ---------------------------------------------------------------------

/// Counts of jobs by duration: up to 100 ms, up to 300 ms, up to 1000 ms,
/// longer.
#[derive(Clone, Copy, Debug, PartialEq, Eq, Structural)]
pub struct LatencyHistogram {
    pub le_100_ms: u64,
    pub le_300_ms: u64,
    pub le_1000_ms: u64,
    pub gt_1000_ms: u64,
}

impl LatencyHistogram {
    /// An empty histogram.
    pub fn new() -> (h: Self)
        ensures
            h == (LatencyHistogram { le_100_ms: 0, le_300_ms: 0, le_1000_ms: 0, gt_1000_ms: 0 }),
    {
        LatencyHistogram { le_100_ms: 0, le_300_ms: 0, le_1000_ms: 0, gt_1000_ms: 0 }
    }

    /// No bucket is full.
    pub open spec fn can_record(&self) -> bool {
        &&& self.le_100_ms < u64::MAX
        &&& self.le_300_ms < u64::MAX
        &&& self.le_1000_ms < u64::MAX
        &&& self.gt_1000_ms < u64::MAX
    }

    /// Counts one job that took `ms` milliseconds in its bucket.
    pub fn record(&mut self, ms: u64)
        requires
            old(self).can_record(),
        ensures
            *final(self) == (if ms <= 100 {
                LatencyHistogram { le_100_ms: (old(self).le_100_ms + 1) as u64, ..*old(self) }
            } else if ms <= 300 {
                LatencyHistogram { le_300_ms: (old(self).le_300_ms + 1) as u64, ..*old(self) }
            } else if ms <= 1000 {
                LatencyHistogram { le_1000_ms: (old(self).le_1000_ms + 1) as u64, ..*old(self) }
            } else {
                LatencyHistogram { gt_1000_ms: (old(self).gt_1000_ms + 1) as u64, ..*old(self) }
            }),
    {
        if ms <= 100 {
            self.le_100_ms = self.le_100_ms + 1;
        } else if ms <= 300 {
            self.le_300_ms = self.le_300_ms + 1;
        } else if ms <= 1000 {
            self.le_1000_ms = self.le_1000_ms + 1;
        } else {
            self.gt_1000_ms = self.gt_1000_ms + 1;
        }
    }

    /// The upper bound, in milliseconds, of the bucket that holds the
    /// `target`-th fastest of `total` jobs: 0 for no jobs, 100, 300 or
    /// 1000, or 3000 past the last bound when slower jobs were seen.
    pub fn percentile_ms(&self, total: u64, target: u64) -> (r: u64)
        requires
            self.le_100_ms + self.le_300_ms + self.le_1000_ms <= u64::MAX,
        ensures
            r == (if total == 0 {
                0u64
            } else {
                let t: int = if target == 0 { 1 } else { target as int };
                if t <= self.le_100_ms {
                    100u64
                } else if t <= self.le_100_ms + self.le_300_ms {
                    300u64
                } else if t <= self.le_100_ms + self.le_300_ms + self.le_1000_ms {
                    1000u64
                } else if self.gt_1000_ms > 0 {
                    3000u64
                } else {
                    1000u64
                }
            }),
    {
        if total == 0 {
            return 0;
        }
        let t: u64 = if target == 0 { 1 } else { target };
        if t <= self.le_100_ms {
            return 100;
        }
        if t <= self.le_100_ms + self.le_300_ms {
            return 300;
        }
        if t <= self.le_100_ms + self.le_300_ms + self.le_1000_ms {
            return 1000;
        }
        if self.gt_1000_ms > 0 {
            return 3000;
        }
        1000
    }
}

/// Metric windows in a row with errors: one more when the window started
/// jobs and some failed (held at the largest `u32`), else back to zero.
pub fn next_err_windows_streak(streak: u32, started: u64, err: u64) -> (r: u32)
    ensures
        r == (if started > 0 && err > 0 {
            if streak == u32::MAX { u32::MAX } else { (streak + 1) as u32 }
        } else {
            0
        }),
{
    if started > 0 && err > 0 {
        streak.saturating_add(1)
    } else {
        0
    }
}

// ---------------------------------------------------------------------
// Worker results.
// ---------------------------------------------------------------------

/// Whether a worker's results may be merged: the worker ran for the task
/// generation that is current (both known) and for the current protocol
/// topology generation.
pub open spec fn merge_applies_spec(
    worker_gen: Option<u64>,
    current_gen: Option<u64>,
    worker_protocol_gen: u64,
    current_protocol_gen: u64,
) -> bool {
    worker_gen is Some && current_gen is Some && worker_gen == current_gen
        && worker_protocol_gen == current_protocol_gen
}

/// Decides whether a finished worker's state is merged back.
pub fn worker_merge_applies(
    worker_gen: Option<u64>,
    current_gen: Option<u64>,
    worker_protocol_gen: u64,
    current_protocol_gen: u64,
) -> (r: bool)
    ensures
        r == merge_applies_spec(worker_gen, current_gen, worker_protocol_gen, current_protocol_gen),
{
    let task_ok = match (worker_gen, current_gen) {
        (Some(w), Some(c)) => w == c,
        _ => false,
    };
    task_ok && worker_protocol_gen == current_protocol_gen
}

/// Why a worker's state is dropped, given whether its task generation and
/// its protocol generation match.
pub fn stale_merge_reason(task_generation_matches: bool, protocol_generation_matches: bool) -> (r: &'static str)
    ensures
        r@ == (if !task_generation_matches && !protocol_generation_matches {
            "task_generation_mismatch+protocol_generation_mismatch"@
        } else if !task_generation_matches {
            "task_generation_mismatch"@
        } else if !protocol_generation_matches {
            "protocol_generation_mismatch"@
        } else {
            "unknown"@
        }),
{
    if !task_generation_matches && !protocol_generation_matches {
        "task_generation_mismatch+protocol_generation_mismatch"
    } else if !task_generation_matches {
        "task_generation_mismatch"
    } else if !protocol_generation_matches {
        "protocol_generation_mismatch"
    } else {
        "unknown"
    }
}

/// A worker whose task was removed, restarted into a new generation, or
/// whose protocol topology was reloaded never has its state merged.
pub proof fn lemma_stale_worker_never_merges(
    worker_gen: Option<u64>,
    current_gen: Option<u64>,
    worker_protocol_gen: u64,
    current_protocol_gen: u64,
)
    requires
        current_gen is None || worker_gen != current_gen || worker_protocol_gen != current_protocol_gen,
    ensures
        !merge_applies_spec(worker_gen, current_gen, worker_protocol_gen, current_protocol_gen),
{
}

// ---------------------------------------------------------------------
// Rate limit of repeated diagnostics.
// ---------------------------------------------------------------------

/// When each kind of repeated diagnostic was last let through
/// (milliseconds of a monotonic clock), one entry per kind.
pub struct DiagRateLimiter {
    last: Vec<(String, u64)>,
}

/// The entries as a map from kind to time.
pub open spec fn entries_map(s: Seq<(String, u64)>) -> Map<Seq<char>, u64>
    decreases s.len(),
{
    if s.len() == 0 {
        Map::empty()
    } else {
        entries_map(s.drop_last()).insert(s.last().0@, s.last().1)
    }
}

/// Time from `last` to `now`, none when `now` is earlier.
pub open spec fn elapsed_ms(last: u64, now: u64) -> int {
    if now >= last { now - last } else { 0 }
}

proof fn lemma_entries_map_lookup(s: Seq<(String, u64)>, k: int)
    requires
        0 <= k < s.len(),
        forall|i: int, j: int| 0 <= i < j < s.len() ==> s[i].0@ != s[j].0@,
    ensures
        entries_map(s).contains_key(s[k].0@),
        entries_map(s)[s[k].0@] == s[k].1,
    decreases s.len(),
{
    if k < s.len() - 1 {
        lemma_entries_map_lookup(s.drop_last(), k);
        assert(s.drop_last()[k] == s[k]);
    }
}

proof fn lemma_entries_map_absent(s: Seq<(String, u64)>, key: Seq<char>)
    requires
        forall|i: int| 0 <= i < s.len() ==> s[i].0@ != key,
    ensures
        !entries_map(s).contains_key(key),
    decreases s.len(),
{
    if s.len() > 0 {
        lemma_entries_map_absent(s.drop_last(), key);
    }
}

proof fn lemma_entries_map_update(s: Seq<(String, u64)>, k: int, v: u64)
    requires
        0 <= k < s.len(),
        forall|i: int, j: int| 0 <= i < j < s.len() ==> s[i].0@ != s[j].0@,
    ensures
        entries_map(s.update(k, (s[k].0, v))) == entries_map(s).insert(s[k].0@, v),
    decreases s.len(),
{
    let t = s.update(k, (s[k].0, v));
    if k == s.len() - 1 {
        assert(t.drop_last() =~= s.drop_last());
        assert(entries_map(t) =~= entries_map(s).insert(s[k].0@, v));
    } else {
        lemma_entries_map_update(s.drop_last(), k, v);
        assert(t.drop_last() =~= s.drop_last().update(k, (s[k].0, v)));
        assert(s.drop_last()[k] == s[k]);
        assert(entries_map(t) =~= entries_map(s).insert(s[k].0@, v));
    }
}

impl DiagRateLimiter {
    /// The last time of each kind.
    pub closed spec fn view(&self) -> Map<Seq<char>, u64> {
        entries_map(self.last@)
    }

    /// One entry per kind.
    pub closed spec fn wf(&self) -> bool {
        forall|i: int, j: int| 0 <= i < j < self.last@.len() ==> self.last@[i].0@ != self.last@[j].0@
    }

    /// Nothing let through yet.
    pub fn new() -> (r: Self)
        ensures
            r.wf(),
            r@ == Map::<Seq<char>, u64>::empty(),
    {
        DiagRateLimiter { last: Vec::new() }
    }

    /// Whether a diagnostic of kind `key` may be emitted at `now_ms`: yes
    /// unless one was let through less than `min_interval_ms` before; a
    /// diagnostic let through is recorded.
    pub fn should_emit(&mut self, key: &str, now_ms: u64, min_interval_ms: u64) -> (r: bool)
        requires
            old(self).wf(),
        ensures
            final(self).wf(),
            r == !(old(self)@.contains_key(key@) && elapsed_ms(old(self)@[key@], now_ms) < min_interval_ms),
            final(self)@ == if r { old(self)@.insert(key@, now_ms) } else { old(self)@ },
    {
        let n = self.last.len();
        let mut i: usize = 0;
        while i < n
            invariant
                n == self.last@.len(),
                i <= n,
                self.last@ == old(self).last@,
                self.wf(),
                forall|k: int| 0 <= k < i ==> self.last@[k].0@ != key@,
            decreases n - i,
        {
            if str_eq(self.last[i].0.as_str(), key) {
                proof {
                    lemma_entries_map_lookup(self.last@, i as int);
                }
                let last = self.last[i].1;
                let elapsed = if now_ms >= last { now_ms - last } else { 0 };
                if elapsed < min_interval_ms {
                    return false;
                }
                let k = self.last[i].0.clone();
                proof {
                    lemma_entries_map_update(self.last@, i as int, now_ms);
                }
                let ghost before = self.last@;
                self.last.set(i, (k, now_ms));
                proof {
                    assert(self.last@ =~= before.update(i as int, (before[i as int].0, now_ms)));
                    assert forall|a: int, b: int| 0 <= a < b < self.last@.len() implies self.last@[a].0@ != self.last@[b].0@ by {
                        assert(self.last@[a].0@ == before[a].0@);
                        assert(self.last@[b].0@ == before[b].0@);
                    }
                }
                return true;
            }
            i = i + 1;
        }
        proof {
            lemma_entries_map_absent(self.last@, key@);
        }
        let ghost before = self.last@;
        self.last.push((String::from_str(key), now_ms));
        proof {
            assert(self.last@.drop_last() =~= before);
            assert forall|a: int, b: int| 0 <= a < b < self.last@.len() implies self.last@[a].0@ != self.last@[b].0@ by {
                if b == self.last@.len() - 1 {
                    assert(self.last@[a] == before[a]);
                } else {
                    assert(self.last@[a] == before[a] && self.last@[b] == before[b]);
                }
            }
        }
        true
    }
}

} // verus!
