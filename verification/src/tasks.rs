//! Periodic scheduling of the A and script jobs of each КПЗ: when a job is
//! due, its next start moves past now by whole periods, one job is queued
//! unless the queue is full or the previous job still runs, and the
//! periods that were skipped are counted as dropped.
//!
//! Times are milliseconds of a monotonic clock.

use vstd::prelude::*;
use crate::queue::{Job, JobKind, JobQueue};

verus! {

/// The timing state of one КПЗ: whether polling is started (`start == 1`),
/// the A and script periods in seconds, the next start of each job kind
/// and whether a job of that kind is queued or running.
#[derive(Clone, Copy, Debug, PartialEq, Eq, Structural)]
pub struct TaskTimer {
    pub kpz_id: i32,
    pub start: i32,
    pub t_a: i32,
    pub t_script: i32,
    pub next_a_ms: u64,
    pub next_script_ms: u64,
    pub busy_a: bool,
    pub busy_s: bool,
}

/// The longest period, in milliseconds, that a period in seconds gives.
pub const MAX_PERIOD_MS: u64 = 2_147_483_647_000;

/// A period of `t` seconds in milliseconds, at least one second.
pub open spec fn period_ms(t: i32) -> int {
    if t < 1 { 1000 } else { t as int * 1000 }
}

/// How many periods are due at `now`: none while `next` is later, else
/// every start from `next` up to `now`.
pub open spec fn due_count(next: u64, now: u64, period: int) -> int {
    if next > now { 0 } else { (now - next) / period + 1 }
}

/// `a + b`, held at `u64::MAX`.
pub open spec fn sat_add(a: u64, b: int) -> u64 {
    if a + b > u64::MAX { u64::MAX } else { (a + b) as u64 }
}

/// Moves `next` past `now` by whole periods: the new start and the number
/// of periods passed.
pub fn advance_due(next: u64, now: u64, period: u64) -> (r: (u64, u64))
    requires
        period > 0,
        now + period <= u64::MAX,
    ensures
        r.1 == due_count(next, now, period as int),
        r.0 == next + r.1 * period,
        r.0 > now,
{
    let mut n = next;
    let mut due: u64 = 0;
    while n <= now
        invariant
            period > 0,
            now + period <= u64::MAX,
            n == next + due * period,
            due > 0 ==> n <= now + period && n - period <= now,
            due == 0 ==> n == next,
        decreases now + period - n,
    {
        proof {
            assert(due * period + period == (due + 1) * period) by (nonlinear_arith);
            assert(due + 1 <= (due + 1) * period) by (nonlinear_arith)
                requires
                    period > 0,
                    due >= 0,
            ;
        }
        n = n + period;
        due = due + 1;
    }
    proof {
        if next <= now {
            assert(due > 0);
            let q: int = due - 1;
            let x: int = now - next;
            let p: int = period as int;
            assert(q * p + p == due * p) by (nonlinear_arith)
                requires
                    q == due - 1,
            ;
            assert(n == next + q * p + p);
            let rm: int = x - q * p;
            assert(0 <= rm);
            assert(rm < p);
            assert(x == q * p + rm);
            vstd::arithmetic::div_mod::lemma_fundamental_div_mod_converse(x, p, q, rm);
            assert(x / p == q);
            assert(due_count(next, now, period as int) == q + 1);
        } else {
            if due > 0 {
                assert((due - 1) * period >= 0) by (nonlinear_arith)
                    requires
                        due > 0,
                ;
                assert(n - period == next + (due - 1) * period) by (nonlinear_arith)
                    requires
                        n == next + due * period,
                ;
            }
            assert(due == 0);
            assert(due_count(next, now, period as int) == 0);
        }
    }
    (n, due)
}

/// One job kind of one started КПЗ at `now`: the new busy flag and next
/// start, whether a job is queued and the new dropped counter. A due job
/// is queued while the queue holds fewer than `max_queue` jobs; every
/// other due period counts as dropped.
pub open spec fn kind_step(
    busy: bool,
    next: u64,
    now: u64,
    period: int,
    qlen: int,
    max_queue: int,
    dropped: u64,
) -> (bool, u64, bool, u64) {
    if !busy && now >= next {
        let due = due_count(next, now, period);
        let nn = (next + due * period) as u64;
        if qlen < max_queue {
            (true, nn, true, sat_add(dropped, due - 1))
        } else {
            (false, nn, false, sat_add(dropped, due))
        }
    } else {
        (busy, next, false, dropped)
    }
}

/// One КПЗ at `now` with `qlen` jobs queued: its new timer, the jobs it
/// queues (A before script) and the new dropped counter. A КПЗ that is not
/// started is left alone.
pub open spec fn task_step(t: TaskTimer, now: u64, qlen: int, max_queue: int, dropped: u64) -> (TaskTimer, Seq<Job>, u64) {
    if t.start != 1 {
        (t, Seq::empty(), dropped)
    } else {
        let (ba, na, qa, da) = kind_step(t.busy_a, t.next_a_ms, now, period_ms(t.t_a), qlen, max_queue, dropped);
        let ja: Seq<Job> = if qa { seq![Job { kpz_id: t.kpz_id, kind: JobKind::A }] } else { Seq::empty() };
        let (bs, ns, qs, ds) = kind_step(t.busy_s, t.next_script_ms, now, period_ms(t.t_script), qlen + ja.len(), max_queue, da);
        let js: Seq<Job> = if qs { seq![Job { kpz_id: t.kpz_id, kind: JobKind::S }] } else { Seq::empty() };
        (TaskTimer { next_a_ms: na, next_script_ms: ns, busy_a: ba, busy_s: bs, ..t }, ja + js, ds)
    }
}

/// One dispatch round over `ts` in order, with `qlen0` jobs queued at the
/// start: the new timers, the queued jobs, the dropped counter, and
/// whether the round stopped at a full queue (which counts one dropped
/// and leaves the remaining КПЗ alone).
pub open spec fn dispatch_fold(
    ts: Seq<TaskTimer>,
    now: u64,
    max_queue: int,
    qlen0: int,
    dropped0: u64,
) -> (Seq<TaskTimer>, Seq<Job>, u64, bool)
    decreases ts.len(),
{
    if ts.len() == 0 {
        (Seq::empty(), Seq::empty(), dropped0, false)
    } else {
        let (pt, pj, pd, stopped) = dispatch_fold(ts.drop_last(), now, max_queue, qlen0, dropped0);
        let t = ts.last();
        if stopped {
            (pt.push(t), pj, pd, true)
        } else if qlen0 + pj.len() >= max_queue {
            (pt.push(t), pj, sat_add(pd, 1), true)
        } else {
            let (t2, js, d2) = task_step(t, now, qlen0 + pj.len(), max_queue, pd);
            (pt.push(t2), pj + js, d2, false)
        }
    }
}

/// A round queues at most two jobs per КПЗ.
proof fn lemma_fold_jobs_bounded(ts: Seq<TaskTimer>, now: u64, max_queue: int, qlen0: int, dropped0: u64)
    ensures
        dispatch_fold(ts, now, max_queue, qlen0, dropped0).1.len() <= 2 * ts.len(),
        dispatch_fold(ts, now, max_queue, qlen0, dropped0).0.len() == ts.len(),
    decreases ts.len(),
{
    if ts.len() > 0 {
        lemma_fold_jobs_bounded(ts.drop_last(), now, max_queue, qlen0, dropped0);
    }
}

/// One job kind of one КПЗ, as `kind_step` says.
fn dispatch_kind(
    busy: bool,
    next: u64,
    now: u64,
    period: u64,
    qlen: usize,
    max_queue: usize,
    dropped: u64,
) -> (r: (bool, u64, bool, u64))
    requires
        period > 0,
        now + period <= u64::MAX,
    ensures
        r == kind_step(busy, next, now, period as int, qlen as int, max_queue as int, dropped),
{
    if !busy && now >= next {
        let (nn, due) = advance_due(next, now, period);
        if qlen < max_queue {
            (true, nn, true, dropped.saturating_add(due - 1))
        } else {
            (false, nn, false, dropped.saturating_add(due))
        }
    } else {
        (busy, next, false, dropped)
    }
}

/// A period of `t` seconds in milliseconds, at least one second.
fn period_of(t: i32) -> (r: u64)
    ensures
        r == period_ms(t),
        0 < r <= MAX_PERIOD_MS,
{
    if t < 1 {
        1000
    } else {
        (t as u64) * 1000
    }
}

/// Queues the due jobs of every started КПЗ in `timers`, in order, as
/// `dispatch_fold` says: a due job moves its next start past `now_ms`, and
/// is queued unless a job of its kind is busy or `queue` holds
/// `max_queue` jobs; the round stops, counting one dropped, once the queue
/// is full.
pub fn dispatch_due_work(
    timers: &mut Vec<TaskTimer>,
    queue: &mut JobQueue,
    max_queue: usize,
    now_ms: u64,
    dropped: &mut u64,
)
    requires
        old(queue).wf(),
        old(queue).next_seq_spec() + 2 * old(timers)@.len() < u64::MAX,
        now_ms + MAX_PERIOD_MS <= u64::MAX,
    ensures
        final(queue).wf(),
        ({
            let (ts, jobs, d, _) = dispatch_fold(old(timers)@, now_ms, max_queue as int, old(queue)@.len() as int, *old(dropped));
            &&& final(timers)@ == ts
            &&& final(queue)@ == old(queue)@ + jobs
            &&& *final(dropped) == d
        }),
{
    let ghost ts0 = timers@;
    let ghost q0 = queue@;
    let ghost d0 = *dropped;
    let ghost seq0 = queue.next_seq_spec();
    let n = timers.len();
    let mut stopped = false;
    let mut i: usize = 0;
    while i < n
        invariant
            n == ts0.len(),
            i <= n,
            now_ms + MAX_PERIOD_MS <= u64::MAX,
            seq0 + 2 * n < u64::MAX,
            queue.wf(),
            timers@.len() == n,
            ({
                let (pt, pj, pd, ps) = dispatch_fold(ts0.take(i as int), now_ms, max_queue as int, q0.len() as int, d0);
                &&& timers@.take(i as int) == pt
                &&& timers@.skip(i as int) == ts0.skip(i as int)
                &&& queue@ == q0 + pj
                &&& *dropped == pd
                &&& stopped == ps
                &&& queue.next_seq_spec() == seq0 + pj.len()
                &&& pj.len() <= 2 * i
            }),
        decreases n - i,
    {
        proof {
            assert(ts0.take(i as int + 1).drop_last() =~= ts0.take(i as int));
            assert(ts0.take(i as int + 1).last() == ts0[i as int]);
            lemma_fold_jobs_bounded(ts0.take(i as int), now_ms, max_queue as int, q0.len() as int, d0);
            assert(timers@[i as int] == timers@.skip(i as int)[0]);
            assert(ts0[i as int] == ts0.skip(i as int)[0]);
        }
        let t = timers[i];
        let ghost before = timers@;
        if stopped {
            // The round stopped at a full queue: the timer is left alone.
        } else if queue.len() >= max_queue {
            *dropped = dropped.saturating_add(1);
            stopped = true;
        } else if t.start != 1 {
            // A КПЗ that is not started is left alone.
        } else {
            let pa = period_of(t.t_a);
            let ps_ = period_of(t.t_script);
            let (ba, na, qa, da) = dispatch_kind(t.busy_a, t.next_a_ms, now_ms, pa, queue.len(), max_queue, *dropped);
            if qa {
                queue.push_back(Job { kpz_id: t.kpz_id, kind: JobKind::A });
            }
            let (bs, ns, qs, ds) = dispatch_kind(t.busy_s, t.next_script_ms, now_ms, ps_, queue.len(), max_queue, da);
            if qs {
                queue.push_back(Job { kpz_id: t.kpz_id, kind: JobKind::S });
            }
            *dropped = ds;
            timers.set(i, TaskTimer { next_a_ms: na, next_script_ms: ns, busy_a: ba, busy_s: bs, ..t });
        }
        proof {
            let (pt, pj, pd, ps) = dispatch_fold(ts0.take(i as int), now_ms, max_queue as int, q0.len() as int, d0);
            let (pt2, pj2, pd2, ps2) = dispatch_fold(ts0.take(i as int + 1), now_ms, max_queue as int, q0.len() as int, d0);
            assert(timers@.take(i as int + 1) =~= pt2);
            assert forall|k: int| 0 <= k < n - i - 1 implies #[trigger] timers@.skip(i as int + 1)[k] == ts0.skip(i as int + 1)[k] by {
                assert(timers@.skip(i as int + 1)[k] == before[i + 1 + k]);
                assert(before[i + 1 + k] == before.skip(i as int)[k + 1]);
                assert(ts0.skip(i as int)[k + 1] == ts0.skip(i as int + 1)[k]);
            }
            assert(timers@.skip(i as int + 1) =~= ts0.skip(i as int + 1));
            assert(queue@ =~= q0 + pj2);
        }
        i = i + 1;
    }
    proof {
        assert(ts0.take(n as int) =~= ts0);
        assert(timers@ =~= timers@.take(n as int));
    }
}

/// After a round, every started КПЗ that had a due job of a kind that was
/// not busy has that kind's next start after `now`, unless the round
/// stopped before reaching it.
pub proof fn lemma_due_starts_move_past_now(
    t: TaskTimer,
    now: u64,
    qlen: int,
    max_queue: int,
    dropped: u64,
)
    requires
        t.start == 1,
        now + MAX_PERIOD_MS <= u64::MAX,
    ensures
        ({
            let (t2, jobs, _) = task_step(t, now, qlen, max_queue, dropped);
            &&& !t.busy_a && now >= t.next_a_ms ==> t2.next_a_ms > now
            &&& !t.busy_s && now >= t.next_script_ms ==> t2.next_script_ms > now
            &&& t.busy_a ==> t2.next_a_ms == t.next_a_ms && t2.busy_a
            &&& t.busy_s ==> t2.next_script_ms == t.next_script_ms && t2.busy_s
            &&& jobs.len() <= 2
            &&& forall|k: int| 0 <= k < jobs.len() ==> (#[trigger] jobs[k]).kpz_id == t.kpz_id
        }),
{
    if t.next_a_ms <= now {
        lemma_due_after_now(t.next_a_ms, now, period_ms(t.t_a));
    }
    if t.next_script_ms <= now {
        lemma_due_after_now(t.next_script_ms, now, period_ms(t.t_script));
    }
}

/// Passing whole periods from `next` ends after `now`.
proof fn lemma_due_after_now(next: u64, now: u64, period: int)
    requires
        period > 0,
        next <= now,
    ensures
        next + due_count(next, now, period) * period > now,
        next + due_count(next, now, period) * period <= now + period,
{
    let x: int = now - next;
    let q: int = x / period;
    vstd::arithmetic::div_mod::lemma_fundamental_div_mod(x, period);
    assert((q + 1) * period == q * period + period) by (nonlinear_arith);
    assert(0 <= x % period < period) by {
        vstd::arithmetic::div_mod::lemma_mod_bound(x, period);
    }
}

/// A job is queued for a kind only when that kind was not busy, and the
/// kind is then busy: no КПЗ ever has two jobs of one kind in flight.
pub proof fn lemma_one_job_per_kind_in_flight(
    busy: bool,
    next: u64,
    now: u64,
    period: int,
    qlen: int,
    max_queue: int,
    dropped: u64,
)
    ensures
        ({
            let (b2, _, queued, _) = kind_step(busy, next, now, period, qlen, max_queue, dropped);
            &&& queued ==> !busy && b2
            &&& busy ==> b2 && !queued
        }),
{
}

/// When the scheduler loop next runs each of its periodic chores
/// (milliseconds of a monotonic clock).
#[derive(Clone, Copy, Debug, PartialEq, Eq, Structural)]
pub struct LoopTimers {
    pub next_runtime_sync_ms: u64,
    pub next_topology_sync_ms: u64,
    pub next_cleanup_ms: u64,
    pub next_writer_log_ms: u64,
}

/// Which chores run on one tick.
#[derive(Clone, Copy, Debug, PartialEq, Eq, Structural)]
pub struct LoopChores {
    pub runtime_sync: bool,
    pub topology_sync: bool,
    pub cleanup: bool,
    pub writer_log: bool,
}

/// Seconds between topology syncs.
pub const TOPOLOGY_SYNC_EVERY_SEC: u64 = 30;
/// Seconds between retention cleanups.
pub const CLEANUP_EVERY_SEC: u64 = 180;
/// Seconds between write-queue statistics.
pub const WRITER_LOG_EVERY_SEC: u64 = 60;

/// One chore at `now`: due when its time has come, and then next due one
/// period later.
pub open spec fn chore_step(next: u64, now: u64, period_ms: u64) -> (u64, bool) {
    if now >= next { ((now + period_ms) as u64, true) } else { (next, false) }
}

/// The chores due on a tick at `now_ms`, and when each runs next: the
/// runtime settings every `sync_period_sec`, the topology every 30 s, the
/// retention cleanup every 180 s, the write-queue statistics every 60 s.
pub fn loop_tick(t: LoopTimers, now_ms: u64, sync_period_sec: u64) -> (r: (LoopTimers, LoopChores))
    requires
        now_ms + sync_period_sec * 1000 <= u64::MAX,
        now_ms + 180_000 <= u64::MAX,
    ensures
        ({
            let rs = chore_step(t.next_runtime_sync_ms, now_ms, (sync_period_sec * 1000) as u64);
            let ts = chore_step(t.next_topology_sync_ms, now_ms, 30_000);
            let cs = chore_step(t.next_cleanup_ms, now_ms, 180_000);
            let ws = chore_step(t.next_writer_log_ms, now_ms, 60_000);
            &&& r.0 == LoopTimers {
                next_runtime_sync_ms: rs.0,
                next_topology_sync_ms: ts.0,
                next_cleanup_ms: cs.0,
                next_writer_log_ms: ws.0,
            }
            &&& r.1 == LoopChores { runtime_sync: rs.1, topology_sync: ts.1, cleanup: cs.1, writer_log: ws.1 }
        }),
{
    let sp = sync_period_sec * 1000;
    let (a, ra) = if now_ms >= t.next_runtime_sync_ms { (now_ms + sp, true) } else { (t.next_runtime_sync_ms, false) };
    let (b, rb) = if now_ms >= t.next_topology_sync_ms {
        (now_ms + TOPOLOGY_SYNC_EVERY_SEC * 1000, true)
    } else {
        (t.next_topology_sync_ms, false)
    };
    let (c, rc) = if now_ms >= t.next_cleanup_ms { (now_ms + CLEANUP_EVERY_SEC * 1000, true) } else { (t.next_cleanup_ms, false) };
    let (d, rd) = if now_ms >= t.next_writer_log_ms {
        (now_ms + WRITER_LOG_EVERY_SEC * 1000, true)
    } else {
        (t.next_writer_log_ms, false)
    };
    (
        LoopTimers { next_runtime_sync_ms: a, next_topology_sync_ms: b, next_cleanup_ms: c, next_writer_log_ms: d },
        LoopChores { runtime_sync: ra, topology_sync: rb, cleanup: rc, writer_log: rd },
    )
}

/// A chore that ran is not due again before its period has passed.
pub proof fn lemma_chore_runs_once_per_period(next: u64, now: u64, later: u64, period_ms: u64)
    requires
        now + period_ms <= u64::MAX,
        chore_step(next, now, period_ms).1,
        later < now + period_ms,
    ensures
        !chore_step(chore_step(next, now, period_ms).0, later, period_ms).1,
{
}

} // verus!
