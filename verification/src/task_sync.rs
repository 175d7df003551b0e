//! Keeping the scheduler's tasks in step with the `kpz` table: which parts
//! of the topology changed, a new task for a new КПЗ, an updated task for
//! a changed one, and the restart and stop of a КПЗ. Every change of what
//! a running job depends on moves the task to a new generation, so that
//! the results of jobs started before are dropped.

use vstd::prelude::*;

use crate::db_model::TopologyFingerprint;
use crate::queue::{select, Job, JobQueue};
use crate::support::{clamp_period, clamp_period_spec, phase_mix, phase_offset};
use crate::tasks::{period_ms, TaskTimer, MAX_PERIOD_MS};
use crate::worker_state::merge_applies_spec;

verus! {

/// Which parts of the topology must be reloaded.
#[derive(Clone, Copy, Debug, PartialEq, Eq, Structural)]
pub struct TopologyChanges {
    pub kpz: bool,
    pub conn: bool,
    pub protocol: bool,
}

/// Whether two fingerprints are equal.
pub open spec fn same_fingerprint(a: TopologyFingerprint, b: TopologyFingerprint) -> bool {
    &&& a.kpz_sig == b.kpz_sig
    &&& a.obj_sig == b.obj_sig
    &&& a.ip_sig == b.ip_sig
    &&& a.port_sig == b.port_sig
    &&& a.n_mb_sig == b.n_mb_sig
    &&& a.reg_sig == b.reg_sig
    &&& a.g_script_sig == b.g_script_sig
    &&& a.binding_sig == b.binding_sig
}

/// What changed since the fingerprint `prev` (everything when there is
/// none); `None` when nothing did.
pub open spec fn topology_changes_spec(prev: Option<TopologyFingerprint>, cur: TopologyFingerprint) -> Option<TopologyChanges> {
    match prev {
        None => Some(TopologyChanges { kpz: true, conn: true, protocol: true }),
        Some(p) => if same_fingerprint(p, cur) {
            None
        } else {
            Some(TopologyChanges {
                kpz: p.kpz_sig != cur.kpz_sig,
                conn: p.obj_sig != cur.obj_sig || p.ip_sig != cur.ip_sig || p.port_sig != cur.port_sig,
                protocol: p.n_mb_sig != cur.n_mb_sig || p.reg_sig != cur.reg_sig
                    || p.g_script_sig != cur.g_script_sig || p.binding_sig != cur.binding_sig,
            })
        },
    }
}

/// Compares the fingerprint of the last sync with the current one: the
/// `kpz` rows, the connection tables (`obj`, `ip`, `port`) and the
/// protocol tables (`n_mb`, `reg`, `g_script`, bindings) each reload when
/// their fingerprints differ.
pub fn topology_changes(prev: Option<TopologyFingerprint>, cur: TopologyFingerprint) -> (r: Option<TopologyChanges>)
    ensures
        r == topology_changes_spec(prev, cur),
{
    match prev {
        None => Some(TopologyChanges { kpz: true, conn: true, protocol: true }),
        Some(p) => {
            let kpz = p.kpz_sig != cur.kpz_sig;
            let conn = p.obj_sig != cur.obj_sig || p.ip_sig != cur.ip_sig || p.port_sig != cur.port_sig;
            let protocol = p.n_mb_sig != cur.n_mb_sig || p.reg_sig != cur.reg_sig || p.g_script_sig != cur.g_script_sig
                || p.binding_sig != cur.binding_sig;
            if !kpz && !conn && !protocol {
                None
            } else {
                Some(TopologyChanges { kpz, conn, protocol })
            }
        },
    }
}

/// A scheduler task: its timing, the group its scripts run for, and its
/// generation.
#[derive(Clone, Copy, Debug, PartialEq, Eq, Structural)]
pub struct KpzTask {
    pub timer: TaskTimer,
    pub group_id: i32,
    pub generation: u64,
}

/// The first start of a job kind after `now_ms`: its phase within the
/// period.
pub open spec fn phased_start(now_ms: u64, t: i32, kpz_id: i32, salt: u64) -> u64 {
    (now_ms + phase_mix(kpz_id, salt) % (period_ms(t) as u64)) as u64
}

fn phased_start_exec(now_ms: u64, t: i32, kpz_id: i32, salt: u64) -> (r: u64)
    requires
        now_ms + MAX_PERIOD_MS <= u64::MAX,
    ensures
        r == phased_start(now_ms, t, kpz_id, salt),
        now_ms <= r < now_ms + period_ms(t),
{
    let p: u64 = if t < 1 { 1000 } else { (t as u64) * 1000 };
    let off = phase_offset(p, kpz_id, salt);
    now_ms + off
}

/// A task for a КПЗ seen for the first time: generation 1, nothing busy,
/// each job kind starting at its phase within its period (the periods as
/// the row gives them).
pub open spec fn new_task_spec(kpz_id: i32, start: i32, t_a: i32, t_script: i32, group_id: i32, now_ms: u64) -> KpzTask {
    KpzTask {
        timer: TaskTimer {
            kpz_id,
            start,
            t_a,
            t_script,
            next_a_ms: phased_start(now_ms, t_a, kpz_id, 0),
            next_script_ms: phased_start(now_ms, t_script, kpz_id, 1),
            busy_a: false,
            busy_s: false,
        },
        group_id,
        generation: 1,
    }
}

/// Creates the task of a new КПЗ.
pub fn new_task(kpz_id: i32, start: i32, t_a: i32, t_script: i32, group_id: i32, now_ms: u64) -> (r: KpzTask)
    requires
        now_ms + MAX_PERIOD_MS <= u64::MAX,
    ensures
        r == new_task_spec(kpz_id, start, t_a, t_script, group_id, now_ms),
        now_ms <= r.timer.next_a_ms < now_ms + period_ms(t_a),
        now_ms <= r.timer.next_script_ms < now_ms + period_ms(t_script),
{
    let na = phased_start_exec(now_ms, t_a, kpz_id, 0);
    let ns = phased_start_exec(now_ms, t_script, kpz_id, 1);
    KpzTask {
        timer: TaskTimer {
            kpz_id,
            start,
            t_a,
            t_script,
            next_a_ms: na,
            next_script_ms: ns,
            busy_a: false,
            busy_s: false,
        },
        group_id,
        generation: 1,
    }
}

/// `g + 1`, wrapping.
pub open spec fn next_generation(g: u64) -> u64 {
    if g == u64::MAX { 0 } else { (g + 1) as u64 }
}

/// A known task after its row was read again: the new start flag and
/// group, the periods limited to 1..=3600 seconds (0 for off), the
/// generation moved on when any of these changed; and whether the КПЗ was
/// just switched on or off.
pub open spec fn update_task_spec(t: KpzTask, start: i32, t_a: i32, t_script: i32, group_id: i32) -> (KpzTask, bool, bool) {
    let ca = clamp_period_spec(t_a);
    let cs = clamp_period_spec(t_script);
    let changed = t.group_id != group_id || t.timer.start != start || t.timer.t_a != ca || t.timer.t_script != cs;
    (
        KpzTask {
            timer: TaskTimer { start, t_a: ca, t_script: cs, ..t.timer },
            group_id,
            generation: if changed { next_generation(t.generation) } else { t.generation },
        },
        t.timer.start == 0 && start == 1,
        t.timer.start == 1 && start == 0,
    )
}

/// Updates a known task from its row, as `update_task_spec` says.
pub fn update_task(t: KpzTask, start: i32, t_a: i32, t_script: i32, group_id: i32) -> (r: (KpzTask, bool, bool))
    ensures
        r == update_task_spec(t, start, t_a, t_script, group_id),
{
    let ca = clamp_period(t_a);
    let cs = clamp_period(t_script);
    let changed = t.group_id != group_id || t.timer.start != start || t.timer.t_a != ca || t.timer.t_script != cs;
    let generation = if changed { t.generation.wrapping_add(1) } else { t.generation };
    (
        KpzTask { timer: TaskTimer { start, t_a: ca, t_script: cs, ..t.timer }, group_id, generation },
        t.timer.start == 0 && start == 1,
        t.timer.start == 1 && start == 0,
    )
}

/// A КПЗ switched on: a new generation, nothing busy, each job kind
/// starting again at its phase within its period; its queued jobs are
/// dropped.
pub fn on_kpz_start(t: KpzTask, now_ms: u64, queue: &mut JobQueue) -> (r: KpzTask)
    requires
        now_ms + MAX_PERIOD_MS <= u64::MAX,
        old(queue).wf(),
    ensures
        r == (KpzTask {
            timer: TaskTimer {
                next_a_ms: phased_start(now_ms, t.timer.t_a, t.timer.kpz_id, 0),
                next_script_ms: phased_start(now_ms, t.timer.t_script, t.timer.kpz_id, 1),
                busy_a: false,
                busy_s: false,
                ..t.timer
            },
            generation: next_generation(t.generation),
            ..t
        }),
        final(queue).wf(),
        final(queue)@ == without_kpz(old(queue)@, t.timer.kpz_id),
{
    drop_kpz_jobs(queue, t.timer.kpz_id);
    let na = phased_start_exec(now_ms, t.timer.t_a, t.timer.kpz_id, 0);
    let ns = phased_start_exec(now_ms, t.timer.t_script, t.timer.kpz_id, 1);
    KpzTask {
        timer: TaskTimer { next_a_ms: na, next_script_ms: ns, busy_a: false, busy_s: false, ..t.timer },
        generation: t.generation.wrapping_add(1),
        ..t
    }
}

/// A КПЗ switched off: a new generation and nothing busy; its queued jobs
/// are dropped.
pub fn on_kpz_stop(t: KpzTask, queue: &mut JobQueue) -> (r: KpzTask)
    requires
        old(queue).wf(),
    ensures
        r == (KpzTask {
            timer: TaskTimer { busy_a: false, busy_s: false, ..t.timer },
            generation: next_generation(t.generation),
            ..t
        }),
        final(queue).wf(),
        final(queue)@ == without_kpz(old(queue)@, t.timer.kpz_id),
{
    drop_kpz_jobs(queue, t.timer.kpz_id);
    KpzTask {
        timer: TaskTimer { busy_a: false, busy_s: false, ..t.timer },
        generation: t.generation.wrapping_add(1),
        ..t
    }
}

/// The jobs of `jobs` that are not for КПЗ `kpz_id`, in order.
pub open spec fn without_kpz(jobs: Seq<Job>, kpz_id: i32) -> Seq<Job>
    decreases jobs.len(),
{
    if jobs.len() == 0 {
        Seq::empty()
    } else {
        let p = without_kpz(jobs.drop_last(), kpz_id);
        if jobs.last().kpz_id != kpz_id { p.push(jobs.last()) } else { p }
    }
}

proof fn lemma_select_without(jobs: Seq<Job>, mask: Seq<bool>, kpz_id: i32)
    requires
        mask.len() == jobs.len(),
        forall|i: int| 0 <= i < mask.len() ==> mask[i] == (jobs[i].kpz_id != kpz_id),
    ensures
        select(jobs, mask) == without_kpz(jobs, kpz_id),
    decreases jobs.len(),
{
    if jobs.len() > 0 {
        let (dj, dm) = (jobs.drop_last(), mask.drop_last());
        assert forall|i: int| 0 <= i < dm.len() implies dm[i] == (dj[i].kpz_id != kpz_id) by {
            assert(dm[i] == mask[i] && dj[i] == jobs[i]);
        }
        lemma_select_without(dj, dm, kpz_id);
        assert(mask.last() == mask[mask.len() - 1]);
    }
}

fn drop_kpz_jobs(queue: &mut JobQueue, kpz_id: i32)
    requires
        old(queue).wf(),
    ensures
        final(queue).wf(),
        final(queue)@ == without_kpz(old(queue)@, kpz_id),
{
    let keep = |j: &Job| -> (k: bool)
        ensures
            k == (j.kpz_id != kpz_id),
        { j.kpz_id != kpz_id };
    let ghost before = queue@;
    queue.retain(keep);
    proof {
        let mask = choose|mask: Seq<bool>|
            mask.len() == before.len()
            && (forall|i: int| 0 <= i < mask.len() ==> call_ensures(keep, (&before[i],), #[trigger] mask[i]))
            && queue@ == select(before, mask);
        assert forall|i: int| 0 <= i < mask.len() implies mask[i] == (before[i].kpz_id != kpz_id) by {
            assert(call_ensures(keep, (&before[i],), mask[i]));
        }
        lemma_select_without(before, mask, kpz_id);
    }
}

/// A task whose settings changed, or that was switched on or off, is in a
/// new generation: a job started before the change never has its results
/// merged.
pub proof fn lemma_changed_task_drops_old_results(
    t: KpzTask,
    start: i32,
    t_a: i32,
    t_script: i32,
    group_id: i32,
    protocol_gen: u64,
)
    requires
        ({
            let (t2, on, off) = update_task_spec(t, start, t_a, t_script, group_id);
            t2.group_id != t.group_id || t2.timer.start != t.timer.start
                || t2.timer.t_a != t.timer.t_a || t2.timer.t_script != t.timer.t_script
        }),
    ensures
        ({
            let (t2, _, _) = update_task_spec(t, start, t_a, t_script, group_id);
            !merge_applies_spec(Some(t.generation), Some(t2.generation), protocol_gen, protocol_gen)
        }),
{
}

} // verus!
