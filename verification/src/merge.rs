//! Merging a finished worker's results back into the scheduler's state:
//! applied only when the worker ran for the task generation and protocol
//! generation that are current, while its job counters are always added.

use vstd::prelude::*;
use vstd::std_specs::iter::IteratorSpec;
use std::collections::{HashMap, HashSet};

use crate::alarm::AlarmRuntime;
use crate::task_sync::KpzTask;
use crate::tasks::TaskTimer;
use crate::worker_state::{merge_applies_spec, worker_merge_applies, IdxSeen};

verus! {

/// What a worker hands back about its task: the generation it ran for,
/// the next starts (milliseconds) and the busy flags.
#[derive(Clone, Copy, Debug, PartialEq, Eq, Structural)]
pub struct TaskDelta {
    pub generation: u64,
    pub next_a_ms: u64,
    pub next_script_ms: u64,
    pub busy_a: bool,
    pub busy_s: bool,
}

/// Job counters: jobs started, ended well, failed, timed out, and the
/// latency histogram (up to 100 ms, 300 ms, 1000 ms, above).
#[derive(Clone, Copy, Debug, PartialEq, Eq, Structural)]
pub struct JobMetrics {
    pub jobs_started: u64,
    pub jobs_ok: u64,
    pub jobs_err: u64,
    pub jobs_timeout: u64,
    pub lat_le_100_ms: u64,
    pub lat_le_300_ms: u64,
    pub lat_le_1000_ms: u64,
    pub lat_gt_1000_ms: u64,
}

/// What a worker hands back: its task's state, the protocol generation it
/// ran for, the register values (by key, as `f64` bit patterns), whether
/// the КПЗ is primed, its no-response streak, the index-register quality
/// (by `kpz << 32 | addr`), the alarm states (by rule id), the status of
/// its last A read, the registers still to be archived once, the
/// `kpz << 32 | reg` keys it archived once, and its job counters.
pub struct WorkerMerge {
    pub task_delta: Option<TaskDelta>,
    pub protocol_generation: u64,
    pub rv: Option<HashMap<i64, u64>>,
    pub primed: bool,
    pub no_resp_streak: Option<u8>,
    pub idx_seen: Option<Vec<(i64, IdxSeen)>>,
    pub alarm_runtime: Option<Vec<(i64, AlarmRuntime)>>,
    pub last_a_status: Option<String>,
    pub force_archive_once_reg_ids: HashSet<i32>,
    pub primed_archive_once_kpz_reg: Vec<i64>,
    pub metrics: JobMetrics,
}

/// The part of the scheduler's state that worker results merge into.
/// Index-register quality is kept per КПЗ, by address.
pub struct SchedulerCore {
    pub tasks: HashMap<i32, KpzTask>,
    pub protocol_generation: u64,
    pub rv_by_kpz: HashMap<i32, HashMap<i64, u64>>,
    pub primed_kpz: HashSet<i32>,
    pub no_resp_streak_by_kpz: HashMap<i32, u8>,
    pub idx_seen_by_kpz: HashMap<i32, HashMap<i32, IdxSeen>>,
    pub alarm_rule_ids_by_kpz: HashMap<i32, Vec<i64>>,
    pub alarm_runtime: HashMap<i64, AlarmRuntime>,
    pub alarm_runtime_by_kpz: HashMap<i32, HashMap<i64, AlarmRuntime>>,
    pub last_a_glued_status: HashMap<i32, String>,
    pub force_archive_once_reg_ids: HashSet<i32>,
    pub primed_archive_once_kpz_reg: HashSet<i64>,
    pub primed_archive_once_by_kpz: HashMap<i32, HashSet<i64>>,
    pub metrics: JobMetrics,
}

/// The КПЗ part of a `kpz << 32 | addr` key.
pub open spec fn key_kpz(k: i64) -> i32 {
    (k >> 32i64) as i32
}

/// The address part of a `kpz << 32 | addr` key.
pub open spec fn key_low(k: i64) -> i32 {
    ((k & 0xFFFF_FFFFi64) as u32) as i32
}

/// Entries as a map, a later entry replacing an earlier one.
pub open spec fn entries_map<V>(s: Seq<(i64, V)>) -> Map<i64, V>
    decreases s.len(),
{
    if s.len() == 0 {
        Map::empty()
    } else {
        entries_map(s.drop_last()).insert(s.last().0, s.last().1)
    }
}

/// The index-register entries of КПЗ `kpz`, by address.
pub open spec fn kpz_idx_map(s: Seq<(i64, IdxSeen)>, kpz: i32) -> Map<i32, IdxSeen>
    decreases s.len(),
{
    if s.len() == 0 {
        Map::empty()
    } else {
        let m = kpz_idx_map(s.drop_last(), kpz);
        if key_kpz(s.last().0) == kpz { m.insert(key_low(s.last().0), s.last().1) } else { m }
    }
}

/// Sum of two sets of counters, field by field.
pub open spec fn metrics_sum(a: JobMetrics, b: JobMetrics) -> JobMetrics {
    JobMetrics {
        jobs_started: (a.jobs_started + b.jobs_started) as u64,
        jobs_ok: (a.jobs_ok + b.jobs_ok) as u64,
        jobs_err: (a.jobs_err + b.jobs_err) as u64,
        jobs_timeout: (a.jobs_timeout + b.jobs_timeout) as u64,
        lat_le_100_ms: (a.lat_le_100_ms + b.lat_le_100_ms) as u64,
        lat_le_300_ms: (a.lat_le_300_ms + b.lat_le_300_ms) as u64,
        lat_le_1000_ms: (a.lat_le_1000_ms + b.lat_le_1000_ms) as u64,
        lat_gt_1000_ms: (a.lat_gt_1000_ms + b.lat_gt_1000_ms) as u64,
    }
}

/// Whether every field of the sum fits in 64 bits.
pub open spec fn metrics_fit(a: JobMetrics, b: JobMetrics) -> bool {
    &&& a.jobs_started + b.jobs_started <= u64::MAX
    &&& a.jobs_ok + b.jobs_ok <= u64::MAX
    &&& a.jobs_err + b.jobs_err <= u64::MAX
    &&& a.jobs_timeout + b.jobs_timeout <= u64::MAX
    &&& a.lat_le_100_ms + b.lat_le_100_ms <= u64::MAX
    &&& a.lat_le_300_ms + b.lat_le_300_ms <= u64::MAX
    &&& a.lat_le_1000_ms + b.lat_le_1000_ms <= u64::MAX
    &&& a.lat_gt_1000_ms + b.lat_gt_1000_ms <= u64::MAX
}

/// The task after the worker's view of its timer was taken over.
pub open spec fn task_with_delta(t: KpzTask, d: TaskDelta) -> KpzTask {
    KpzTask {
        timer: TaskTimer {
            kpz_id: t.timer.kpz_id,
            start: t.timer.start,
            t_a: t.timer.t_a,
            t_script: t.timer.t_script,
            next_a_ms: d.next_a_ms,
            next_script_ms: d.next_script_ms,
            busy_a: d.busy_a,
            busy_s: d.busy_s,
        },
        group_id: t.group_id,
        generation: t.generation,
    }
}

/// The task generation a worker ran for.
pub open spec fn worker_generation(w: WorkerMerge) -> Option<u64> {
    match w.task_delta {
        Some(d) => Some(d.generation),
        None => None,
    }
}

/// The current generation of the task of `kpz`, if there is one.
pub open spec fn current_generation(tasks: Map<i32, KpzTask>, kpz: i32) -> Option<u64> {
    if tasks.contains_key(kpz) { Some(tasks[kpz].generation) } else { None }
}

/// Whether the worker's results for `kpz` are merged into `st`.
pub open spec fn merge_applies(st: SchedulerCore, kpz: i32, w: WorkerMerge) -> bool {
    merge_applies_spec(worker_generation(w), current_generation(st.tasks@, kpz), w.protocol_generation, st.protocol_generation)
}

/// The alarm rule ids of `kpz` (none when it has no entry).
pub open spec fn rule_ids_of(st: SchedulerCore, kpz: i32) -> Set<i64> {
    if st.alarm_rule_ids_by_kpz@.contains_key(kpz) { st.alarm_rule_ids_by_kpz@[kpz]@.to_set() } else { Set::empty() }
}

/// Whether everything but the counters is as it was.
pub open spec fn merge_frame(a: SchedulerCore, b: SchedulerCore) -> bool {
    &&& b.tasks@ == a.tasks@
    &&& b.protocol_generation == a.protocol_generation
    &&& b.rv_by_kpz@ == a.rv_by_kpz@
    &&& b.primed_kpz@ == a.primed_kpz@
    &&& b.no_resp_streak_by_kpz@ == a.no_resp_streak_by_kpz@
    &&& b.idx_seen_by_kpz@ == a.idx_seen_by_kpz@
    &&& b.alarm_rule_ids_by_kpz@ == a.alarm_rule_ids_by_kpz@
    &&& b.alarm_runtime@ == a.alarm_runtime@
    &&& b.alarm_runtime_by_kpz@ == a.alarm_runtime_by_kpz@
    &&& b.last_a_glued_status@ == a.last_a_glued_status@
    &&& b.force_archive_once_reg_ids@ == a.force_archive_once_reg_ids@
    &&& b.primed_archive_once_kpz_reg@ == a.primed_archive_once_kpz_reg@
    &&& b.primed_archive_once_by_kpz@ == a.primed_archive_once_by_kpz@
}

/// Adds two sets of counters.
pub fn add_metrics(a: JobMetrics, b: JobMetrics) -> (r: JobMetrics)
    requires
        metrics_fit(a, b),
    ensures
        r == metrics_sum(a, b),
{
    JobMetrics {
        jobs_started: a.jobs_started + b.jobs_started,
        jobs_ok: a.jobs_ok + b.jobs_ok,
        jobs_err: a.jobs_err + b.jobs_err,
        jobs_timeout: a.jobs_timeout + b.jobs_timeout,
        lat_le_100_ms: a.lat_le_100_ms + b.lat_le_100_ms,
        lat_le_300_ms: a.lat_le_300_ms + b.lat_le_300_ms,
        lat_le_1000_ms: a.lat_le_1000_ms + b.lat_le_1000_ms,
        lat_gt_1000_ms: a.lat_gt_1000_ms + b.lat_gt_1000_ms,
    }
}

/// The elements of `a` that are also in `b`.
fn intersect_i32(a: &HashSet<i32>, b: &HashSet<i32>) -> (r: HashSet<i32>)
    ensures
        r@ == a@.intersect(b@),
{
    broadcast use vstd::std_specs::hash::group_hash_axioms;
    let mut r: HashSet<i32> = HashSet::new();
    let iter = a.iter();
    proof {
        vstd::std_specs::hash::axiom_spec_hash_keys_iter(a);
    }
    let ghost all = iter.remaining();
    let ghost mut seen: int = 0;
    for x in it: iter
        invariant
            all == it.seq(),
            seen == it.index(),
            0 <= seen <= all.len(),
            all.unref().to_set() == a@,
            forall|y: i32| #[trigger] r@.contains(y) <==> (exists|j: int| 0 <= j < seen && *all[j] == y) && b@.contains(y),
    {
        if b.contains(x) {
            r.insert(*x);
        }
        proof {
            seen = seen + 1;
        }
    }
    proof {
        assert(seen == all.len());
        assert forall|y: i32| #[trigger] r@.contains(y) <==> a@.intersect(b@).contains(y) by {
            if a@.contains(y) {
                assert(all.unref().to_set().contains(y));
                let j = choose|j: int| 0 <= j < all.unref().len() && all.unref()[j] == y;
                assert(*all[j] == y);
            }
            if r@.contains(y) {
                let j = choose|j: int| 0 <= j < seen && *all[j] == y;
                assert(all.unref()[j] == y);
                assert(all.unref().to_set().contains(y));
            }
        }
        assert(r@ =~= a@.intersect(b@));
    }
    r
}

/// Adds every element of `v` to `s`.
fn insert_all_i64(s: &mut HashSet<i64>, v: &Vec<i64>)
    ensures
        final(s)@ == old(s)@.union(v@.to_set()),
{
    broadcast use vstd::std_specs::hash::group_hash_axioms;
    let mut i: usize = 0;
    while i < v.len()
        invariant
            i <= v@.len(),
            s@ == old(s)@.union(v@.take(i as int).to_set()),
        decreases v@.len() - i,
    {
        s.insert(v[i]);
        proof {
            let t0 = v@.take(i as int);
            let t1 = v@.take(i as int + 1);
            assert forall|y: i64| #[trigger] t1.to_set().contains(y) == (t0.to_set().contains(y) || y == v@[i as int]) by {
                if t1.to_set().contains(y) {
                    let j = choose|j: int| 0 <= j < t1.len() && t1[j] == y;
                    if j < i {
                        assert(t0[j] == y);
                    }
                }
                if t0.to_set().contains(y) {
                    let j = choose|j: int| 0 <= j < t0.len() && t0[j] == y;
                    assert(t1[j] == y);
                }
                if y == v@[i as int] {
                    assert(t1[i as int] == y);
                }
            }
            assert(s@ =~= old(s)@.union(t1.to_set()));
        }
        i = i + 1;
    }
    assert(v@.take(v@.len() as int) =~= v@);
}

/// Puts every entry of `s` into `m`, a later entry replacing an earlier
/// one.
fn insert_entries<V: Copy>(m: &mut HashMap<i64, V>, s: &Vec<(i64, V)>)
    ensures
        final(m)@ == old(m)@.union_prefer_right(entries_map(s@)),
{
    broadcast use vstd::std_specs::hash::group_hash_axioms;
    let mut i: usize = 0;
    while i < s.len()
        invariant
            i <= s@.len(),
            m@ == old(m)@.union_prefer_right(entries_map(s@.take(i as int))),
        decreases s@.len() - i,
    {
        let (k, v) = s[i];
        m.insert(k, v);
        proof {
            assert(s@.take(i as int + 1).drop_last() =~= s@.take(i as int));
            assert(m@ =~= old(m)@.union_prefer_right(entries_map(s@.take(i as int + 1))));
        }
        i = i + 1;
    }
    assert(s@.take(s@.len() as int) =~= s@);
}

/// Removes every key of `ids` from `m`.
fn remove_all_keys(m: &mut HashMap<i64, AlarmRuntime>, ids: &Vec<i64>)
    ensures
        final(m)@ == old(m)@.remove_keys(ids@.to_set()),
{
    broadcast use vstd::std_specs::hash::group_hash_axioms;
    let mut i: usize = 0;
    while i < ids.len()
        invariant
            i <= ids@.len(),
            m@ == old(m)@.remove_keys(ids@.take(i as int).to_set()),
        decreases ids@.len() - i,
    {
        m.remove(&ids[i]);
        proof {
            let t0 = ids@.take(i as int);
            let t1 = ids@.take(i as int + 1);
            assert forall|y: i64| #[trigger] t1.to_set().contains(y) == (t0.to_set().contains(y) || y == ids@[i as int]) by {
                if t1.to_set().contains(y) {
                    let j = choose|j: int| 0 <= j < t1.len() && t1[j] == y;
                    if j < i {
                        assert(t0[j] == y);
                    }
                }
                if t0.to_set().contains(y) {
                    let j = choose|j: int| 0 <= j < t0.len() && t0[j] == y;
                    assert(t1[j] == y);
                }
                if y == ids@[i as int] {
                    assert(t1[i as int] == y);
                }
            }
            assert(m@ =~= old(m)@.remove_keys(t1.to_set()));
        }
        i = i + 1;
    }
    assert(ids@.take(ids@.len() as int) =~= ids@);
}

/// The entries of `m` under the keys of `ids`.
fn restrict_to(m: &HashMap<i64, AlarmRuntime>, ids: &Vec<i64>) -> (r: HashMap<i64, AlarmRuntime>)
    ensures
        r@ == m@.restrict(ids@.to_set()),
{
    broadcast use vstd::std_specs::hash::group_hash_axioms;
    let mut r: HashMap<i64, AlarmRuntime> = HashMap::new();
    let mut i: usize = 0;
    while i < ids.len()
        invariant
            i <= ids@.len(),
            r@ == m@.restrict(ids@.take(i as int).to_set()),
        decreases ids@.len() - i,
    {
        match m.get(&ids[i]) {
            Some(st) => {
                r.insert(ids[i], *st);
            },
            None => {},
        }
        proof {
            let t0 = ids@.take(i as int);
            let t1 = ids@.take(i as int + 1);
            assert forall|y: i64| #[trigger] t1.to_set().contains(y) == (t0.to_set().contains(y) || y == ids@[i as int]) by {
                if t1.to_set().contains(y) {
                    let j = choose|j: int| 0 <= j < t1.len() && t1[j] == y;
                    if j < i {
                        assert(t0[j] == y);
                    }
                }
                if t0.to_set().contains(y) {
                    let j = choose|j: int| 0 <= j < t0.len() && t0[j] == y;
                    assert(t1[j] == y);
                }
                if y == ids@[i as int] {
                    assert(t1[i as int] == y);
                }
            }
            assert(r@ =~= m@.restrict(t1.to_set()));
        }
        i = i + 1;
    }
    assert(ids@.take(ids@.len() as int) =~= ids@);
    r
}

/// The index-register entries of `kpz`, by address.
fn kpz_idx_seen(s: &Vec<(i64, IdxSeen)>, kpz: i32) -> (r: HashMap<i32, IdxSeen>)
    ensures
        r@ == kpz_idx_map(s@, kpz),
{
    broadcast use vstd::std_specs::hash::group_hash_axioms;
    let mut r: HashMap<i32, IdxSeen> = HashMap::new();
    let mut i: usize = 0;
    while i < s.len()
        invariant
            i <= s@.len(),
            r@ == kpz_idx_map(s@.take(i as int), kpz),
        decreases s@.len() - i,
    {
        assert(s@.take(i as int + 1).drop_last() =~= s@.take(i as int));
        let (k, v) = s[i];
        if (k >> 32i64) as i32 == kpz {
            r.insert(((k & 0xFFFF_FFFFi64) as u32) as i32, v);
        }
        i = i + 1;
    }
    assert(s@.take(s@.len() as int) =~= s@);
    r
}

impl JobMetrics {
    /// All counters zero.
    pub fn new() -> (m: Self)
        ensures
            m == (JobMetrics {
                jobs_started: 0,
                jobs_ok: 0,
                jobs_err: 0,
                jobs_timeout: 0,
                lat_le_100_ms: 0,
                lat_le_300_ms: 0,
                lat_le_1000_ms: 0,
                lat_gt_1000_ms: 0,
            }),
    {
        JobMetrics {
            jobs_started: 0,
            jobs_ok: 0,
            jobs_err: 0,
            jobs_timeout: 0,
            lat_le_100_ms: 0,
            lat_le_300_ms: 0,
            lat_le_1000_ms: 0,
            lat_gt_1000_ms: 0,
        }
    }
}

impl SchedulerCore {
    /// A scheduler with no tasks, at protocol generation `protocol_generation`,
    /// with nothing recorded and all counters zero.
    pub fn new(protocol_generation: u64) -> (s: Self)
        ensures
            s.tasks@ == Map::<i32, KpzTask>::empty(),
            s.protocol_generation == protocol_generation,
            s.rv_by_kpz@ == Map::<i32, HashMap<i64, u64>>::empty(),
            s.primed_kpz@ == Set::<i32>::empty(),
            s.no_resp_streak_by_kpz@ == Map::<i32, u8>::empty(),
            s.idx_seen_by_kpz@ == Map::<i32, HashMap<i32, IdxSeen>>::empty(),
            s.alarm_rule_ids_by_kpz@ == Map::<i32, Vec<i64>>::empty(),
            s.alarm_runtime@ == Map::<i64, AlarmRuntime>::empty(),
            s.alarm_runtime_by_kpz@ == Map::<i32, HashMap<i64, AlarmRuntime>>::empty(),
            s.last_a_glued_status@ == Map::<i32, String>::empty(),
            s.force_archive_once_reg_ids@ == Set::<i32>::empty(),
            s.primed_archive_once_kpz_reg@ == Set::<i64>::empty(),
            s.primed_archive_once_by_kpz@ == Map::<i32, HashSet<i64>>::empty(),
            s.metrics == (JobMetrics {
                jobs_started: 0,
                jobs_ok: 0,
                jobs_err: 0,
                jobs_timeout: 0,
                lat_le_100_ms: 0,
                lat_le_300_ms: 0,
                lat_le_1000_ms: 0,
                lat_gt_1000_ms: 0,
            }),
    {
        SchedulerCore {
            tasks: HashMap::new(),
            protocol_generation,
            rv_by_kpz: HashMap::new(),
            primed_kpz: HashSet::new(),
            no_resp_streak_by_kpz: HashMap::new(),
            idx_seen_by_kpz: HashMap::new(),
            alarm_rule_ids_by_kpz: HashMap::new(),
            alarm_runtime: HashMap::new(),
            alarm_runtime_by_kpz: HashMap::new(),
            last_a_glued_status: HashMap::new(),
            force_archive_once_reg_ids: HashSet::new(),
            primed_archive_once_kpz_reg: HashSet::new(),
            primed_archive_once_by_kpz: HashMap::new(),
            metrics: JobMetrics::new(),
        }
    }

    /// Merges a worker's results for `kpz_id`. When the worker ran for the
    /// current generation of the КПЗ's task and the current protocol
    /// generation, its task flags and next starts, register values,
    /// primed flag, no-response streak, index-register quality, alarm
    /// states, last A status and archive-once bookkeeping are taken over;
    /// otherwise they are dropped. The job counters are added either way.
    pub fn merge_worker_merge(&mut self, kpz_id: i32, w: WorkerMerge)
        requires
            metrics_fit(old(self).metrics, w.metrics),
        ensures
            final(self).metrics == metrics_sum(old(self).metrics, w.metrics),
            !merge_applies(*old(self), kpz_id, w) ==> merge_frame(*old(self), *final(self)),
            merge_applies(*old(self), kpz_id, w) ==> {
                &&& final(self).tasks@ == old(self).tasks@.insert(kpz_id, task_with_delta(old(self).tasks@[kpz_id], w.task_delta->0))
                &&& final(self).protocol_generation == old(self).protocol_generation
                &&& final(self).rv_by_kpz@ == match w.rv {
                    Some(rv) => old(self).rv_by_kpz@.insert(kpz_id, rv),
                    None => old(self).rv_by_kpz@,
                }
                &&& final(self).primed_kpz@ == if w.primed {
                    old(self).primed_kpz@.insert(kpz_id)
                } else {
                    old(self).primed_kpz@.remove(kpz_id)
                }
                &&& final(self).no_resp_streak_by_kpz@ == match w.no_resp_streak {
                    Some(v) => old(self).no_resp_streak_by_kpz@.insert(kpz_id, v),
                    None => old(self).no_resp_streak_by_kpz@.remove(kpz_id),
                }
                &&& w.idx_seen is None ==> final(self).idx_seen_by_kpz@ == old(self).idx_seen_by_kpz@
                &&& w.idx_seen is Some ==> {
                    let inner = kpz_idx_map(w.idx_seen->0@, kpz_id);
                    &&& final(self).idx_seen_by_kpz@.remove(kpz_id) == old(self).idx_seen_by_kpz@.remove(kpz_id)
                    &&& inner.is_empty() ==> !final(self).idx_seen_by_kpz@.contains_key(kpz_id)
                    &&& !inner.is_empty() ==> final(self).idx_seen_by_kpz@.contains_key(kpz_id)
                        && final(self).idx_seen_by_kpz@[kpz_id]@ == inner
                }
                &&& final(self).alarm_rule_ids_by_kpz@ == old(self).alarm_rule_ids_by_kpz@
                &&& w.alarm_runtime is None ==> final(self).alarm_runtime@ == old(self).alarm_runtime@
                    && final(self).alarm_runtime_by_kpz@ == old(self).alarm_runtime_by_kpz@
                &&& w.alarm_runtime is Some ==> {
                    let runtime = old(self).alarm_runtime@.remove_keys(rule_ids_of(*old(self), kpz_id))
                        .union_prefer_right(entries_map(w.alarm_runtime->0@));
                    let mine = runtime.restrict(rule_ids_of(*old(self), kpz_id));
                    &&& final(self).alarm_runtime@ == runtime
                    &&& final(self).alarm_runtime_by_kpz@.remove(kpz_id) == old(self).alarm_runtime_by_kpz@.remove(kpz_id)
                    &&& mine.is_empty() ==> !final(self).alarm_runtime_by_kpz@.contains_key(kpz_id)
                    &&& !mine.is_empty() ==> final(self).alarm_runtime_by_kpz@.contains_key(kpz_id)
                        && final(self).alarm_runtime_by_kpz@[kpz_id]@ == mine
                }
                &&& final(self).last_a_glued_status@ == match w.last_a_status {
                    Some(s) => old(self).last_a_glued_status@.insert(kpz_id, s),
                    None => old(self).last_a_glued_status@,
                }
                &&& final(self).force_archive_once_reg_ids@
                    == old(self).force_archive_once_reg_ids@.intersect(w.force_archive_once_reg_ids@)
                &&& final(self).primed_archive_once_kpz_reg@
                    == old(self).primed_archive_once_kpz_reg@.union(w.primed_archive_once_kpz_reg@.to_set())
                &&& w.primed_archive_once_kpz_reg@.len() == 0 ==> final(self).primed_archive_once_by_kpz@
                    == old(self).primed_archive_once_by_kpz@.remove(kpz_id)
                &&& w.primed_archive_once_kpz_reg@.len() > 0 ==> {
                    &&& final(self).primed_archive_once_by_kpz@.remove(kpz_id)
                        == old(self).primed_archive_once_by_kpz@.remove(kpz_id)
                    &&& final(self).primed_archive_once_by_kpz@.contains_key(kpz_id)
                    &&& final(self).primed_archive_once_by_kpz@[kpz_id]@ == (if old(self).primed_archive_once_by_kpz@.contains_key(kpz_id) {
                        old(self).primed_archive_once_by_kpz@[kpz_id]@
                    } else {
                        Set::empty()
                    }).union(w.primed_archive_once_kpz_reg@.to_set())
                }
            },
    {
        broadcast use vstd::std_specs::hash::group_hash_axioms;
        let worker_gen: Option<u64> = match w.task_delta {
            Some(d) => Some(d.generation),
            None => None,
        };
        let current: Option<KpzTask> = match self.tasks.get(&kpz_id) {
            Some(t) => Some(*t),
            None => None,
        };
        let current_gen: Option<u64> = match current {
            Some(t) => Some(t.generation),
            None => None,
        };
        let applies = worker_merge_applies(worker_gen, current_gen, w.protocol_generation, self.protocol_generation);
        self.metrics = add_metrics(self.metrics, w.metrics);
        if !applies {
            return;
        }
        let WorkerMerge {
            task_delta,
            protocol_generation: _,
            rv,
            primed,
            no_resp_streak,
            idx_seen,
            alarm_runtime,
            last_a_status,
            force_archive_once_reg_ids,
            primed_archive_once_kpz_reg,
            metrics: _,
        } = w;
        match (task_delta, current) {
            (Some(d), Some(t)) => {
                let timer = TaskTimer {
                    kpz_id: t.timer.kpz_id,
                    start: t.timer.start,
                    t_a: t.timer.t_a,
                    t_script: t.timer.t_script,
                    next_a_ms: d.next_a_ms,
                    next_script_ms: d.next_script_ms,
                    busy_a: d.busy_a,
                    busy_s: d.busy_s,
                };
                self.tasks.insert(kpz_id, KpzTask { timer, group_id: t.group_id, generation: t.generation });
            },
            _ => {},
        }
        match rv {
            Some(rv) => {
                self.rv_by_kpz.insert(kpz_id, rv);
            },
            None => {},
        }
        if primed {
            self.primed_kpz.insert(kpz_id);
        } else {
            self.primed_kpz.remove(&kpz_id);
        }
        match no_resp_streak {
            Some(v) => {
                self.no_resp_streak_by_kpz.insert(kpz_id, v);
            },
            None => {
                self.no_resp_streak_by_kpz.remove(&kpz_id);
            },
        }
        match idx_seen {
            Some(entries) => {
                let inner = kpz_idx_seen(&entries, kpz_id);
                if inner.is_empty() {
                    self.idx_seen_by_kpz.remove(&kpz_id);
                } else {
                    self.idx_seen_by_kpz.insert(kpz_id, inner);
                }
            },
            None => {},
        }
        match alarm_runtime {
            Some(entries) => {
                let ids: Vec<i64> = match self.alarm_rule_ids_by_kpz.get(&kpz_id) {
                    Some(v) => v.clone(),
                    None => Vec::new(),
                };
                assert(ids@.to_set() == rule_ids_of(*old(self), kpz_id)) by {
                    if !old(self).alarm_rule_ids_by_kpz@.contains_key(kpz_id) {
                        assert(ids@.to_set() =~= Set::<i64>::empty());
                    }
                }
                remove_all_keys(&mut self.alarm_runtime, &ids);
                insert_entries(&mut self.alarm_runtime, &entries);
                let mine = restrict_to(&self.alarm_runtime, &ids);
                if mine.is_empty() {
                    self.alarm_runtime_by_kpz.remove(&kpz_id);
                } else {
                    self.alarm_runtime_by_kpz.insert(kpz_id, mine);
                }
            },
            None => {},
        }
        match last_a_status {
            Some(s) => {
                self.last_a_glued_status.insert(kpz_id, s);
            },
            None => {},
        }
        self.force_archive_once_reg_ids = intersect_i32(&self.force_archive_once_reg_ids, &force_archive_once_reg_ids);
        insert_all_i64(&mut self.primed_archive_once_kpz_reg, &primed_archive_once_kpz_reg);
        if primed_archive_once_kpz_reg.len() == 0 {
            self.primed_archive_once_by_kpz.remove(&kpz_id);
        } else {
            let mut inner: HashSet<i64> = match self.primed_archive_once_by_kpz.remove(&kpz_id) {
                Some(s) => s,
                None => HashSet::new(),
            };
            insert_all_i64(&mut inner, &primed_archive_once_kpz_reg);
            self.primed_archive_once_by_kpz.insert(kpz_id, inner);
        }
    }
}

} // verus!
