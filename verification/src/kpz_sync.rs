//! Applying the rows of the `kpz` table to the scheduler's tasks: a new
//! КПЗ gets a task, a known one is updated (moving to a new generation
//! when what its jobs depend on changed), a КПЗ switched on or off is
//! restarted or stopped, and the КПЗ that are gone lose their task and
//! everything kept for them. The caller performs what a start needs
//! outside (priming the value cache, logging).

use vstd::prelude::*;
use vstd::std_specs::iter::IteratorSpec;
use std::collections::{HashMap, HashSet};

use crate::merge::SchedulerCore;
use crate::queue::JobQueue;
use crate::support::{clamp_period, clamp_period_spec, decode_groups, group_bit_set};
use crate::task_sync::{
    new_task, new_task_spec, next_generation, on_kpz_start, on_kpz_stop, phased_start, update_task,
    update_task_spec, without_kpz, KpzTask,
};
use crate::tasks::{TaskTimer, MAX_PERIOD_MS};

verus! {

/// The smallest enabled group from `g` on (groups are `1..=512`).
pub open spec fn least_group_from(grups: Seq<u8>, g: int) -> Option<i32>
    decreases 513 - g,
{
    if g < 1 || g > 512 {
        None
    } else if group_bit_set(grups, g - 1) {
        Some(g as i32)
    } else {
        least_group_from(grups, g + 1)
    }
}

/// The group a КПЗ's task runs its scripts for: its smallest enabled
/// group; `None` when the mask is not 64 bytes or has no group.
pub open spec fn first_group(grups: Seq<u8>) -> Option<i32> {
    if grups.len() == 64 { least_group_from(grups, 1) } else { None }
}

/// The task of a КПЗ seen for the first time: phased by its periods
/// limited to `0..=3600` seconds, holding the row's periods as given.
pub open spec fn row_task_spec(id: i32, start: i32, t_a: i32, t_script: i32, group_id: i32, now_ms: u64) -> KpzTask {
    let t = new_task_spec(id, start, clamp_period_spec(t_a), clamp_period_spec(t_script), group_id, now_ms);
    KpzTask { timer: TaskTimer { t_a, t_script, ..t.timer }, ..t }
}

/// A task after its КПЗ was switched on at `now_ms`.
pub open spec fn started_task(t: KpzTask, now_ms: u64) -> KpzTask {
    KpzTask {
        timer: TaskTimer {
            next_a_ms: phased_start(now_ms, t.timer.t_a, t.timer.kpz_id, 0),
            next_script_ms: phased_start(now_ms, t.timer.t_script, t.timer.kpz_id, 1),
            busy_a: false,
            busy_s: false,
            ..t.timer
        },
        generation: next_generation(t.generation),
        ..t
    }
}

/// A task after its КПЗ was switched off.
pub open spec fn stopped_task(t: KpzTask) -> KpzTask {
    KpzTask { timer: TaskTimer { busy_a: false, busy_s: false, ..t.timer }, generation: next_generation(t.generation), ..t }
}

/// The task of row `id` before any restart or stop, and whether the КПЗ
/// was just switched on or off.
pub open spec fn row_update_spec(
    tasks: Map<i32, KpzTask>,
    id: i32,
    start: i32,
    t_a: i32,
    t_script: i32,
    group_id: i32,
    now_ms: u64,
) -> (KpzTask, bool, bool) {
    if tasks.contains_key(id) {
        update_task_spec(tasks[id], start, t_a, t_script, group_id)
    } else {
        (row_task_spec(id, start, t_a, t_script, group_id, now_ms), start == 1, false)
    }
}

/// The task of row `id` after it was applied.
pub open spec fn row_final_task(u: (KpzTask, bool, bool), now_ms: u64) -> KpzTask {
    if u.1 { started_task(u.0, now_ms) } else if u.2 { stopped_task(u.0) } else { u.0 }
}

/// Whether every task is filed under its own КПЗ's id.
pub open spec fn tasks_keyed(tasks: Map<i32, KpzTask>) -> bool {
    forall|k: i32| #[trigger] tasks.contains_key(k) ==> tasks[k].timer.kpz_id == k
}

/// The first enabled group is the smallest one.
proof fn lemma_first_group(grups: Seq<u8>, out: Seq<i32>)
    requires
        grups.len() == 64,
        out.len() > 0,
        forall|i: int, j: int| 0 <= i < j < out.len() ==> out[i] < out[j],
        forall|g: i32| out.contains(g) <==> (1 <= g <= 512 && group_bit_set(grups, g - 1)),
    ensures
        first_group(grups) == Some(out[0]),
{
    assert(out.contains(out[0]));
    assert forall|b: int| 0 <= b < out[0] - 1 implies !#[trigger] group_bit_set(grups, b) by {
        if group_bit_set(grups, b) {
            let g = (b + 1) as i32;
            assert(out.contains(g));
            let j = choose|j: int| 0 <= j < out.len() && out[j] == g;
            if j > 0 {
                assert(out[0] < out[j]);
            }
        }
    }
    lemma_least_group_from(grups, 1, out[0] as int);
}

/// Scanning from `g` finds `m` when no group before `m` is enabled.
proof fn lemma_least_group_from(grups: Seq<u8>, g: int, m: int)
    requires
        1 <= g <= m <= 512,
        group_bit_set(grups, m - 1),
        forall|b: int| g - 1 <= b < m - 1 ==> !#[trigger] group_bit_set(grups, b),
    ensures
        least_group_from(grups, g) == Some(m as i32),
    decreases m - g,
{
    if g < m {
        lemma_least_group_from(grups, g + 1, m);
    }
}

/// The group a КПЗ's task runs its scripts for (see `first_group`).
fn row_group(grups: &[u8]) -> (r: Option<i32>)
    ensures
        r == first_group(grups@),
{
    let groups = decode_groups(grups);
    if groups.len() == 0 {
        proof {
            if grups@.len() == 64 {
                if first_group(grups@) is Some {
                    let g = first_group(grups@)->0;
                    lemma_first_in_range(grups@, 1);
                    assert(groups@.contains(g));
                }
            }
        }
        return None;
    }
    proof {
        lemma_first_group(grups@, groups@);
    }
    Some(groups[0])
}

/// The task of a row before any restart or stop, from the current task
/// of the КПЗ if it has one (see `row_update_spec`).
fn row_update(current: Option<KpzTask>, id: i32, start: i32, t_a: i32, t_script: i32, group_id: i32, now_ms: u64) -> (r: (KpzTask, bool, bool))
    requires
        now_ms + MAX_PERIOD_MS <= u64::MAX,
    ensures
        r == match current {
            Some(t) => update_task_spec(t, start, t_a, t_script, group_id),
            None => (row_task_spec(id, start, t_a, t_script, group_id, now_ms), start == 1, false),
        },
{
    match current {
        Some(t) => update_task(t, start, t_a, t_script, group_id),
        None => {
            let t0 = new_task(id, start, clamp_period(t_a), clamp_period(t_script), group_id, now_ms);
            (KpzTask { timer: TaskTimer { t_a, t_script, ..t0.timer }, ..t0 }, start == 1, false)
        },
    }
}

/// Restarts the task when its КПЗ was switched on, stops it when switched
/// off (dropping its queued jobs either way), and leaves it otherwise.
fn start_or_stop(task: KpzTask, on: bool, off: bool, now_ms: u64, queue: &mut JobQueue) -> (r: KpzTask)
    requires
        old(queue).wf(),
        now_ms + MAX_PERIOD_MS <= u64::MAX,
    ensures
        r == row_final_task((task, on, off), now_ms),
        final(queue).wf(),
        final(queue)@ == if on || off { without_kpz(old(queue)@, task.timer.kpz_id) } else { old(queue)@ },
{
    if on {
        on_kpz_start(task, now_ms, queue)
    } else if off {
        on_kpz_stop(task, queue)
    } else {
        task
    }
}

impl SchedulerCore {
    /// Applies one row of the `kpz` table. A КПЗ without enabled groups is
    /// left as it is; otherwise it gets a new task or its task is updated,
    /// and when it was just switched on it is restarted, when switched off
    /// stopped (its queued jobs dropped either way). Returns whether it was
    /// started and whether it was stopped.
    pub fn apply_kpz_row(
        &mut self,
        queue: &mut JobQueue,
        id: i32,
        start: i32,
        t_a: i32,
        t_script: i32,
        grups: &[u8],
        now_ms: u64,
    ) -> (r: (bool, bool))
        requires
            old(queue).wf(),
            now_ms + MAX_PERIOD_MS <= u64::MAX,
            tasks_keyed(old(self).tasks@),
        ensures
            final(queue).wf(),
            tasks_keyed(final(self).tasks@),
            first_group(grups@) is None ==> r == (false, false) && final(self).tasks@ == old(self).tasks@
                && final(queue)@ == old(queue)@,
            first_group(grups@) is Some ==> {
                let u = row_update_spec(old(self).tasks@, id, start, t_a, t_script, first_group(grups@)->0, now_ms);
                &&& r == (u.1, u.2)
                &&& final(self).tasks@ == old(self).tasks@.insert(id, row_final_task(u, now_ms))
                &&& final(queue)@ == if u.1 || u.2 { without_kpz(old(queue)@, id) } else { old(queue)@ }
            },
            final(self).protocol_generation == old(self).protocol_generation,
            final(self).rv_by_kpz@ == old(self).rv_by_kpz@,
            final(self).primed_kpz@ == old(self).primed_kpz@,
    {
        broadcast use vstd::std_specs::hash::group_hash_axioms;
        let group_id = match row_group(grups) {
            Some(g) => g,
            None => {
                return (false, false);
            },
        };
        let current: Option<KpzTask> = match self.tasks.get(&id) {
            Some(t) => Some(*t),
            None => None,
        };
        let (task, on, off) = row_update(current, id, start, t_a, t_script, group_id, now_ms);
        assert(task.timer.kpz_id == id);
        let task = start_or_stop(task, on, off, now_ms, queue);
        self.tasks.insert(id, task);
        (on, off)
    }

    /// Removes the КПЗ that are no longer in the table (those whose ids are
    /// not in `seen`): their task, values, primed flag, no-response streak,
    /// index-register quality and archive-once bookkeeping. Returns the
    /// removed ids.
    pub fn remove_missing_kpz(&mut self, seen: &HashSet<i32>) -> (removed: Vec<i32>)
        ensures
            removed@.no_duplicates(),
            removed@.to_set() == old(self).tasks@.dom().difference(seen@),
            final(self).tasks@ == old(self).tasks@.remove_keys(removed@.to_set()),
            final(self).rv_by_kpz@ == old(self).rv_by_kpz@.remove_keys(removed@.to_set()),
            final(self).primed_kpz@ == old(self).primed_kpz@.difference(removed@.to_set()),
            final(self).no_resp_streak_by_kpz@ == old(self).no_resp_streak_by_kpz@.remove_keys(removed@.to_set()),
            final(self).idx_seen_by_kpz@ == old(self).idx_seen_by_kpz@.remove_keys(removed@.to_set()),
            final(self).primed_archive_once_by_kpz@ == old(self).primed_archive_once_by_kpz@.remove_keys(removed@.to_set()),
            final(self).protocol_generation == old(self).protocol_generation,
            final(self).alarm_runtime@ == old(self).alarm_runtime@,
            final(self).force_archive_once_reg_ids@ == old(self).force_archive_once_reg_ids@,
            final(self).metrics == old(self).metrics,
    {
        broadcast use vstd::std_specs::hash::group_hash_axioms;
        let mut missing: Vec<i32> = Vec::new();
        let keys = self.tasks.keys();
        proof {
            vstd::std_specs::hash::axiom_spec_keys_iter(&self.tasks);
        }
        let ghost all = keys.remaining();
        let ghost dom = self.tasks@.dom();
        let ghost mut seen_n: int = 0;
        for k in it: keys
            invariant
                all == it.seq(),
                seen_n == it.index(),
                0 <= seen_n <= all.len(),
                all.unref().to_set() == dom,
                all.no_duplicates(),
                missing@.no_duplicates(),
                forall|y: i32| #[trigger] missing@.contains(y) <==> (exists|j: int| 0 <= j < seen_n && *all[j] == y) && !seen@.contains(y),
        {
            let ghost prev = missing@;
            proof {
                assert(*all[seen_n] == *k);
            }
            if !seen.contains(k) {
                proof {
                    if prev.contains(*k) {
                        let j = choose|j: int| 0 <= j < seen_n && *all[j] == *k;
                        assert(all[j] == all[seen_n]);
                    }
                }
                missing.push(*k);
                proof {
                    assert forall|a: int, b: int| 0 <= a < b < missing@.len() implies missing@[a] != missing@[b] by {
                        if b == prev.len() {
                            assert(prev[a] == missing@[a]);
                            assert(prev.contains(prev[a]));
                        } else {
                            assert(prev[a] == missing@[a] && prev[b] == missing@[b]);
                        }
                    }
                }
            }
            proof {
                assert forall|y: i32| #[trigger] missing@.contains(y) <==> (exists|j: int| 0 <= j < seen_n + 1 && *all[j] == y) && !seen@.contains(y) by {
                    if missing@.contains(y) {
                        let idx = choose|idx: int| 0 <= idx < missing@.len() && missing@[idx] == y;
                        if idx < prev.len() {
                            assert(prev[idx] == y);
                            assert(prev.contains(y));
                        } else {
                            assert(y == *k);
                            assert(*all[seen_n] == y);
                        }
                    }
                    if (exists|j: int| 0 <= j < seen_n + 1 && *all[j] == y) && !seen@.contains(y) {
                        let j = choose|j: int| 0 <= j < seen_n + 1 && *all[j] == y;
                        if j < seen_n {
                            assert(prev.contains(y));
                            let idx = choose|idx: int| 0 <= idx < prev.len() && prev[idx] == y;
                            assert(missing@[idx] == y);
                        } else {
                            assert(missing@[prev.len() as int] == y);
                        }
                    }
                }
                seen_n = seen_n + 1;
            }
        }
        proof {
            assert(seen_n == all.len());
            assert forall|y: i32| #[trigger] missing@.to_set().contains(y) <==> dom.difference(seen@).contains(y) by {
                if dom.contains(y) {
                    assert(all.unref().to_set().contains(y));
                    let j = choose|j: int| 0 <= j < all.unref().len() && all.unref()[j] == y;
                    assert(*all[j] == y);
                }
                if missing@.contains(y) {
                    let j = choose|j: int| 0 <= j < seen_n && *all[j] == y;
                    assert(all.unref()[j] == y);
                    assert(all.unref().to_set().contains(y));
                }
            }
            assert(missing@.to_set() =~= dom.difference(seen@));
        }
        let mut i: usize = 0;
        while i < missing.len()
            invariant
                i <= missing@.len(),
                self.tasks@ == old(self).tasks@.remove_keys(missing@.take(i as int).to_set()),
                self.rv_by_kpz@ == old(self).rv_by_kpz@.remove_keys(missing@.take(i as int).to_set()),
                self.primed_kpz@ == old(self).primed_kpz@.difference(missing@.take(i as int).to_set()),
                self.no_resp_streak_by_kpz@ == old(self).no_resp_streak_by_kpz@.remove_keys(missing@.take(i as int).to_set()),
                self.idx_seen_by_kpz@ == old(self).idx_seen_by_kpz@.remove_keys(missing@.take(i as int).to_set()),
                self.primed_archive_once_by_kpz@ == old(self).primed_archive_once_by_kpz@.remove_keys(missing@.take(i as int).to_set()),
                self.protocol_generation == old(self).protocol_generation,
                self.alarm_runtime@ == old(self).alarm_runtime@,
                self.force_archive_once_reg_ids@ == old(self).force_archive_once_reg_ids@,
                self.metrics == old(self).metrics,
            decreases missing@.len() - i,
        {
            let id = missing[i];
            self.tasks.remove(&id);
            self.rv_by_kpz.remove(&id);
            self.primed_kpz.remove(&id);
            self.no_resp_streak_by_kpz.remove(&id);
            self.idx_seen_by_kpz.remove(&id);
            self.primed_archive_once_by_kpz.remove(&id);
            proof {
                let t0 = missing@.take(i as int);
                let t1 = missing@.take(i as int + 1);
                assert forall|y: i32| #[trigger] t1.to_set().contains(y) == (t0.to_set().contains(y) || y == id) by {
                    if t1.to_set().contains(y) {
                        let j = choose|j: int| 0 <= j < t1.len() && t1[j] == y;
                        if j < i {
                            assert(t0[j] == y);
                        }
                    }
                    if t0.to_set().contains(y) {
                        let j = choose|j: int| 0 <= j < t0.len() && t0[j] == y;
                        assert(t1[j] == y);
                    }
                    if y == id {
                        assert(t1[i as int] == y);
                    }
                }
                assert(self.tasks@ =~= old(self).tasks@.remove_keys(t1.to_set()));
                assert(self.rv_by_kpz@ =~= old(self).rv_by_kpz@.remove_keys(t1.to_set()));
                assert(self.primed_kpz@ =~= old(self).primed_kpz@.difference(t1.to_set()));
                assert(self.no_resp_streak_by_kpz@ =~= old(self).no_resp_streak_by_kpz@.remove_keys(t1.to_set()));
                assert(self.idx_seen_by_kpz@ =~= old(self).idx_seen_by_kpz@.remove_keys(t1.to_set()));
                assert(self.primed_archive_once_by_kpz@ =~= old(self).primed_archive_once_by_kpz@.remove_keys(t1.to_set()));
            }
            i = i + 1;
        }
        assert(missing@.take(missing@.len() as int) =~= missing@);
        missing
    }
}

/// A group found by the scan is enabled.
proof fn lemma_first_in_range(grups: Seq<u8>, g: int)
    requires
        1 <= g,
        least_group_from(grups, g) is Some,
    ensures
        1 <= least_group_from(grups, g)->0 <= 512,
        group_bit_set(grups, least_group_from(grups, g)->0 - 1),
    decreases 513 - g,
{
    if g <= 512 && !group_bit_set(grups, g - 1) {
        lemma_first_in_range(grups, g + 1);
    }
}

} // verus!
