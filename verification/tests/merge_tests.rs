use std::collections::{HashMap, HashSet};

use scada::alarm::AlarmRuntime;
use scada::merge::{JobMetrics, SchedulerCore, TaskDelta, WorkerMerge};
use scada::queue::JobQueue;
use scada::task_sync::{on_kpz_start, on_kpz_stop, KpzTask};
use scada::tasks::TaskTimer;
use scada::worker_state::IdxSeen;

const NOW_MS: u64 = 1_000_000;

fn task(kpz_id: i32, t: i32, generation: u64, next_ms: u64, busy_a: bool, busy_s: bool) -> KpzTask {
    KpzTask {
        timer: TaskTimer {
            kpz_id,
            start: 1,
            t_a: t,
            t_script: t,
            next_a_ms: next_ms,
            next_script_ms: next_ms,
            busy_a,
            busy_s,
        },
        group_id: 1,
        generation,
    }
}

fn worker(generation: u64, protocol_generation: u64, next_ms: u64) -> WorkerMerge {
    WorkerMerge {
        task_delta: Some(TaskDelta {
            generation,
            next_a_ms: next_ms,
            next_script_ms: next_ms,
            busy_a: false,
            busy_s: false,
        }),
        protocol_generation,
        rv: None,
        primed: false,
        no_resp_streak: None,
        idx_seen: Some(Vec::new()),
        alarm_runtime: Some(Vec::new()),
        last_a_status: None,
        force_archive_once_reg_ids: HashSet::new(),
        primed_archive_once_kpz_reg: Vec::new(),
        metrics: JobMetrics::new(),
    }
}

fn with_rv(mut w: WorkerMerge, key: i64, value: f64) -> WorkerMerge {
    let mut rv = HashMap::new();
    rv.insert(key, value.to_bits());
    w.rv = Some(rv);
    w
}

fn get_rv(state: &SchedulerCore, kpz_id: i32, key: i64) -> f64 {
    state
        .rv_by_kpz
        .get(&kpz_id)
        .and_then(|m| m.get(&key))
        .map(|b| f64::from_bits(*b))
        .unwrap_or(0.0)
}

#[test]
fn stale_worker_merge_after_stop_is_dropped() {
    let kpz_id = 420;
    let mut state = SchedulerCore::new(0);
    state.tasks.insert(kpz_id, task(kpz_id, 1, 1, NOW_MS + 30_000, true, true));
    let w = with_rv(worker(1, 0, NOW_MS + 1_000), 12345, 77.0);

    let mut queue = JobQueue::new();
    let stopped = on_kpz_stop(*state.tasks.get(&kpz_id).expect("task"), &mut queue);
    state.tasks.insert(kpz_id, stopped);
    let stopped_generation = state.tasks.get(&kpz_id).expect("task").generation;
    let stopped_task = *state.tasks.get(&kpz_id).expect("task");

    state.merge_worker_merge(kpz_id, w);

    let t = state.tasks.get(&kpz_id).expect("task must remain");
    assert_eq!(t.generation, stopped_generation);
    assert_eq!(t.timer.next_a_ms, stopped_task.timer.next_a_ms);
    assert_eq!(t.timer.next_script_ms, stopped_task.timer.next_script_ms);
    assert!(!t.timer.busy_a);
    assert!(!t.timer.busy_s);
    assert_eq!(get_rv(&state, kpz_id, 12345), 0.0);
}

#[test]
fn stale_worker_merge_after_restart_does_not_restore_backoff() {
    let kpz_id = 421;
    let mut state = SchedulerCore::new(0);
    state.tasks.insert(kpz_id, task(kpz_id, 5, 1, NOW_MS + 30_000, true, false));
    let mut w = worker(1, 0, NOW_MS + 600_000);
    w.no_resp_streak = Some(3);

    let mut queue = JobQueue::new();
    let restarted = on_kpz_start(*state.tasks.get(&kpz_id).expect("task"), NOW_MS, &mut queue);
    state.tasks.insert(kpz_id, restarted);
    let restarted_generation = state.tasks.get(&kpz_id).expect("task").generation;
    let restarted_task = *state.tasks.get(&kpz_id).expect("task");

    state.merge_worker_merge(kpz_id, w);

    let t = state.tasks.get(&kpz_id).expect("task must remain");
    assert_eq!(t.generation, restarted_generation);
    assert_eq!(t.timer.next_a_ms, restarted_task.timer.next_a_ms);
    assert_eq!(t.timer.next_script_ms, restarted_task.timer.next_script_ms);
    assert!(!state.no_resp_streak_by_kpz.contains_key(&kpz_id));
}

#[test]
fn stale_worker_merge_after_generation_bump_is_dropped() {
    let kpz_id = 422;
    let mut state = SchedulerCore::new(0);
    state.tasks.insert(kpz_id, task(kpz_id, 1, 1, NOW_MS + 30_000, true, false));
    let w = with_rv(worker(1, 0, NOW_MS + 2_000), 50001, 11.0);
    {
        let t = state.tasks.get_mut(&kpz_id).expect("task");
        t.generation = t.generation.wrapping_add(1);
        t.group_id = 2;
    }
    let current_generation = state.tasks.get(&kpz_id).expect("task").generation;

    state.merge_worker_merge(kpz_id, w);

    let t = state.tasks.get(&kpz_id).expect("task must remain");
    assert_eq!(t.generation, current_generation);
    assert_eq!(t.group_id, 2);
    assert_eq!(get_rv(&state, kpz_id, 50001), 0.0);
}

#[test]
fn stale_worker_merge_after_protocol_generation_bump_is_dropped() {
    let kpz_id = 423;
    let mut state = SchedulerCore::new(0);
    state.tasks.insert(kpz_id, task(kpz_id, 1, 1, NOW_MS + 30_000, true, false));
    let w = with_rv(worker(1, state.protocol_generation, NOW_MS + 2_000), 50002, 22.0);
    state.protocol_generation = state.protocol_generation.wrapping_add(1);
    let current_protocol_generation = state.protocol_generation;

    state.merge_worker_merge(kpz_id, w);

    assert_eq!(state.protocol_generation, current_protocol_generation);
    assert_eq!(get_rv(&state, kpz_id, 50002), 0.0);
    let t = state.tasks.get(&kpz_id).expect("task must remain");
    assert!(t.timer.busy_a);
}

#[test]
fn drain_queue_like_flow_continues_after_failed_worker_and_merges_next_kpz() {
    let mut state = SchedulerCore::new(0);
    state.tasks.insert(100, task(100, 1, 1, NOW_MS + 10_000, true, true));
    state.tasks.insert(200, task(200, 1, 1, NOW_MS + 10_000, true, true));
    let wa = with_rv(worker(1, 0, NOW_MS + 1_000), 50001, 11.0);
    let wb = with_rv(worker(1, 0, NOW_MS + 2_000), 60001, 22.0);

    state.merge_worker_merge(100, wa);
    state.merge_worker_merge(200, wb);

    assert_eq!(get_rv(&state, 100, 50001), 11.0);
    assert_eq!(get_rv(&state, 200, 60001), 22.0);
    let ta = state.tasks.get(&100).expect("task a");
    let tb = state.tasks.get(&200).expect("task b");
    assert!(!ta.timer.busy_a && !ta.timer.busy_s);
    assert!(!tb.timer.busy_a && !tb.timer.busy_s);
}

#[test]
fn applied_merge_takes_over_worker_state_and_adds_counters() {
    let kpz_id = 7;
    let mut state = SchedulerCore::new(3);
    state.tasks.insert(kpz_id, task(kpz_id, 1, 4, NOW_MS, true, true));
    state.alarm_rule_ids_by_kpz.insert(kpz_id, vec![10, 11]);
    state.alarm_runtime.insert(10, AlarmRuntime { active: true, pending_since: 5 });
    state.alarm_runtime.insert(11, AlarmRuntime { active: true, pending_since: 6 });
    state.alarm_runtime.insert(99, AlarmRuntime { active: true, pending_since: 7 });
    state.force_archive_once_reg_ids.insert(1);
    state.force_archive_once_reg_ids.insert(2);
    state.primed_kpz.insert(kpz_id);
    state.metrics.jobs_started = 5;

    let mut w = worker(4, 3, NOW_MS + 9_000);
    w.no_resp_streak = Some(2);
    w.idx_seen = Some(vec![((7i64 << 32) | 40, IdxSeen { last_ts: 100, samples: 2 }), ((8i64 << 32) | 41, IdxSeen { last_ts: 1, samples: 1 })]);
    w.alarm_runtime = Some(vec![(10, AlarmRuntime { active: false, pending_since: 0 })]);
    w.last_a_status = Some("OK".to_string());
    w.force_archive_once_reg_ids.insert(2);
    w.primed_archive_once_kpz_reg = vec![(7i64 << 32) | 5];
    w.metrics.jobs_started = 3;
    w.metrics.jobs_ok = 2;

    state.merge_worker_merge(kpz_id, w);

    let t = state.tasks.get(&kpz_id).expect("task");
    assert_eq!((t.timer.next_a_ms, t.timer.busy_a, t.generation), (NOW_MS + 9_000, false, 4));
    assert!(!state.primed_kpz.contains(&kpz_id));
    assert_eq!(state.no_resp_streak_by_kpz.get(&kpz_id), Some(&2));
    let idx = state.idx_seen_by_kpz.get(&kpz_id).expect("idx");
    assert_eq!(idx.len(), 1);
    assert_eq!(idx.get(&40), Some(&IdxSeen { last_ts: 100, samples: 2 }));
    assert_eq!(state.alarm_runtime.len(), 2);
    assert_eq!(state.alarm_runtime.get(&10), Some(&AlarmRuntime { active: false, pending_since: 0 }));
    assert!(state.alarm_runtime.get(&11).is_none());
    assert_eq!(state.alarm_runtime_by_kpz.get(&kpz_id).expect("alarms").len(), 1);
    assert_eq!(state.last_a_glued_status.get(&kpz_id).map(|s| s.as_str()), Some("OK"));
    assert_eq!(state.force_archive_once_reg_ids.len(), 1);
    assert!(state.force_archive_once_reg_ids.contains(&2));
    assert!(state.primed_archive_once_kpz_reg.contains(&((7i64 << 32) | 5)));
    assert_eq!(state.primed_archive_once_by_kpz.get(&kpz_id).expect("primed").len(), 1);
    assert_eq!((state.metrics.jobs_started, state.metrics.jobs_ok), (8, 2));
}
