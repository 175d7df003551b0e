use std::collections::HashMap;

use scada::alarm::{alarm_debounce_step, announce_targets, is_level1_kind, route_wants, AlarmNotifyRoute, AlarmRuntime};
use scada::post_cmd::{decode_pre_cmds, PreCmd};
use scada::queue::{Job, JobKind, JobQueue};
use scada::tasks::{advance_due, dispatch_due_work, loop_tick, LoopChores, LoopTimers, TaskTimer};
use scada::worker_state::{
    backoff_next, idx_ready, idx_seen_update, next_err_windows_streak, no_response_step,
    refresh_idx_staleness, reset_idx_samples, stale_merge_reason, worker_merge_applies, DiagRateLimiter,
    IdxSeen, LatencyHistogram, IDX_QUALITY_STALE_SEC,
};
use scada::db_model::{effective_runtime_cfg, SchedulerRuntimeCfg};

// ---- script read commands ----

#[test]
fn decode_pre_cmds_skips_when_enable_zero() {
    let mut regs = HashMap::new();
    regs.insert(1000, 0);
    regs.insert(1001, 10);
    regs.insert(1002, 5);
    let out = decode_pre_cmds(&regs, 8, 125);
    assert!(out.is_empty());
}

#[test]
fn decode_pre_cmds_valid_addr_cnt() {
    let mut regs = HashMap::new();
    regs.insert(1000, 1);
    regs.insert(1001, 10);
    regs.insert(1002, 5);
    let out = decode_pre_cmds(&regs, 8, 125);
    assert_eq!(out.len(), 1);
    assert_eq!(out[0].addr_human, 10);
    assert_eq!(out[0].cnt_words, 5);
}

#[test]
fn decode_pre_cmds_rejects_cnt_over_max_words() {
    let mut regs = HashMap::new();
    regs.insert(1000, 1);
    regs.insert(1001, 10);
    regs.insert(1002, 200);
    let out = decode_pre_cmds(&regs, 8, 125);
    assert!(out.is_empty());
}

#[test]
fn decode_pre_cmds_multiple_commands() {
    let mut regs = HashMap::new();
    regs.insert(1000, 1);
    regs.insert(1001, 10);
    regs.insert(1002, 5);
    regs.insert(1003, 1);
    regs.insert(1004, 20);
    regs.insert(1005, 3);
    regs.insert(1006, 1);
    regs.insert(1007, 30);
    regs.insert(1008, 2);
    let out = decode_pre_cmds(&regs, 8, 125);
    assert_eq!(out.len(), 3);
    assert_eq!(out[0].addr_human, 10);
    assert_eq!(out[0].cnt_words, 5);
    assert_eq!(out[1].addr_human, 20);
    assert_eq!(out[1].cnt_words, 3);
    assert_eq!(out[2].addr_human, 30);
    assert_eq!(out[2].cnt_words, 2);
}

#[test]
fn decode_pre_cmds_stops_at_max_k_and_rejects_non_positive_fields() {
    let mut regs = HashMap::new();
    regs.insert(1000, 1);
    regs.insert(1001, 0);
    regs.insert(1002, 5);
    regs.insert(1003, 1);
    regs.insert(1004, 7);
    regs.insert(1005, -1);
    regs.insert(1006, 1);
    regs.insert(1007, 9);
    regs.insert(1008, 125);
    assert_eq!(decode_pre_cmds(&regs, 3, 125), vec![PreCmd { addr_human: 9, cnt_words: 125 }]);
    assert!(decode_pre_cmds(&regs, 2, 125).is_empty());
    assert!(decode_pre_cmds(&regs, 0, 125).is_empty());
    assert!(decode_pre_cmds(&regs, -4, 125).is_empty());
}

// ---- index quality ----

#[test]
fn idx_quality_resets_after_stale_timeout_and_requires_two_samples_again() {
    let addr = 400;
    let mut seen = vec![(addr, IdxSeen::default())];

    let s1 = idx_seen_update(seen[0].1, 1_000).expect("first sample");
    seen[0].1 = s1;
    let s2 = idx_seen_update(seen[0].1, 1_001).expect("second sample");
    seen[0].1 = s2;
    assert!(idx_ready(seen[0].1.samples));

    let stale = refresh_idx_staleness(&mut seen, 1_001 + IDX_QUALITY_STALE_SEC + 1);
    assert_eq!(stale, vec![addr]);
    assert!(!idx_ready(seen[0].1.samples));

    seen[0].1 = idx_seen_update(seen[0].1, 1_002 + IDX_QUALITY_STALE_SEC).expect("fresh sample");
    assert!(!idx_ready(seen[0].1.samples));

    seen[0].1 = idx_seen_update(seen[0].1, 1_003 + IDX_QUALITY_STALE_SEC).expect("fresh sample");
    assert!(idx_ready(seen[0].1.samples));
}

#[test]
fn idx_seen_ignores_samples_that_are_not_newer() {
    let s = IdxSeen { last_ts: 50, samples: 1 };
    assert_eq!(idx_seen_update(s, 50), None);
    assert_eq!(idx_seen_update(s, 49), None);
    assert_eq!(idx_seen_update(s, 51), Some(IdxSeen { last_ts: 51, samples: 2 }));
    let full = IdxSeen { last_ts: 51, samples: 2 };
    assert_eq!(idx_seen_update(full, 60), Some(IdxSeen { last_ts: 60, samples: 2 }));
    // A register never sampled takes any time, 0 and negative ones too.
    assert_eq!(idx_seen_update(IdxSeen::default(), 0), Some(IdxSeen { last_ts: 0, samples: 1 }));
}

#[test]
fn staleness_keeps_fresh_and_unsampled_registers() {
    let mut seen = vec![
        (1, IdxSeen { last_ts: 0, samples: 2 }),
        (2, IdxSeen { last_ts: 1000, samples: 2 }),
        (3, IdxSeen { last_ts: 1400, samples: 2 }),
    ];
    let stale = refresh_idx_staleness(&mut seen, 1300);
    assert!(stale.is_empty());
    let stale = refresh_idx_staleness(&mut seen, 1301);
    assert_eq!(stale, vec![2]);
    assert_eq!(seen[0].1.samples, 2);
    assert_eq!(seen[1].1, IdxSeen { last_ts: 1000, samples: 0 });
    assert_eq!(seen[2].1.samples, 2);
    reset_idx_samples(&mut seen);
    assert!(seen.iter().all(|(_, s)| s.samples == 0));
    assert_eq!(seen[2].1.last_ts, 1400);
}

#[test]
fn no_response_streak_reaches_threshold_and_saturates() {
    assert_eq!(no_response_step(None, 3), (1, false));
    assert_eq!(no_response_step(Some(1), 3), (2, false));
    assert_eq!(no_response_step(Some(2), 3), (3, true));
    assert_eq!(no_response_step(Some(255), 3), (255, true));
    assert_eq!(no_response_step(None, 1), (1, true));
    assert_eq!(backoff_next(100, 700), 700);
    assert_eq!(backoff_next(900, 700), 900);
}

// ---- worker merge guard and metrics ----

#[test]
fn stale_worker_results_are_not_merged() {
    assert!(worker_merge_applies(Some(3), Some(3), 7, 7));
    assert!(!worker_merge_applies(Some(3), None, 7, 7));
    assert!(!worker_merge_applies(None, Some(3), 7, 7));
    assert!(!worker_merge_applies(Some(2), Some(3), 7, 7));
    assert!(!worker_merge_applies(Some(3), Some(3), 6, 7));
    assert_eq!(stale_merge_reason(false, false), "task_generation_mismatch+protocol_generation_mismatch");
    assert_eq!(stale_merge_reason(false, true), "task_generation_mismatch");
    assert_eq!(stale_merge_reason(true, false), "protocol_generation_mismatch");
    assert_eq!(stale_merge_reason(true, true), "unknown");
}

#[test]
fn latency_histogram_buckets_and_percentiles() {
    let mut h = LatencyHistogram::new();
    for ms in [0u64, 100, 101, 300, 301, 1000, 1001, 50_000] {
        h.record(ms);
    }
    assert_eq!(h, LatencyHistogram { le_100_ms: 2, le_300_ms: 2, le_1000_ms: 2, gt_1000_ms: 2 });
    assert_eq!(h.percentile_ms(0, 5), 0);
    assert_eq!(h.percentile_ms(8, 0), 100);
    assert_eq!(h.percentile_ms(8, 2), 100);
    assert_eq!(h.percentile_ms(8, 3), 300);
    assert_eq!(h.percentile_ms(8, 6), 1000);
    assert_eq!(h.percentile_ms(8, 7), 3000);
    let no_slow = LatencyHistogram { le_100_ms: 1, le_300_ms: 0, le_1000_ms: 0, gt_1000_ms: 0 };
    assert_eq!(no_slow.percentile_ms(1, 5), 1000);
    assert_eq!(next_err_windows_streak(2, 10, 1), 3);
    assert_eq!(next_err_windows_streak(2, 10, 0), 0);
    assert_eq!(next_err_windows_streak(2, 0, 0), 0);
    assert_eq!(next_err_windows_streak(u32::MAX, 1, 1), u32::MAX);
}

// ---- alarms ----

fn route(chat: &str, on_on: bool, on_off: bool, thr_main: bool, thr_lvl1: bool) -> AlarmNotifyRoute {
    AlarmNotifyRoute { chat_id: chat.to_string(), on_on, on_off, thr_main, thr_lvl1 }
}

#[test]
fn alarm_switches_on_after_on_delay() {
    let st = AlarmRuntime::default();
    let (st, fired) = alarm_debounce_step(st, true, 100, 10, 5);
    assert!(!fired);
    assert_eq!(st, AlarmRuntime { active: false, pending_since: 100 });
    let (st, fired) = alarm_debounce_step(st, true, 109, 10, 5);
    assert!(!fired);
    assert_eq!(st.pending_since, 100);
    let (st, fired) = alarm_debounce_step(st, true, 110, 10, 5);
    assert!(fired);
    assert_eq!(st, AlarmRuntime { active: true, pending_since: 0 });
    // Switching off waits for the off delay.
    let (st, fired) = alarm_debounce_step(st, false, 200, 10, 5);
    assert!(!fired);
    let (st2, fired) = alarm_debounce_step(st, false, 204, 10, 5);
    assert!(!fired);
    let (st3, fired) = alarm_debounce_step(st2, false, 205, 10, 5);
    assert!(fired);
    assert_eq!(st3, AlarmRuntime { active: false, pending_since: 0 });
}

#[test]
fn alarm_agreement_cancels_pending_and_negative_delay_means_none() {
    let st = AlarmRuntime { active: false, pending_since: 100 };
    let (st, fired) = alarm_debounce_step(st, false, 150, 10, 5);
    assert!(!fired);
    assert_eq!(st, AlarmRuntime { active: false, pending_since: 0 });
    let (st, _) = alarm_debounce_step(st, true, 160, -7, 5);
    let (st, fired) = alarm_debounce_step(st, true, 160, -7, 5);
    assert!(fired);
    assert!(st.active);
}

#[test]
fn alarm_routes_filter_by_event_level_and_chat() {
    assert!(is_level1_kind("gt_1"));
    assert!(is_level1_kind("lt_1"));
    assert!(!is_level1_kind("gt"));
    assert!(!is_level1_kind("1"));
    assert!(!is_level1_kind("gt_2"));
    let routes = vec![
        route("100", true, false, true, false),
        route("  ", true, true, true, true),
        route("200", true, true, false, true),
        route("300", false, true, true, true),
    ];
    assert!(route_wants(&routes[0], true, false));
    assert!(!route_wants(&routes[0], false, false));
    assert!(!route_wants(&routes[1], true, false));
    assert_eq!(announce_targets(&routes, true, "gt"), vec!["100".to_string()]);
    assert_eq!(announce_targets(&routes, true, "gt_1"), vec!["200".to_string()]);
    assert_eq!(announce_targets(&routes, false, "lt_1"), vec!["200".to_string(), "300".to_string()]);
}

// ---- dispatch ----

fn timer(kpz_id: i32, start: i32, t_a: i32, t_script: i32, next_a_ms: u64, next_script_ms: u64) -> TaskTimer {
    TaskTimer { kpz_id, start, t_a, t_script, next_a_ms, next_script_ms, busy_a: false, busy_s: false }
}

#[test]
fn advance_due_counts_whole_periods() {
    assert_eq!(advance_due(1000, 999, 500), (1000, 0));
    assert_eq!(advance_due(1000, 1000, 500), (1500, 1));
    assert_eq!(advance_due(1000, 2499, 500), (2500, 3));
    assert_eq!(advance_due(1000, 2500, 500), (3000, 4));
}

#[test]
fn dispatch_queues_due_jobs_and_counts_skipped_periods() {
    let mut timers = vec![
        timer(1, 1, 10, 20, 0, 0),
        timer(2, 0, 10, 20, 0, 0),
        timer(3, 1, 0, 1, 50_000, 0),
    ];
    timers[2].busy_s = true;
    let mut q = JobQueue::new();
    let mut dropped = 0u64;
    dispatch_due_work(&mut timers, &mut q, 10, 25_000, &mut dropped);
    // КПЗ 1: A due 3 times (0, 10 s, 20 s), script due twice (0, 20 s).
    assert_eq!(timers[0].next_a_ms, 30_000);
    assert_eq!(timers[0].next_script_ms, 40_000);
    assert!(timers[0].busy_a && timers[0].busy_s);
    // КПЗ 2 is not started.
    assert_eq!(timers[1], timer(2, 0, 10, 20, 0, 0));
    // КПЗ 3: A not due yet, script busy.
    assert_eq!(timers[2].next_a_ms, 50_000);
    assert_eq!(timers[2].next_script_ms, 0);
    assert_eq!(q.len(), 2);
    assert_eq!(q.get(0), Job { kpz_id: 1, kind: JobKind::A });
    assert_eq!(q.get(1), Job { kpz_id: 1, kind: JobKind::S });
    assert_eq!(dropped, 3);
}

#[test]
fn dispatch_stops_when_queue_is_full() {
    let mut timers = vec![timer(1, 1, 1, 1, 0, 0), timer(2, 1, 1, 1, 0, 0)];
    let mut q = JobQueue::new();
    let mut dropped = 0u64;
    dispatch_due_work(&mut timers, &mut q, 1, 500, &mut dropped);
    // A of КПЗ 1 fills the queue; its script job is due but counted as dropped.
    assert_eq!(q.len(), 1);
    assert!(timers[0].busy_a);
    assert!(!timers[0].busy_s);
    assert_eq!(timers[0].next_script_ms, 1000);
    // The full queue stops the round before КПЗ 2.
    assert_eq!(timers[1], timer(2, 1, 1, 1, 0, 0));
    assert_eq!(dropped, 2);
}

#[test]
fn repeated_diagnostics_are_rate_limited_per_kind() {
    let mut rl = DiagRateLimiter::new();
    assert!(rl.should_emit("sync:n_mb", 1_000, 60_000));
    assert!(!rl.should_emit("sync:n_mb", 30_000, 60_000));
    assert!(rl.should_emit("worker_fail:1", 30_000, 60_000));
    assert!(!rl.should_emit("sync:n_mb", 60_999, 60_000));
    assert!(rl.should_emit("sync:n_mb", 61_000, 60_000));
    assert!(!rl.should_emit("sync:n_mb", 100_000, 60_000));
    // A clock that goes back counts as no time passed.
    assert!(!rl.should_emit("worker_fail:1", 10, 60_000));
}

#[test]
fn applied_runtime_settings_have_floors() {
    let raw = SchedulerRuntimeCfg {
        no_response_failures: 0,
        no_response_backoff_sec: 0,
        metrics_p95_warn_ms: 50,
        metrics_p95_crit_ms: 70,
        modbus_a_timeout_ms: 10,
        modbus_script_timeout_ms: 6000,
    };
    let c = effective_runtime_cfg(raw);
    assert_eq!(
        c,
        SchedulerRuntimeCfg {
            no_response_failures: 1,
            no_response_backoff_sec: 1,
            metrics_p95_warn_ms: 100,
            metrics_p95_crit_ms: 100,
            modbus_a_timeout_ms: 200,
            modbus_script_timeout_ms: 6000,
        }
    );
}

#[test]
fn scheduler_loop_runs_each_chore_on_its_period() {
    let t0 = LoopTimers { next_runtime_sync_ms: 0, next_topology_sync_ms: 0, next_cleanup_ms: 0, next_writer_log_ms: 60_000 };
    let (t1, c1) = loop_tick(t0, 1_000, 2);
    assert_eq!(c1, LoopChores { runtime_sync: true, topology_sync: true, cleanup: true, writer_log: false });
    assert_eq!(t1, LoopTimers { next_runtime_sync_ms: 3_000, next_topology_sync_ms: 31_000, next_cleanup_ms: 181_000, next_writer_log_ms: 60_000 });
    let (t2, c2) = loop_tick(t1, 2_999, 2);
    assert_eq!(c2, LoopChores { runtime_sync: false, topology_sync: false, cleanup: false, writer_log: false });
    assert_eq!(t2, t1);
    let (_, c3) = loop_tick(t2, 60_000, 2);
    assert_eq!(c3, LoopChores { runtime_sync: true, topology_sync: true, cleanup: false, writer_log: true });
}
