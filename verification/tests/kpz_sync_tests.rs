use std::collections::HashSet;

use scada::merge::SchedulerCore;
use scada::queue::{JobKind, JobQueue};
use scada::support::decode_groups;

fn mask(byte: usize, bits: u8) -> Vec<u8> {
    let mut m = vec![0u8; 64];
    m[byte] = bits;
    m
}

#[test]
fn kpz_rows_create_update_start_and_stop_tasks() {
    let mut state = SchedulerCore::new(0);
    let mut queue = JobQueue::new();
    let grups = mask(1, 0b0000_0110);
    let first = decode_groups(&grups)[0];

    assert_eq!(state.apply_kpz_row(&mut queue, 5, 1, 5000, 0, &grups, 1_000), (true, false));
    let t = *state.tasks.get(&5).expect("task");
    assert_eq!(t.group_id, first);
    assert_eq!(t.generation, 2);
    assert_eq!((t.timer.t_a, t.timer.t_script), (5000, 0));
    assert!(!t.timer.busy_a && !t.timer.busy_s);

    queue.push_back(scada::queue::Job { kpz_id: 5, kind: JobKind::A });
    queue.push_back(scada::queue::Job { kpz_id: 6, kind: JobKind::A });
    assert_eq!(state.apply_kpz_row(&mut queue, 5, 0, 5000, 0, &grups, 2_000), (false, true));
    let t = *state.tasks.get(&5).expect("task");
    assert_eq!(t.generation, 4);
    assert_eq!(t.timer.t_a, 3600);
    assert_eq!(queue.len(), 1);

    assert_eq!(state.apply_kpz_row(&mut queue, 5, 0, 3600, 0, &grups, 3_000), (false, false));
    assert_eq!(state.tasks.get(&5).expect("task").generation, 4);

    assert_eq!(state.apply_kpz_row(&mut queue, 9, 1, 10, 10, &vec![0u8; 64], 3_000), (false, false));
    assert!(!state.tasks.contains_key(&9));
    assert_eq!(state.apply_kpz_row(&mut queue, 9, 1, 10, 10, &[1u8, 2, 3], 3_000), (false, false));
    assert!(!state.tasks.contains_key(&9));
}

#[test]
fn missing_kpz_lose_their_task_and_state() {
    let mut state = SchedulerCore::new(0);
    let mut queue = JobQueue::new();
    let grups = mask(0, 1);
    state.apply_kpz_row(&mut queue, 1, 0, 10, 10, &grups, 0);
    state.apply_kpz_row(&mut queue, 2, 0, 10, 10, &grups, 0);
    state.apply_kpz_row(&mut queue, 3, 0, 10, 10, &grups, 0);
    state.primed_kpz.insert(2);
    state.no_resp_streak_by_kpz.insert(2, 4);
    state.primed_kpz.insert(3);
    let mut seen = HashSet::new();
    seen.insert(1);
    seen.insert(3);
    seen.insert(77);
    let removed = state.remove_missing_kpz(&seen);
    assert_eq!(removed, vec![2]);
    assert!(!state.tasks.contains_key(&2));
    assert!(state.tasks.contains_key(&1) && state.tasks.contains_key(&3));
    assert!(!state.primed_kpz.contains(&2));
    assert!(state.primed_kpz.contains(&3));
    assert!(state.no_resp_streak_by_kpz.is_empty());
}
