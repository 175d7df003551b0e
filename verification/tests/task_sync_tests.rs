use scada::db_model::TopologyFingerprint;
use scada::queue::{Job, JobKind, JobQueue};
use scada::task_sync::{new_task, on_kpz_start, on_kpz_stop, topology_changes, update_task, TopologyChanges};
use scada::worker_state::worker_merge_applies;

fn fp(kpz: i64, obj: i64, reg: i64) -> TopologyFingerprint {
    TopologyFingerprint { kpz_sig: kpz, obj_sig: obj, ip_sig: 0, port_sig: 0, n_mb_sig: 0, reg_sig: reg, g_script_sig: 0, binding_sig: 0 }
}

#[test]
fn topology_changes_reload_only_what_changed() {
    assert_eq!(topology_changes(None, fp(1, 2, 3)), Some(TopologyChanges { kpz: true, conn: true, protocol: true }));
    assert_eq!(topology_changes(Some(fp(1, 2, 3)), fp(1, 2, 3)), None);
    assert_eq!(topology_changes(Some(fp(1, 2, 3)), fp(9, 2, 3)), Some(TopologyChanges { kpz: true, conn: false, protocol: false }));
    assert_eq!(topology_changes(Some(fp(1, 2, 3)), fp(1, 5, 3)), Some(TopologyChanges { kpz: false, conn: true, protocol: false }));
    assert_eq!(topology_changes(Some(fp(1, 2, 3)), fp(1, 2, 7)), Some(TopologyChanges { kpz: false, conn: false, protocol: true }));
}

#[test]
fn new_task_starts_within_its_periods() {
    let t = new_task(42, 1, 10, 0, 7, 5_000);
    assert_eq!(t.generation, 1);
    assert_eq!(t.group_id, 7);
    assert!(!t.timer.busy_a && !t.timer.busy_s);
    assert!(t.timer.next_a_ms >= 5_000 && t.timer.next_a_ms < 15_000);
    assert!(t.timer.next_script_ms >= 5_000 && t.timer.next_script_ms < 6_000);
    // The row's periods are kept as given.
    let raw = new_task(1, 1, 9000, -3, 1, 0);
    assert_eq!((raw.timer.t_a, raw.timer.t_script), (9000, -3));
}

#[test]
fn update_moves_generation_only_on_change_and_clamps_periods() {
    let t = new_task(42, 0, 10, 20, 7, 0);
    let (same, on, off) = update_task(t, 0, 10, 20, 7);
    assert_eq!(same.generation, 1);
    assert!(!on && !off);
    let (started, on, off) = update_task(t, 1, 10, 20, 7);
    assert_eq!(started.generation, 2);
    assert!(on && !off);
    let (clamped, _, _) = update_task(started, 1, 9000, -1, 7);
    assert_eq!((clamped.timer.t_a, clamped.timer.t_script), (3600, 0));
    assert_eq!(clamped.generation, 3);
    let (stopped, on, off) = update_task(clamped, 0, 9000, -1, 7);
    assert!(!on && off);
    assert_eq!(stopped.generation, 4);
    // Results of a job started in an earlier generation are dropped.
    assert!(!worker_merge_applies(Some(t.generation), Some(started.generation), 1, 1));
    assert!(worker_merge_applies(Some(started.generation), Some(started.generation), 1, 1));
}

#[test]
fn start_and_stop_drop_only_the_kpz_jobs() {
    let mut q = JobQueue::new();
    q.push_back(Job { kpz_id: 1, kind: JobKind::A });
    q.push_back(Job { kpz_id: 2, kind: JobKind::A });
    q.push_back(Job { kpz_id: 1, kind: JobKind::S });
    let mut t = new_task(1, 1, 10, 10, 3, 0);
    t.timer.busy_a = true;
    let t2 = on_kpz_start(t, 100_000, &mut q);
    assert_eq!(q.len(), 1);
    assert_eq!(q.get(0), Job { kpz_id: 2, kind: JobKind::A });
    assert_eq!(t2.generation, 2);
    assert!(!t2.timer.busy_a);
    assert!(t2.timer.next_a_ms >= 100_000 && t2.timer.next_a_ms < 110_000);
    q.push_back(Job { kpz_id: 1, kind: JobKind::A });
    let t3 = on_kpz_stop(t2, &mut q);
    assert_eq!(q.len(), 1);
    assert_eq!(t3.generation, 3);
    assert_eq!(t3.timer.next_a_ms, t2.timer.next_a_ms);
}
