use scada::db_batch::{append_coalescing, cleanup_after_batch, CleanupProgress};

#[test]
fn alarm_state_updates_coalesce_by_rule_id() {
    let mut batch: Vec<((i64, i64), (bool, f64))> = Vec::new();
    let n = append_coalescing(
        &mut batch,
        vec![((10, 0), (false, 1.0)), ((10, 0), (true, 2.5)), ((11, 0), (true, 3.0))],
    );
    assert_eq!(n, 1);
    assert_eq!(batch.len(), 2);
    let rule10 = batch.iter().find(|u| u.0 == (10, 0)).expect("rule 10");
    assert!(rule10.1 .0);
    assert!((rule10.1 .1 - 2.5).abs() < f64::EPSILON);
}

#[test]
fn arx_state_updates_coalesce_by_kpz_and_arx_id() {
    let mut batch: Vec<((i64, i64), i32)> = Vec::new();
    let n = append_coalescing(&mut batch, vec![((1, 7), 10), ((1, 7), 11), ((2, 7), 12)]);
    assert_eq!(n, 1);
    assert_eq!(batch, vec![((1, 7), 11), ((2, 7), 12)]);
}

#[test]
fn appending_coalesces_incrementally_and_keeps_first_position() {
    let mut batch: Vec<((i64, i64), i32)> = vec![((10, 0), 1), ((20, 0), 2)];
    let n = append_coalescing(&mut batch, vec![((10, 0), 3), ((30, 0), 4), ((30, 0), 5)]);
    assert_eq!(n, 2);
    assert_eq!(batch, vec![((10, 0), 3), ((20, 0), 2), ((30, 0), 5)]);
    assert_eq!(append_coalescing(&mut batch, Vec::new()), 0);
    assert_eq!(batch.len(), 3);
}

#[test]
fn retention_cleanup_runs_full_batches_up_to_the_limit() {
    let p0 = CleanupProgress { batches: 0, deleted: 0 };
    let (p1, more) = cleanup_after_batch(p0, Some(5000), 5000, 20);
    assert_eq!(p1, CleanupProgress { batches: 1, deleted: 5000 });
    assert!(more);
    let (p2, more) = cleanup_after_batch(p1, Some(10), 5000, 20);
    assert_eq!(p2, CleanupProgress { batches: 2, deleted: 5010 });
    assert!(!more);
    let (p3, more) = cleanup_after_batch(p1, None, 5000, 20);
    assert_eq!(p3, CleanupProgress { batches: 2, deleted: 5000 });
    assert!(!more);
    let last = CleanupProgress { batches: 19, deleted: 0 };
    assert!(!cleanup_after_batch(last, Some(5000), 5000, 20).1);
}
