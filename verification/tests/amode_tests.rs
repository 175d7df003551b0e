use std::collections::{HashMap, HashSet};

use scada::amode::{
    archive_key, archive_once_step, check_a_mode_answer, plan_a_mode, regs_in_block, AModeError,
};
use scada::poll_plan::ReadBlock;
use scada::reg::Reg;

fn reg(id: i32, addr: i32, n_mb: i32, tip: i32, grup: i32) -> Reg {
    Reg {
        id,
        name: format!("r{}", id),
        addr,
        n_mb: Some(n_mb),
        tip,
        bits: None,
        grup: Some(grup),
        a_en: true,
        a_no_write: 0,
    }
}

#[test]
fn a_mode_plan_splits_script_groups_by_trimmed_byte_length() {
    let mut pre: HashMap<i32, Option<String>> = HashMap::new();
    pre.insert(1, Some(" run() ".to_string()));
    pre.insert(3, Some(" ыы ".to_string()));
    pre.insert(4, Some("  ab  ".to_string()));
    pre.insert(5, None);
    let mut regs: HashMap<i32, Vec<Reg>> = HashMap::new();
    regs.insert(2, vec![reg(11, 101, 1, 3, 2), reg(10, 100, 1, 3, 2)]);
    regs.insert(4, vec![reg(20, 7, 9, 3, 4)]);
    let plan = plan_a_mode(&[1, 2, 3, 4, 5], 2, &pre, &regs, Some(1), Some(2));
    assert_eq!(plan.a_groups, vec![2, 4, 5]);
    assert_eq!(plan.script_groups, vec![1, 3]);
    assert_eq!(plan.group_plans.len(), 1);
    assert_eq!(plan.group_plans[0].group_id, 2);
    let ids: Vec<i32> = plan.group_plans[0].regs_poll_sorted.iter().map(|r| r.id).collect();
    assert_eq!(ids, vec![10, 11]);
    assert!(plan.group_plans[0].write_ids.contains(&10));
    assert_eq!(plan.block_plans.len(), 1);
    assert_eq!(plan.block_plans[0].group_idx, 0);
    assert_eq!(plan.block_plans[0].block, ReadBlock { adr: 100, cnt_words: 2, func: 4 });
}

#[test]
fn a_mode_answer_must_have_every_response() {
    assert_eq!(check_a_mode_answer(3, 3), Ok(()));
    assert_eq!(check_a_mode_answer(3, 2), Err(AModeError::CountMismatch { received: 2, expected: 3 }));
    assert_eq!(check_a_mode_answer(0, 1), Err(AModeError::CountMismatch { received: 1, expected: 0 }));
}

#[test]
fn block_answer_holds_registers_wholly_inside_it() {
    let regs = vec![reg(1, 100, 1, 3, 1), reg(2, 101, 1, 2, 1), reg(3, 103, 2, 3, 1), reg(4, 105, 1, 3, 1)];
    let full = ReadBlock { adr: 100, cnt_words: 3, func: 4 };
    assert_eq!(regs_in_block(&regs, full, Some(1), Some(2)), vec![0, 1]);
    let partial = ReadBlock { adr: 101, cnt_words: 1, func: 4 };
    assert_eq!(regs_in_block(&regs, partial, Some(1), Some(2)), Vec::<usize>::new());
    let holding = ReadBlock { adr: 103, cnt_words: 1, func: 3 };
    assert_eq!(regs_in_block(&regs, holding, Some(1), Some(2)), vec![2]);
    let tail = ReadBlock { adr: 105, cnt_words: 1, func: 4 };
    assert_eq!(regs_in_block(&regs, tail, Some(1), Some(2)), vec![3]);
}

#[test]
fn archive_once_archives_first_forced_and_changed_values() {
    let mut primed: HashSet<i64> = HashSet::new();
    let mut force: HashSet<i32> = HashSet::new();
    let mut write_ids: HashSet<i32> = HashSet::new();
    write_ids.insert(5);
    write_ids.insert(6);
    assert_eq!(archive_key(7, 5), (7i64 << 32) | 5);
    assert_eq!(archive_key(1, -1), (1i64 << 32) | 0xFFFF_FFFF);

    assert!(archive_once_step(&mut primed, &mut force, &write_ids, 7, 5, false));
    assert!(primed.contains(&archive_key(7, 5)));
    assert!(!archive_once_step(&mut primed, &mut force, &write_ids, 7, 5, false));
    assert!(archive_once_step(&mut primed, &mut force, &write_ids, 7, 5, true));

    force.insert(5);
    assert!(archive_once_step(&mut primed, &mut force, &write_ids, 7, 5, false));
    assert!(!force.contains(&5));

    assert!(!archive_once_step(&mut primed, &mut force, &write_ids, 7, 9, true));
    assert!(!primed.contains(&archive_key(7, 9)));
}

#[test]
fn registers_in_an_address_range_saturate_at_the_top() {
    let regs = vec![reg(1, 10, 1, 3, 1), reg(2, 12, 1, 3, 1), reg(3, 9, 1, 3, 1), reg(4, i32::MAX, 1, 3, 1)];
    let ids = |v: Vec<Reg>| v.iter().map(|r| r.id).collect::<Vec<i32>>();
    assert_eq!(ids(scada::poll_plan::regs_in_range(&regs, 10, 3)), vec![1, 2]);
    assert_eq!(ids(scada::poll_plan::regs_in_range(&regs, 10, 2)), vec![1]);
    assert_eq!(ids(scada::poll_plan::regs_in_range(&regs, 10, -5)), Vec::<i32>::new());
    assert_eq!(ids(scada::poll_plan::regs_in_range(&regs, i32::MAX - 1, 10)), Vec::<i32>::new());
    assert_eq!(ids(scada::poll_plan::regs_in_range(&regs, 9, i32::MAX)), vec![1, 2, 3]);
}
