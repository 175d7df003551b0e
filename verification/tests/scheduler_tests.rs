use std::collections::HashSet;

use scada::poll_plan::{build_blocks_with_func, plan_group_reads, words_from_modbus_frame};
use scada::post_cmd::{build_post_device_mb, is_post_command_key, post_addr_to_wire, PostDeviceCmd};
use scada::queue::{Job, JobKind, JobQueue};
use scada::reg::Reg;
use scada::support::{clamp_period, decode_groups, phase_offset, svc_arx_key, svc_base_for, svc_key};

fn reg(addr: i32, tip: i32) -> Reg {
    Reg {
        id: addr,
        name: format!("r{}", addr),
        addr,
        n_mb: Some(1),
        tip,
        bits: None,
        grup: Some(1),
        a_en: true,
        a_no_write: 0,
    }
}

#[test]
fn decode_groups_decodes_bits() {
    let mut g = vec![0u8; 64];
    g[0] |= 1 << 0; // group 1
    g[1] |= 1 << 1; // bit 9 => group 10
    let out = decode_groups(&g);
    assert!(out.contains(&1));
    assert!(out.contains(&10));
    assert_eq!(out.len(), 2);
}

#[test]
fn decode_groups_needs_64_bytes_and_reaches_group_512() {
    assert!(decode_groups(&[0xFFu8; 63]).is_empty());
    let mut g = vec![0u8; 64];
    g[63] = 0x80;
    g[0] = 0x05;
    assert_eq!(decode_groups(&g), vec![1, 3, 512]);
}

#[test]
fn build_blocks_splits_by_gap() {
    let regs = vec![reg(0, 3), reg(1, 3), reg(10, 3)];
    let blocks = build_blocks_with_func(&regs, 120, 4);
    assert_eq!(blocks.len(), 2);
    assert_eq!(blocks[0].adr, 0);
    assert_eq!(blocks[0].cnt_words, 2);
    assert_eq!(blocks[0].func, 4);
    assert_eq!(blocks[1].adr, 10);
    assert_eq!(blocks[1].cnt_words, 1);
    assert_eq!(blocks[1].func, 4);
}

#[test]
fn build_blocks_splits_at_block_limit_and_counts_32_bit_registers() {
    let regs = vec![reg(2, 2), reg(0, 2), reg(4, 3)];
    let blocks = build_blocks_with_func(&regs, 4, 3);
    assert_eq!(blocks.len(), 2);
    assert_eq!((blocks[0].adr, blocks[0].cnt_words), (0, 4));
    assert_eq!((blocks[1].adr, blocks[1].cnt_words), (4, 1));
}

#[test]
fn plan_group_reads_builds_sorted_blocks_and_write_ids_in_one_pass() {
    let mut r1 = reg(10, 3);
    r1.id = 101;
    r1.n_mb = Some(1); // FC4

    let mut r2 = reg(0, 3);
    r2.id = 102;
    r2.n_mb = Some(2); // FC3

    let mut r3 = reg(1, 3);
    r3.id = 103;
    r3.n_mb = Some(2); // FC3
    r3.a_no_write = 1;

    let regs = vec![r1.clone(), r2.clone(), r3.clone()];
    let (regs_poll_sorted, write_ids, blocks) = plan_group_reads(&regs, Some(1), Some(2), 120).expect("group plan");

    assert_eq!(regs_poll_sorted.len(), 3);
    assert_eq!(regs_poll_sorted[0].addr, 0);
    assert_eq!(regs_poll_sorted[1].addr, 1);
    assert_eq!(regs_poll_sorted[2].addr, 10);

    assert!(write_ids.contains(&101));
    assert!(write_ids.contains(&102));
    assert!(!write_ids.contains(&103));

    assert_eq!(blocks.len(), 2);
    assert_eq!(blocks[0].adr, 0);
    assert_eq!(blocks[0].cnt_words, 2);
    assert_eq!(blocks[0].func, 3);
    assert_eq!(blocks[1].adr, 10);
    assert_eq!(blocks[1].cnt_words, 1);
    assert_eq!(blocks[1].func, 4);
}

#[test]
fn plan_group_reads_skips_unknown_tables_and_bad_addresses() {
    let mut r1 = reg(5, 3);
    r1.n_mb = Some(9);
    let r2 = reg(70000, 3);
    assert!(plan_group_reads(&[r1, r2], Some(1), Some(2), 120).is_none());
}

#[test]
fn words_from_modbus_frame_reads_words() {
    let mb = vec![1u8, 3, 4, 0x12, 0x34, 0x56, 0x78, 0, 0];
    let words = words_from_modbus_frame(&mb, 2);
    assert_eq!(words, vec![0x1234, 0x5678]);
}

#[test]
fn words_from_modbus_frame_rejects_exception_and_short_count() {
    assert!(words_from_modbus_frame(&[1u8, 0x83, 2, 0, 0], 1).is_empty());
    assert!(words_from_modbus_frame(&[1u8, 3, 2, 0x12, 0x34], 2).is_empty());
    assert_eq!(words_from_modbus_frame(&[0xF8u8, 0x35, 4, 0, 2, 0xAB, 0xCD], 1), vec![0xABCD]);
}

#[test]
fn post_command_keys_are_reserved() {
    assert!(is_post_command_key(920));
    assert!(is_post_command_key(921));
    assert!(is_post_command_key(922));
    assert!(is_post_command_key(923));
    assert!(!is_post_command_key(919));
    assert!(!is_post_command_key(924));
}

#[test]
fn post_addr_converts_from_1_based_to_wire() {
    assert_eq!(post_addr_to_wire(1), 0);
    assert_eq!(post_addr_to_wire(512), 511);
    assert_eq!(post_addr_to_wire(515), 514);
    assert_eq!(post_addr_to_wire(0), 0);
}

#[test]
fn build_post_device_mb_fc5_uses_wire_addr_and_ff00() {
    // value 1.0: the coil is switched on.
    let cmd = PostDeviceCmd { func: 5, addr: 512, coil_on: true, word: 1 };
    let (addr_wire, mb) = build_post_device_mb(301, cmd).expect("mb");
    assert_eq!(addr_wire, 511);
    assert_eq!(mb[0], 0xF8);
    assert_eq!(mb[1], 0x35);
    assert_eq!(mb[2], 0x05);
    assert_eq!(mb[3], 0x01);
    assert_eq!(mb[4], 0xFF);
    assert_eq!(mb[5], 0xFF);
    assert_eq!(mb[6], 0x00);
}

#[test]
fn build_post_device_mb_fc6_uses_wire_addr_and_single_word() {
    // value 0x1234 as f64.
    let cmd = PostDeviceCmd { func: 6, addr: 515, coil_on: true, word: 0x1234 };
    let (addr_wire, mb) = build_post_device_mb(301, cmd).expect("mb");
    assert_eq!(addr_wire, 514);
    assert_eq!(mb[0], 0xF8);
    assert_eq!(mb[1], 0x35);
    assert_eq!(mb[2], 0x06);
    assert_eq!(mb[3], 0x02);
    assert_eq!(mb[4], 0x02);
    assert_eq!(mb[5], 0x12);
    assert_eq!(mb[6], 0x34);
}

#[test]
fn build_post_device_mb_rejects_unsupported_func() {
    let cmd = PostDeviceCmd { func: 16, addr: 512, coil_on: true, word: 1 };
    assert!(build_post_device_mb(301, cmd).is_none());
}

#[test]
fn build_post_device_mb_rejects_bad_address_and_coil_off_is_zero() {
    let cmd = PostDeviceCmd { func: 5, addr: 65536, coil_on: true, word: 1 };
    assert!(build_post_device_mb(1, cmd).is_none());
    let cmd = PostDeviceCmd { func: 5, addr: 1, coil_on: false, word: 0 };
    let (a, mb) = build_post_device_mb(1, cmd).expect("mb");
    assert_eq!(a, 0);
    assert_eq!(&mb[..6], &[0x01, 0x05, 0x00, 0x00, 0x00, 0x00]);
}

#[test]
fn phase_offset_is_within_period() {
    let p: u64 = 20_000; // 20 s
    for id in [5, 1001, 1050, 1099] {
        let a = phase_offset(p, id, 0);
        let s = phase_offset(p, id, 1);
        assert!(a < p);
        assert!(s < p);
    }
}

#[test]
fn phase_offset_is_zero_for_empty_period_and_depends_on_kind() {
    assert_eq!(phase_offset(0, 42, 0), 0);
    let a = phase_offset(1_000_000, 42, 0);
    let s = phase_offset(1_000_000, 42, 1);
    assert_ne!(a, s);
}

#[test]
fn clamp_period_limits() {
    assert_eq!(clamp_period(-5), 0);
    assert_eq!(clamp_period(0), 0);
    assert_eq!(clamp_period(1), 1);
    assert_eq!(clamp_period(3600), 3600);
    assert_eq!(clamp_period(3601), 3600);
}

#[test]
fn svc_keys_are_scoped_per_kpz() {
    assert_eq!(svc_base_for(0), 1_000_000_000);
    assert_eq!(svc_base_for(3), 1_000_600_000);
    assert_eq!(svc_key(3, 80000), 1_000_680_000);
    assert_eq!(svc_arx_key(3, 7), 1_000_640_007);
}

#[test]
fn pop_next_spawnable_job_skips_running_kpz_without_rotating_queue() {
    let mut q = JobQueue::new();
    q.push_back(Job { kpz_id: 10, kind: JobKind::A });
    q.push_back(Job { kpz_id: 10, kind: JobKind::S });
    q.push_back(Job { kpz_id: 20, kind: JobKind::A });

    let running_kpz = HashSet::from([10]);
    let next = q.pop_next_spawnable(&running_kpz).expect("spawnable job");

    assert_eq!(next.kpz_id, 20);
    assert_eq!(q.len(), 2);
    assert_eq!(q.get(0).kpz_id, 10);
    assert_eq!(q.get(1).kpz_id, 10);
    assert!(matches!(q.get(0).kind, JobKind::A));
    assert!(matches!(q.get(1).kind, JobKind::S));
}

#[test]
fn job_queue_retain_keeps_only_matching_kpz_and_preserves_order() {
    let mut q = JobQueue::new();
    q.push_back(Job { kpz_id: 10, kind: JobKind::A });
    q.push_back(Job { kpz_id: 20, kind: JobKind::A });
    q.push_back(Job { kpz_id: 10, kind: JobKind::S });
    q.push_back(Job { kpz_id: 30, kind: JobKind::A });
    assert_eq!(q.len(), 4);
    q.retain(|j| j.kpz_id == 10);
    assert_eq!(q.len(), 2);
    assert_eq!(q.get(0).kpz_id, 10);
    assert!(matches!(q.get(0).kind, JobKind::A));
    assert_eq!(q.get(1).kpz_id, 10);
    assert!(matches!(q.get(1).kind, JobKind::S));
}

#[test]
fn job_queue_one_kpz_not_parallel_pop_returns_one_at_a_time_for_same_kpz() {
    let mut q = JobQueue::new();
    q.push_back(Job { kpz_id: 5, kind: JobKind::A });
    q.push_back(Job { kpz_id: 5, kind: JobKind::S });
    let running = HashSet::new();
    let first = q.pop_next_spawnable(&running).expect("first");
    assert_eq!(first.kpz_id, 5);
    assert!(matches!(first.kind, JobKind::A));
    let running_5 = HashSet::from([5]);
    assert!(q.pop_next_spawnable(&running_5).is_none(), "same kpz running, no second");
    let running_empty: HashSet<i32> = HashSet::new();
    let second = q.pop_next_spawnable(&running_empty).expect("second after first done");
    assert_eq!(second.kpz_id, 5);
    assert!(matches!(second.kind, JobKind::S));
}

#[test]
fn job_queue_is_fifo_when_nothing_runs() {
    let mut q = JobQueue::default();
    assert!(q.is_empty());
    for id in [3, 1, 2] {
        q.push_back(Job { kpz_id: id, kind: JobKind::A });
    }
    let none: HashSet<i32> = HashSet::new();
    let order: Vec<i32> = (0..3).map(|_| q.pop_next_spawnable(&none).expect("job").kpz_id).collect();
    assert_eq!(order, vec![3, 1, 2]);
    assert!(q.pop_next_spawnable(&none).is_none());
}
