use std::collections::HashMap;

use scada::modbus::{crc16, split_rx_to_virtual, UdpParams};
use scada::reg::Reg;
use scada::service::{
    assemble_req_results, calc_registers_count, chunk_packet, chunk_udp_params, decode_read_values, glued_status,
    no_commands_result, plan_group_requests, plan_read_reqs, DsrCounter, LineParams, PidAllocState, ReadReq,
    ReadWriteGroup, RegRaw,
};

fn reg(id: i32, addr: i32, tip: i32, bits: Option<i32>) -> Reg {
    Reg { id, name: format!("r{}", id), addr, n_mb: Some(1), tip, bits, grup: Some(1), a_en: true, a_no_write: 0 }
}

#[test]
fn calc_registers_count_counts_words_and_distinct_bit_addresses() {
    let regs = vec![reg(1, 0, 3, None), reg(2, 1, 2, None), reg(3, 3, 0, Some(0)), reg(4, 3, 0, Some(5))];
    assert_eq!(calc_registers_count(&regs), 1 + 2 + 1);
}

#[test]
fn plan_read_reqs_keeps_only_reads_with_words() {
    let reqs = vec![
        ReadReq { func: 4, addr_human: 300, cnt_words: 1 },
        ReadReq { func: 6, addr_human: 1, cnt_words: 1 },
        ReadReq { func: 3, addr_human: 5, cnt_words: 0 },
        ReadReq { func: 3, addr_human: 301, cnt_words: 2 },
    ];
    let (frames, plans) = plan_read_reqs(1, &reqs).expect("plan");
    assert_eq!(plans, vec![reqs[0], reqs[3]]);
    assert_eq!(frames.len(), 2);
    assert_eq!(&frames[0][..6], &[1, 4, 0x01, 0x2C, 0, 1]);
    assert!(plan_read_reqs(0, &reqs).is_err());
}

#[test]
fn plan_group_requests_sorts_and_skips_writes() {
    let groups = vec![
        ReadWriteGroup { func: 3, regs: vec![reg(1, 20, 2, None), reg(2, 10, 3, None)], write_val_by_id: None },
        ReadWriteGroup { func: 16, regs: vec![reg(3, 5, 3, None)], write_val_by_id: Some(HashMap::new()) },
        ReadWriteGroup { func: 4, regs: vec![], write_val_by_id: None },
    ];
    let (frames, plans) = plan_group_requests(1, &groups).expect("plan");
    assert_eq!(frames.len(), 1);
    assert_eq!(plans.len(), 1);
    assert_eq!(plans[0].0, 3);
    assert_eq!(plans[0].2, 10);
    assert_eq!(plans[0].1[0].addr, 10);
    assert_eq!(&frames[0][..6], &[1, 3, 0, 10, 0, 3]);
}

#[test]
fn chunk_packet_has_header_with_total_length() {
    let line = LineParams::default();
    let par = chunk_udp_params(&line, "10.0.0.1", 5100, 301, 50002, 7, 9);
    assert_eq!((par.kan, par.speed, par.stop, par.par, par.data), (3, 8, 0, 2, 8));
    let frames = vec![vec![1u8, 2, 3], vec![4u8, 5]];
    let tx = chunk_packet(&par, &frames);
    assert_eq!(tx.len(), 27);
    assert_eq!(tx[0], 1);
    assert_eq!(tx[1], 27);
    assert_eq!(tx[3], 7);
    assert_eq!(tx[5], 9);
    assert_eq!(&tx[22..], &[1, 2, 3, 4, 5]);
}

#[test]
fn assemble_results_matches_answers_in_order() {
    let plans = vec![ReadReq { func: 4, addr_human: 300, cnt_words: 1 }, ReadReq { func: 4, addr_human: 301, cnt_words: 1 }];
    let rx = vec![vec![9u8; 12]];
    let r = assemble_req_results(&plans, &rx, vec![1, 2, 3], vec![9u8; 12]);
    assert_eq!(r.results.len(), 1);
    assert_eq!(r.results[0].addr_human, 300);
    assert_eq!(r.results[0].response, Some(vec![9u8; 12]));
    assert_eq!(r.status, "WARN: responses < commands (1/2)");
    assert_eq!(glued_status(2, 2), "OK");
    let e = no_commands_result();
    assert_eq!(e.status, "ERROR: no commands");
    let r = assemble_req_results(&plans[..1], &rx, vec![], vec![]);
    assert_eq!(r.status, "OK");
    assert_eq!(r.response, None);
}

#[test]
fn decode_read_values_by_register_type() {
    let mut mb = vec![1u8, 3, 8, 0x00, 0x05, 0x41, 0x20, 0x00, 0x00, 0x80, 0x01];
    let crc = crc16(&mb);
    mb.push((crc & 0xFF) as u8);
    mb.push((crc >> 8) as u8);
    let regs = vec![reg(1, 100, 3, None), reg(2, 101, 5, None), reg(3, 103, 0, Some(15)), reg(4, 103, 0, Some(0))];
    let vals = decode_read_values(&mb, &regs, 100);
    assert_eq!(
        vals,
        vec![(1, RegRaw::Word(5)), (2, RegRaw::F32Bits(0x4120_0000)), (3, RegRaw::Bit(1)), (4, RegRaw::Bit(1))]
    );
    assert!(decode_read_values(&[1u8, 6, 0, 1], &regs, 100).is_empty());
}

#[test]
fn next_pid_skips_ids_inside_guard_interval() {
    let mut st = PidAllocState::new();
    let a = st.next_pid(1_000, 10);
    let b = st.next_pid(1_000, 10);
    assert_eq!((a, b), (0, 1));
    for _ in 0..254 {
        st.next_pid(1_000, 10);
    }
    // Every id was used at 1000 ms; 299 ms later none is free: the next id is reused.
    assert_eq!(st.next_pid(1_299, 10), 0);
    // 300 ms (the shortest guard) after 1000 ms, id 1 is free again.
    assert_eq!(st.next_pid(1_300, 10), 1);
}

#[test]
fn next_dsr_skips_zero_on_wrap() {
    let mut c = DsrCounter { value: 65535 };
    assert_eq!(c.next_dsr(), 65535);
    assert_eq!(c.next_dsr(), 1);
    assert_eq!(c.next_dsr(), 1);
    assert_eq!(DsrCounter::new().next_dsr(), 1);
}

#[test]
fn default_udp_params() {
    let p = UdpParams::default();
    assert_eq!(p.rtu, 301);
    assert_eq!(p.port, 5100);
    assert!(split_rx_to_virtual(&[0u8; 5]).is_empty());
}
