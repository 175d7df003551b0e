use scada::imm::{add_crc, detect_frame_layout, v_crc16, SlotState};

fn mk_read_req(unit: &[u8], func: u8, addr: u16, count: u16) -> Vec<u8> {
    let mut frame = Vec::new();
    frame.extend_from_slice(unit);
    frame.push(func);
    frame.extend_from_slice(&addr.to_be_bytes());
    frame.extend_from_slice(&count.to_be_bytes());
    add_crc(&mut frame);
    frame
}

#[test]
fn detect_frame_layout_uses_extended_only_for_f8_to_fe_prefix() {
    let ext = mk_read_req(&[0xF8, 0x35], 4, 0x001E, 4);
    let plain = mk_read_req(&[0x35], 4, 0x001E, 4);

    assert_eq!(detect_frame_layout(&ext, ext.len(), 0), Some((2, 9)));
    assert_eq!(detect_frame_layout(&plain, plain.len(), 0), Some((1, 8)));
}

#[test]
fn process_request_builds_extended_response_for_rtu_301() {
    let mut slot = SlotState::new();
    slot.dat[0x001E] = 0x1122;
    slot.dat[0x001F] = 0x3344;
    slot.dat[0x0020] = 0x5566;
    slot.dat[0x0021] = 0x7788;

    let req = mk_read_req(&[0xF8, 0x35], 4, 0x001E, 4);
    let resp = slot.process_request(&req, req.len() as u16).expect("response");

    assert_eq!(&resp[..2], &[0xF8, 0x35]);
    assert_eq!(resp[2], 4);
    assert_eq!(resp[3], 0);
    assert_eq!(resp[4], 8);
    assert_eq!(&resp[5..13], &[0x11, 0x22, 0x33, 0x44, 0x55, 0x66, 0x77, 0x88]);
    assert!(v_crc16(&resp));
}

#[test]
fn process_request_keeps_plain_modbus_for_unit_below_f8() {
    let mut slot = SlotState::new();
    slot.dat[0x001E] = 0xA1B2;

    let req = mk_read_req(&[0x35], 4, 0x001E, 1);
    let resp = slot.process_request(&req, req.len() as u16).expect("response");

    assert_eq!(resp[0], 0x35);
    assert_eq!(resp[1], 4);
    assert_eq!(resp[2], 2);
    assert_eq!(&resp[3..5], &[0xA1, 0xB2]);
    assert!(v_crc16(&resp));
}

#[test]
fn detect_frame_layout_rejects_bad_crc_and_ff_prefix() {
    let mut bad = mk_read_req(&[0x35], 3, 0x0010, 2);
    let n = bad.len();
    bad[n - 1] ^= 0x01;
    assert_eq!(detect_frame_layout(&bad, bad.len(), 0), None);
    let ff = mk_read_req(&[0xFF, 0x01], 3, 0x0010, 2);
    assert_eq!(detect_frame_layout(&ff, ff.len(), 0), None);
}

#[test]
fn poller_read_round_trips_through_the_device() {
    // The exchange law on concrete values: a read built by the poller,
    // answered by the device, decoded by the poller.
    let mut slot = SlotState::new();
    slot.dat1[0x0100] = 0xBEEF;
    slot.dat1[0x0101] = 0x0102;
    let req = scada::modbus::sout_mb_only(301, 3, 0x0100, 2, None).expect("read");
    let resp = slot.process_request(&req, req.len() as u16).expect("response");
    let words = scada::poll_plan::words_from_modbus_frame(&resp, 2);
    assert_eq!(words, vec![0xBEEF, 0x0102]);
}

#[test]
fn fc6_write_is_read_back_by_fc3() {
    let mut slot = SlotState::new();
    let w = scada::modbus::sout_mb_only(7, 6, 0x0040, 1, Some(&[0x12, 0x34])).expect("write");
    let echo = slot.process_request(&w, w.len() as u16).expect("echo");
    assert_eq!(&echo[..6], &w[..6]);
    let r = scada::modbus::sout_mb_only(7, 3, 0x0040, 1, None).expect("read");
    let resp = slot.process_request(&r, r.len() as u16).expect("response");
    assert_eq!(scada::poll_plan::words_from_modbus_frame(&resp, 1), vec![0x1234]);
}

#[test]
fn fc16_writes_several_holding_registers() {
    let mut slot = SlotState::new();
    let w = scada::modbus::sout_mb_only(1, 16, 0x0010, 2, Some(&[0xAA, 0xBB, 0xCC, 0xDD])).expect("write");
    slot.process_request(&w, w.len() as u16).expect("echo");
    assert_eq!(slot.dat1[0x0010], 0xAABB);
    assert_eq!(slot.dat1[0x0011], 0xCCDD);
}

#[test]
fn fc5_records_coil_command() {
    let mut slot = SlotState::new();
    let w = scada::modbus::sout_mb_only(1, 5, 0x0007, 1, Some(&[0xFF, 0x00])).expect("coil");
    slot.process_request(&w, w.len() as u16).expect("echo");
    assert_eq!(slot.last_fc05_status(), Some((7, true)));
}

#[test]
fn process_request_answers_every_frame_of_a_buffer() {
    let mut slot = SlotState::new();
    slot.dat[1] = 11;
    slot.dat[2] = 22;
    let mut buf = mk_read_req(&[0x01], 4, 1, 1);
    buf.extend_from_slice(&mk_read_req(&[0x01], 4, 2, 1));
    let resp = slot.process_request(&buf, buf.len() as u16).expect("response");
    assert_eq!(resp.len(), 14);
    assert_eq!(&resp[3..5], &[0, 11]);
    assert_eq!(&resp[10..12], &[0, 22]);
}

fn counting_generator(cur: u32, delta: u32) -> (Vec<u32>, u32) {
    (vec![cur; 36], cur.wrapping_add(delta))
}

#[test]
fn ring_archive_records_each_minute_once() {
    let mut s = SlotState::new();
    s.start_value_bits = 100;
    s.delta_bits = 1;
    s.init_ring_archive(600, &counting_generator);
    assert_eq!(s.cur_index, 0);
    assert_eq!(s.last_minute, 10);
    let first = s.last_records(1);
    assert_eq!(first.len(), 1);
    assert_eq!((first[0].index, first[0].ts_unix, first[0].value0_bits), (0, 600, 100));

    s.tick_ring_archive(659, &counting_generator);
    assert_eq!(s.cur_index, 0);

    s.tick_ring_archive(780, &counting_generator);
    assert_eq!(s.cur_index, 3);
    assert_eq!(s.last_minute, 13);
    let recs = s.last_records(4);
    let ts: Vec<u32> = recs.iter().map(|r| r.ts_unix).collect();
    assert_eq!(ts, vec![780, 720, 660, 600]);
    assert_eq!(recs[0].value0_bits, 103);

    s.tick_ring_archive_now(0, &counting_generator);
    assert_eq!(s.last_minute, 14);
    assert_eq!(s.last_records(1)[0].ts_unix, 840);
}

#[test]
fn ring_archive_header_and_cleared_positions() {
    let mut s = SlotState::new();
    s.start_value_bits = 7;
    s.delta_bits = 2;
    for x in 8192..48596 {
        s.dat[x] = 0xAAAA;
    }
    s.init_ring_archive(0x0001_0002 * 60 + 5, &counting_generator);
    assert_eq!(&s.dat[400..404], &[0, 0, 74, 546]);
    assert_eq!((s.dat[8192], s.dat[8193]), (0x003C, 0x007D));
    assert_eq!((s.dat[8194], s.dat[8195]), (7, 0));
    assert!(s.dat[8266..48596].iter().all(|w| *w == 0));
    assert_eq!(s.cur_value_bits, 9);

    let before = s.dat.clone();
    s.tick_ring_archive(0x0001_0002 * 60 + 59, &counting_generator);
    assert_eq!(s.dat, before);
    assert_eq!(s.cur_value_bits, 9);

    s.tick_ring_archive(0x0001_0002 * 60 + 125, &counting_generator);
    assert_eq!(s.cur_index, 2);
    assert_eq!(&s.dat[400..404], &[2, 0, 74, 546]);
    let recs = s.last_records(3);
    let got: Vec<(u16, u32, u32)> = recs.iter().map(|r| (r.index, r.ts_unix, r.value0_bits)).collect();
    let m = 0x0001_0002u32;
    assert_eq!(got, vec![(2, (m + 2) * 60, 11), (1, (m + 1) * 60, 9), (0, m * 60 + 5, 7)]);
}
