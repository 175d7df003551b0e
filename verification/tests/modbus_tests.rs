use scada::modbus::{
    build_mb_chunks, crc16, encode_rtu_address, extract_modbus_frame, shab, sout, sout_mb_only,
    split_rx_to_virtual, UdpParams,
};

fn mk_read_resp(unit: u8, func: u8, data: &[u8]) -> Vec<u8> {
    let mut f = Vec::with_capacity(3 + data.len() + 2);
    f.push(unit);
    f.push(func);
    f.push(data.len() as u8);
    f.extend_from_slice(data);
    let crc = crc16(&f);
    f.push((crc & 0xFF) as u8);
    f.push((crc >> 8) as u8);
    f
}

#[test]
fn build_mb_chunks_splits_by_limit() {
    let f1 = vec![1u8; 50];
    let f2 = vec![2u8; 50];
    let f3 = vec![3u8; 50];
    let out = build_mb_chunks(&[f1, f2, f3], 22 + 80).expect("chunks");
    assert_eq!(out.len(), 3);
    assert_eq!(out[0].len(), 1);
    assert_eq!(out[1].len(), 1);
    assert_eq!(out[2].len(), 1);
}

#[test]
fn build_mb_chunks_error_when_single_too_large() {
    let f1 = vec![1u8; 200];
    let err = build_mb_chunks(&[f1], 22 + 100).err();
    assert!(err.is_some());
}

#[test]
fn build_mb_chunks_packs_frames_that_fit_together() {
    let f1 = vec![1u8; 30];
    let f2 = vec![2u8; 30];
    let f3 = vec![3u8; 30];
    let out = build_mb_chunks(&[f1.clone(), f2.clone(), f3.clone()], 22 + 60).expect("chunks");
    assert_eq!(out, vec![vec![f1, f2], vec![f3]]);
    assert_eq!(build_mb_chunks(&[vec![1u8]], 23).err(), Some("limit too small: 23 (need > 22)".to_string()));
    assert_eq!(
        build_mb_chunks(&[vec![1u8; 200]], 122).err(),
        Some("single cmd too large for limit=122 size=222".to_string())
    );
}

#[test]
fn sout_mb_only_fc5_includes_addr_and_value_bytes() {
    let frame = sout_mb_only(301, 5, 0x01FF, 1, Some(&[0xFF, 0x00])).expect("fc5 frame");
    assert_eq!(frame[0], 0xF8);
    assert_eq!(frame[1], 0x35);
    assert_eq!(frame[2], 0x05);
    assert_eq!(frame[3], 0x01);
    assert_eq!(frame[4], 0xFF);
    assert_eq!(frame[5], 0xFF);
    assert_eq!(frame[6], 0x00);
    let crc_wire = ((frame[frame.len() - 1] as u16) << 8) | frame[frame.len() - 2] as u16;
    assert_eq!(crc_wire, crc16(&frame[..frame.len() - 2]));
}

#[test]
fn sout_mb_only_fc6_includes_single_word_payload() {
    let frame = sout_mb_only(301, 6, 0x0202, 1, Some(&[0x12, 0x34])).expect("fc6 frame");
    assert_eq!(frame[0], 0xF8);
    assert_eq!(frame[1], 0x35);
    assert_eq!(frame[2], 0x06);
    assert_eq!(frame[3], 0x02);
    assert_eq!(frame[4], 0x02);
    assert_eq!(frame[5], 0x12);
    assert_eq!(frame[6], 0x34);
    let crc_wire = ((frame[frame.len() - 1] as u16) << 8) | frame[frame.len() - 2] as u16;
    assert_eq!(crc_wire, crc16(&frame[..frame.len() - 2]));
}

#[test]
fn encode_rtu_address_protocol_boundaries() {
    assert_eq!(encode_rtu_address(1).unwrap_or_default(), vec![0x01]);
    assert_eq!(encode_rtu_address(247).unwrap_or_default(), vec![0xF7]);
    assert_eq!(encode_rtu_address(248).unwrap_or_default(), vec![0xF8, 0x00]);
    assert_eq!(encode_rtu_address(301).unwrap_or_default(), vec![0xF8, 0x35]);
    assert_eq!(encode_rtu_address(497).unwrap_or_default(), vec![0xF8, 0xF9]);
    assert_eq!(encode_rtu_address(498).unwrap_or_default(), vec![0xF9, 0x00]);
    assert_eq!(encode_rtu_address(1997).unwrap_or_default(), vec![0xFE, 0xF9]);
}

#[test]
fn encode_rtu_address_rejects_out_of_range_values() {
    assert!(encode_rtu_address(0).is_err());
    assert!(encode_rtu_address(1998).is_err());
    assert!(encode_rtu_address(2000).is_err());
}

#[test]
fn encode_rtu_address_error_texts() {
    assert_eq!(encode_rtu_address(0).err(), Some("rtu must be in range 1..=1997".to_string()));
    assert_eq!(encode_rtu_address(1998).err(), Some("rtu out of protocol range: 1998 (max 1997)".to_string()));
}

#[test]
fn sout_mb_only_extended_rtu_keeps_prefix_in_f8_to_fe_range() {
    let cases = [
        (248u16, [0xF8, 0x00]),
        (301u16, [0xF8, 0x35]),
        (497u16, [0xF8, 0xF9]),
        (1997u16, [0xFE, 0xF9]),
    ];
    for (rtu, expected_prefix) in cases {
        let frame = sout_mb_only(rtu, 4, 0x0000, 1, None).expect("extended read frame");
        assert!(
            (0xF8..=0xFE).contains(&frame[0]),
            "rtu={} must start with F8..FE, got {:02X}",
            rtu,
            frame[0]
        );
        assert_eq!([frame[0], frame[1]], expected_prefix, "rtu={} must use correct extended encoding", rtu);
    }
}

#[test]
fn sout_mb_only_extended_rtu_real_cases_encode_expected_bytes() {
    let cases = [
        (248u16, [0xF8, 0x00]),
        (301u16, [0xF8, 0x35]),
        (497u16, [0xF8, 0xF9]),
        (1997u16, [0xFE, 0xF9]),
    ];
    for (rtu, expected) in cases {
        let frame = sout_mb_only(rtu, 4, 0x0000, 1, None).expect("extended read frame");
        let ext = (rtu - 248) as usize;
        let expected_calc = [0xF8u8 + (ext / 250) as u8, (ext % 250) as u8];
        assert_eq!([frame[0], frame[1]], expected, "rtu={}", rtu);
        assert_eq!([frame[0], frame[1]], expected_calc, "rtu={} encoding formula", rtu);
    }
}

#[test]
fn sout_mb_only_rejects_bad_function_and_address() {
    assert_eq!(sout_mb_only(1, 6, 0, 1, None).err(), Some("unsupported read func tip=6".to_string()));
    assert_eq!(sout_mb_only(1, 3, 0, 1, Some(&[1])).err(), Some("unsupported write func tip=3".to_string()));
    assert_eq!(
        sout_mb_only(1, 3, 70000, 1, None).err(),
        Some("adr0 out of range: adrHuman=70000 adr0=70000".to_string())
    );
    assert!(sout_mb_only(0, 3, 0, 1, None).is_err());
}

#[test]
fn sout_wraps_frame_in_udp_header() {
    let par = UdpParams::default();
    let mb = sout_mb_only(301, 4, 0x10, 2, None).expect("frame");
    let pkt = sout(301, 4, 0x10, 2, None, Some(&par)).expect("packet");
    assert_eq!(pkt.len(), 22 + mb.len());
    assert_eq!(&pkt[..22], &shab(&par, 22 + mb.len())[..]);
    assert_eq!(pkt[1] as usize, 22 + mb.len());
    assert_eq!(&pkt[22..], &mb[..]);
    assert_eq!(sout(301, 4, 0x10, 2, None, None).expect("bare"), mb);
}

#[test]
fn crc16_known_value() {
    // CRC-16/MODBUS check value of "123456789".
    assert_eq!(crc16(b"123456789"), 0x4B37);
}

#[test]
fn split_rx_to_virtual_splits_two_valid_frames() {
    let hdr10 = vec![0x11u8; 10];
    let f1 = mk_read_resp(1, 4, &[0x00, 0x2A]);
    let f2 = mk_read_resp(1, 4, &[0x12, 0x34]);
    let mut rx = Vec::new();
    rx.extend_from_slice(&hdr10);
    rx.extend_from_slice(&f1);
    rx.extend_from_slice(&f2);
    let out = split_rx_to_virtual(&rx);
    assert_eq!(out.len(), 2);
    assert_eq!(extract_modbus_frame(&out[0]).unwrap_or(&[]), &f1[..]);
    assert_eq!(extract_modbus_frame(&out[1]).unwrap_or(&[]), &f2[..]);
}

#[test]
fn split_rx_to_virtual_skips_bad_crc_frame() {
    let hdr10 = vec![0x22u8; 10];
    let good = mk_read_resp(1, 3, &[0x00, 0x01]);
    let mut bad = mk_read_resp(1, 3, &[0x00, 0x02]);
    let n = bad.len();
    bad[n - 1] ^= 0xFF;
    let mut rx = Vec::new();
    rx.extend_from_slice(&hdr10);
    rx.extend_from_slice(&good);
    rx.extend_from_slice(&bad);
    let out = split_rx_to_virtual(&rx);
    assert_eq!(out.len(), 1);
    assert_eq!(extract_modbus_frame(&out[0]).unwrap_or(&[]), &good[..]);
}
