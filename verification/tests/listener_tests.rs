use scada::imm::{add_crc, SlotState};
use scada::listener::{
    build_response, classify_packet, hex_dump, mirror_port, modem_allowed, AppConfig, ListenerConfig, PacketAction,
    UiState,
};

fn listener(ip: &str, port: u16, start: u16, end: u16) -> ListenerConfig {
    ListenerConfig { ip: ip.to_string(), port, modem_start: start, modem_end: end }
}

#[test]
fn listener_bind_addr_and_label() {
    let l = listener("127.0.0.1", 5100, 50001, 65535);
    assert_eq!(l.bind_addr(), "127.0.0.1:5100");
    assert_eq!(l.label(), "127.0.0.1:5100 | 50001..=65535");
}

#[test]
fn listener_validation_errors() {
    assert_eq!(listener("  ", 1, 1, 2).validate().err(), Some("listener.ip is empty".to_string()));
    assert_eq!(listener("h", 1, 3, 2).validate().err(), Some("invalid modem range: 3..=2".to_string()));
    assert!(listener("h", 1, 2, 2).validate().is_ok());
}

#[test]
fn app_config_validation() {
    assert_eq!(AppConfig { listener: vec![] }.validate().err(), Some("config.listener is empty".to_string()));
    let dup = AppConfig { listener: vec![listener("h", 1, 1, 2), listener("h", 1, 3, 4)] };
    assert_eq!(dup.validate().err(), Some("duplicate bind_addr: h:1".to_string()));
    let overlap = AppConfig { listener: vec![listener("h", 1, 1, 5), listener("h", 2, 5, 9)] };
    assert_eq!(
        overlap.validate().err(),
        Some("overlapping modem ranges: h:1 | 1..=5 and h:2 | 5..=9".to_string())
    );
    let ok = AppConfig { listener: vec![listener("h", 1, 1, 4), listener("h", 2, 5, 9)] };
    assert_eq!(ok.validate().expect("valid").listener.len(), 2);
    let d = AppConfig::default();
    assert_eq!(d.listener[0].bind_addr(), "127.0.0.1:5100");
    assert!(d.validate().is_ok());
}

#[test]
fn modem_filter_and_hex_dump() {
    let l = listener("h", 1, 10, 20);
    assert!(modem_allowed(&l, 10));
    assert!(modem_allowed(&l, 20));
    assert!(!modem_allowed(&l, 21));
    assert_eq!(hex_dump(&[0x00, 0xAB, 0x0F]), "00 AB 0F");
    assert_eq!(hex_dump(&[]), "");
}

fn request(modem: u16, dsr: u16, mb: &[u8]) -> Vec<u8> {
    let mut req = vec![0u8; 22];
    req[0] = 1;
    req[5] = (dsr & 0xFF) as u8;
    req[6] = (dsr >> 8) as u8;
    req[7] = (modem & 0xFF) as u8;
    req[8] = (modem >> 8) as u8;
    req.extend_from_slice(mb);
    req
}

#[test]
fn classify_packets() {
    let l = listener("h", 1, 50000, 50010);
    let mut resp = request(50001, 0, &[]);
    resp[4] = 1;
    assert_eq!(classify_packet(&resp, true, &l), PacketAction::DropSelfEcho);
    assert_eq!(classify_packet(&[1, 2, 3], false, &l), PacketAction::Short("short packet: 3".to_string()));
    assert_eq!(
        classify_packet(&request(7, 0, &[]), false, &l),
        PacketAction::DropModem("drop modem: 7".to_string())
    );
    assert_eq!(classify_packet(&request(50002, 0, &[]), false, &l), PacketAction::Serve(50002));
    assert_eq!(mirror_port(true, 6000, 5000), Some(6000));
    assert_eq!(mirror_port(true, 5000, 5000), None);
    assert_eq!(mirror_port(false, 6000, 5000), None);
}

#[test]
fn build_response_swaps_fields_and_sets_length() {
    let mut slot = SlotState::new();
    slot.dat[0x10] = 0x1234;
    let mut mb = vec![0x01u8, 0x04, 0x00, 0x10, 0x00, 0x01];
    add_crc(&mut mb);
    let req = request(50002, 0x0A0B, &mb);
    let (out, modem, dsr) = build_response(&req, &mut slot).expect("response");
    assert_eq!(modem, 50002);
    assert_eq!(dsr, 0x0A0B);
    assert_eq!(out.len(), 10 + 7);
    assert_eq!(out[1] as usize, out.len());
    assert_eq!(out[4], 1);
    assert_eq!((out[5], out[6]), (req[7], req[8]));
    assert_eq!((out[7], out[8]), (req[5], req[6]));
    assert_eq!(&out[10..15], &[0x01, 0x04, 0x02, 0x12, 0x34]);
    assert_eq!(build_response(&[0u8; 9], &mut slot).err(), Some("short packet: 9".to_string()));
    let garbage = request(50002, 1, &[0xAA, 0xBB, 0xCC, 0xDD]);
    assert_eq!(build_response(&garbage, &mut slot).err(), Some("raz2: empty modbus response".to_string()));
}

#[test]
fn ui_state_counts_outcomes() {
    let mut ui = UiState::new();
    ui.update_rx_state("1.2.3.4:5".to_string(), 100, 30);
    assert_eq!(ui.packets, 1);
    ui.update_result_state(&Err("drop modem: 7".to_string()));
    assert_eq!(ui.last_rx_status, "DROP");
    assert_eq!(ui.dropped_packets, 1);
    ui.update_result_state(&Err("short packet: 3".to_string()));
    assert_eq!(ui.last_rx_status, "ERR");
    assert_eq!(ui.err_packets, 1);
    assert_eq!(ui.last_error, "short packet: 3");
    ui.update_result_state(&Ok((vec![1], 1, 1)));
    assert_eq!(ui.last_rx_status, "OK");
    assert_eq!(ui.last_error, "");
}

#[test]
fn ui_log_keeps_last_500_lines() {
    let mut ui = UiState::new();
    for i in 0..505 {
        ui.push_log(format!("line {}", i));
    }
    assert_eq!(ui.logs.len(), 500);
    assert_eq!(ui.logs[0], "line 5");
    assert_eq!(ui.logs[499], "line 504");
}
