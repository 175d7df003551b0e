use scada::conn::{ConnInfo, ObjRow};
use scada::db_model::{runtime_cfg_from_legacy_row, runtime_cfg_from_row, table_sig};
use scada::service::ModbusResultReq;
use scada::support::{
    build_elam_row, build_elam_summary_row, build_elam_transport_error_row, hex_preview, obj_to_udp, pkt_meta,
    should_log_elam,
};

fn conn() -> ConnInfo {
    ConnInfo { kpz_id: 5, obj_id: 6, ip: "10.0.0.1".to_string(), port: 5100, rtu: 301, modem: 50002, max_pkt_len: 256 }
}

#[test]
fn hex_preview_truncates() {
    assert_eq!(hex_preview(&[1, 0xAB, 0xFF], 2), "01 AB ...");
    assert_eq!(hex_preview(&[1, 0xAB], 2), "01 AB");
    assert_eq!(hex_preview(&[], 4), "");
}

#[test]
fn pkt_meta_prefers_response_type() {
    let req = [0u8, 0, 0, 7, 0];
    assert_eq!(pkt_meta(&req, Some(&[0, 0, 0, 0, 1])), (7, 1));
    assert_eq!(pkt_meta(&req, Some(&[0, 0])), (7, 0));
    assert_eq!(pkt_meta(&[1, 2], None), (0, 0));
}

#[test]
fn elam_rows() {
    assert!(should_log_elam("anything"));
    let res = ModbusResultReq { func: 4, addr_human: 300, cnt_words: 2, response: Some(vec![0, 0, 0, 0, 1]), status: "OK".to_string() };
    let req = vec![1u8, 0, 0, 9, 0];
    let row = build_elam_row(&conn(), 3, &res, &req, 12, "ERROR: bad").expect("row");
    assert_eq!((row.kpz_id, row.group_id, row.packet_id, row.pkt_type, row.func), (5, 3, 9, 1, 4));
    assert_eq!(row.err.as_deref(), Some("ERROR: bad"));
    let ok = build_elam_row(&conn(), 3, &res, &req, 12, "OK").expect("row");
    assert_eq!(ok.err, None);

    let s = build_elam_summary_row(&conn(), 3, &req, None, 40, 2, 1);
    assert_eq!(s.status, "SUMMARY: responses < commands (1/2), missing=1");
    assert_eq!(s.err.as_deref(), Some("SUMMARY: responses < commands (1/2), missing=1"));
    assert_eq!((s.addr_human, s.count_words), (2, 1));
    let s = build_elam_summary_row(&conn(), 3, &req, Some(&[1, 2]), 40, 2, 2);
    assert_eq!(s.status, "SUMMARY: responses == commands (2/2)");
    assert_eq!(s.err, None);

    let t = build_elam_transport_error_row(&conn(), 3, 7, "ERROR: transport: timeout");
    assert_eq!(t.status, "ERROR: transport: timeout");
    assert!(t.req.is_empty());
}

#[test]
fn obj_line_defaults() {
    let obj = ObjRow { id: 1, name: None, ip: None, port: None, kanal: Some(1), speed: None, stop: None, parit: Some(0), bit: None };
    let p = obj_to_udp(&obj);
    assert_eq!((p.kanal, p.speed, p.stop, p.parit, p.bit), (1, 8, 0, 0, 8));
}

#[test]
fn runtime_cfg_limits() {
    let c = runtime_cfg_from_row(0, 0, 50, 20, 100, 99_999);
    assert_eq!(c.no_response_failures, 1);
    assert_eq!(c.no_response_backoff_sec, 1);
    assert_eq!(c.metrics_p95_warn_ms, 100);
    assert_eq!(c.metrics_p95_crit_ms, 50);
    assert_eq!(c.modbus_a_timeout_ms, 200);
    assert_eq!(c.modbus_script_timeout_ms, 30_000);
    let l = runtime_cfg_from_legacy_row(99, 100_000);
    assert_eq!((l.no_response_failures, l.no_response_backoff_sec, l.metrics_p95_crit_ms), (20, 86_400, 3000));
}

#[test]
fn table_signature() {
    assert_eq!(table_sig(3, 10, 100), 3 ^ 20 ^ 400);
    assert_eq!(table_sig(0, i64::MIN, 0), 0);
}
