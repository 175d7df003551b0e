use std::collections::HashMap;

use scada::conn::{build_conn, KpzRow, ObjRow, PollerCache};

fn sample_kpz(obj: i32) -> KpzRow {
    KpzRow {
        id: 77,
        name: Some("kpz-test".to_string()),
        rtu: 3,
        obj,
        modem: 9,
        grups: vec![0u8; 64],
        max_pkt_len: 512,
        start: 1,
        t_a: 1,
        t_script: 1,
        en_post: true,
    }
}

fn obj(id: i32, ip: Option<&str>, port: Option<&str>) -> ObjRow {
    ObjRow {
        id,
        name: Some(format!("obj-{}", id)),
        ip: ip.map(str::to_string),
        port: port.map(str::to_string),
        kanal: None,
        speed: None,
        stop: None,
        parit: None,
        bit: None,
    }
}

#[test]
fn build_conn_resolves_ip_and_port_lookup_ids() {
    let kpz = sample_kpz(10);
    let mut obj_by_id = HashMap::new();
    obj_by_id.insert(
        10,
        ObjRow {
            id: 10,
            name: Some("obj-10".to_string()),
            ip: Some("5".to_string()),
            port: Some("7".to_string()),
            kanal: None,
            speed: None,
            stop: None,
            parit: None,
            bit: None,
        },
    );

    let mut ip_by_id = HashMap::new();
    ip_by_id.insert(5, "192.168.1.55".to_string());

    let mut port_by_id = HashMap::new();
    port_by_id.insert(7, 4050u16);

    let conn = build_conn(&kpz, &obj_by_id, &ip_by_id, &port_by_id).expect("conn");
    assert_eq!(conn.kpz_id, 77);
    assert_eq!(conn.obj_id, 10);
    assert_eq!(conn.ip, "192.168.1.55");
    assert_eq!(conn.port, 4050);
    assert_eq!(conn.rtu, 3);
    assert_eq!(conn.modem, 9);
    assert_eq!(conn.max_pkt_len, 512);
}

#[test]
fn build_conn_accepts_direct_ip_and_lookup_port() {
    let kpz = sample_kpz(11);
    let mut obj_by_id = HashMap::new();
    obj_by_id.insert(
        11,
        ObjRow {
            id: 11,
            name: Some("obj-11".to_string()),
            ip: Some("10.0.0.7".to_string()),
            port: Some("8".to_string()),
            kanal: None,
            speed: None,
            stop: None,
            parit: None,
            bit: None,
        },
    );
    let mut port_by_id = HashMap::new();
    port_by_id.insert(8, 502u16);

    let conn = build_conn(&kpz, &obj_by_id, &HashMap::new(), &port_by_id).expect("conn");
    assert_eq!(conn.ip, "10.0.0.7");
    assert_eq!(conn.port, 502);
}

#[test]
fn build_conn_rejects_empty_ip_field() {
    let kpz = sample_kpz(12);
    let mut obj_by_id = HashMap::new();
    obj_by_id.insert(
        12,
        ObjRow {
            id: 12,
            name: Some("obj-12".to_string()),
            ip: Some("   ".to_string()),
            port: Some("502".to_string()),
            kanal: None,
            speed: None,
            stop: None,
            parit: None,
            bit: None,
        },
    );

    let err = build_conn(&kpz, &obj_by_id, &HashMap::new(), &HashMap::new()).unwrap_err();
    assert!(err.to_string().contains("empty ip field"), "unexpected err: {err}");
}

#[test]
fn build_conn_rejects_missing_port_lookup() {
    let kpz = sample_kpz(13);
    let mut obj_by_id = HashMap::new();
    obj_by_id.insert(
        13,
        ObjRow {
            id: 13,
            name: Some("obj-13".to_string()),
            ip: Some("127.0.0.1".to_string()),
            port: Some("99".to_string()),
            kanal: None,
            speed: None,
            stop: None,
            parit: None,
            bit: None,
        },
    );

    let err = build_conn(&kpz, &obj_by_id, &HashMap::new(), &HashMap::new()).unwrap_err();
    assert!(err.to_string().contains("port id=99"), "unexpected err: {err}");
}

#[test]
fn build_conn_error_texts() {
    let kpz = sample_kpz(14);
    let none: HashMap<i32, ObjRow> = HashMap::new();
    assert_eq!(build_conn(&kpz, &none, &HashMap::new(), &HashMap::new()).unwrap_err(), "obj=14 not found");

    let mut objs = HashMap::new();
    objs.insert(14, obj(14, Some("3"), Some("502")));
    assert_eq!(
        build_conn(&kpz, &objs, &HashMap::new(), &HashMap::new()).unwrap_err(),
        "ip id=3 referenced by obj.id=14 is missing"
    );

    let mut objs = HashMap::new();
    objs.insert(14, obj(14, Some("host"), None));
    assert_eq!(build_conn(&kpz, &objs, &HashMap::new(), &HashMap::new()).unwrap_err(), "obj.id=14 has empty port field");

    let mut objs = HashMap::new();
    objs.insert(14, obj(14, Some("host"), Some("abc")));
    let e = build_conn(&kpz, &objs, &HashMap::new(), &HashMap::new()).unwrap_err();
    assert!(e.starts_with("invalid port='abc' for obj.id=14: "), "unexpected err: {e}");
}

#[test]
fn build_conn_keeps_untrimmed_ip_and_reads_numeric_port_as_lookup_id() {
    let kpz = sample_kpz(15);
    let mut objs = HashMap::new();
    objs.insert(15, obj(15, Some(" host "), Some("502")));
    assert_eq!(
        build_conn(&kpz, &objs, &HashMap::new(), &HashMap::new()).unwrap_err(),
        "port id=502 referenced by obj.id=15 is missing"
    );
    let mut ports = HashMap::new();
    ports.insert(502, 10502u16);
    let conn = build_conn(&kpz, &objs, &HashMap::new(), &ports).expect("conn");
    assert_eq!(conn.ip, " host ");
    assert_eq!(conn.port, 10502);
}

#[test]
fn poller_cache_builds_conn_by_kpz_id() {
    let mut kpz_by_id = HashMap::new();
    kpz_by_id.insert(77, sample_kpz(20));
    let mut obj_by_id = HashMap::new();
    obj_by_id.insert(20, obj(20, Some("10.1.1.1"), Some("9")));
    let mut port_by_id = HashMap::new();
    port_by_id.insert(9, 1502u16);
    let cache = PollerCache { kpz_by_id, obj_by_id, ip_by_id: HashMap::new(), port_by_id };
    let conn = cache.build_conn_for_kpz(77).expect("conn");
    assert_eq!((conn.ip.as_str(), conn.port, conn.obj_id), ("10.1.1.1", 1502, 20));
    assert_eq!(cache.build_conn_for_kpz(5).unwrap_err(), "kpz=5 not found");
}
