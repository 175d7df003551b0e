use std::collections::HashMap;

use scada::rv_cache::{arx_index_update_target, resolve_rv, rv_key_for_reg, script_rv_value, write_back_request};
use scada::topology::RegBinding;
use scada::support::{svc_arx_key, svc_key};

#[test]
fn rv_reads_direct_keys_addresses_aliases_and_old_keys() {
    let kpz = 3;
    let mut rv: HashMap<i64, f64> = HashMap::new();
    let mut reg_id_by_addr = HashMap::new();
    let mut addr_by_reg_id = HashMap::new();
    reg_id_by_addr.insert(30401, 7001);
    addr_by_reg_id.insert(7001, 401);
    addr_by_reg_id.insert(7002, 402);
    rv.insert(401, 12.5);
    rv.insert(svc_arx_key(kpz, 5), 44.0);
    rv.insert(svc_key(kpz, 60000), 1.0);
    rv.insert(-2_000_000_000 + 55, 9.0);

    // Direct key.
    assert_eq!(resolve_rv(&rv, kpz, 401, &reg_id_by_addr, &addr_by_reg_id), Some(12.5));
    // Through the register at that address.
    assert_eq!(resolve_rv(&rv, kpz, 30401, &reg_id_by_addr, &addr_by_reg_id), Some(12.5));
    // Archive index alias, and alias 71000 itself reads nothing.
    assert_eq!(resolve_rv(&rv, kpz, 71005, &reg_id_by_addr, &addr_by_reg_id), Some(44.0));
    assert_eq!(resolve_rv(&rv, kpz, 71000, &reg_id_by_addr, &addr_by_reg_id), None);
    assert_eq!(resolve_rv(&rv, kpz, 71006, &reg_id_by_addr, &addr_by_reg_id), None);
    // Archive index key of the КПЗ's own range: only the cache itself.
    assert_eq!(resolve_rv(&rv, kpz, svc_arx_key(kpz, 5), &reg_id_by_addr, &addr_by_reg_id), Some(44.0));
    // Other service keys.
    assert_eq!(resolve_rv(&rv, kpz, svc_key(kpz, 60000), &reg_id_by_addr, &addr_by_reg_id), Some(1.0));
    // Old-format key, and a miss.
    assert_eq!(resolve_rv(&rv, kpz, 55, &reg_id_by_addr, &addr_by_reg_id), Some(9.0));
    assert_eq!(resolve_rv(&rv, kpz, 56, &reg_id_by_addr, &addr_by_reg_id), None);

    assert_eq!(rv_key_for_reg(&addr_by_reg_id, 7002), Some(402));
    assert_eq!(rv_key_for_reg(&addr_by_reg_id, 1), None);
}

#[test]
fn write_back_needs_flag_and_an_archive_alias() {
    let mut out = HashMap::new();
    out.insert(911, 71007);
    out.insert(912, 33);
    assert_eq!(write_back_request(&out), None);
    out.insert(910, 1);
    assert_eq!(write_back_request(&out), Some((7, 33)));
    out.insert(911, 71000);
    assert_eq!(write_back_request(&out), None);
    out.insert(911, -5);
    assert_eq!(write_back_request(&out), None);
    out.remove(&912);
    out.insert(911, 71001);
    assert_eq!(write_back_request(&out), Some((1, 0)));
}

#[test]
fn arx_index_updates_only_inside_the_kpz_range() {
    let key = svc_arx_key(0, 12) as i32;
    assert_eq!(arx_index_update_target(0, key), Some(12));
    assert_eq!(arx_index_update_target(0, key - 13), None);
    assert_eq!(arx_index_update_target(1, key), None);
}

#[test]
fn script_rv_prefers_binding_address_then_register_then_logical_key() {
    let kpz = 1;
    let mut rv: HashMap<i64, f64> = HashMap::new();
    let mut reg_id_by_addr = HashMap::new();
    let mut addr_by_reg_id = HashMap::new();
    reg_id_by_addr.insert(400, 7001);
    addr_by_reg_id.insert(7001, 400);
    rv.insert(400, 5.5);
    rv.insert(77, 1.25);
    let bound = RegBinding { logical: 77, reg_id: 7001, addr: 400 };
    assert_eq!(script_rv_value(&rv, kpz, 77, Some(bound), &reg_id_by_addr, &addr_by_reg_id), Some(5.5));
    // Address unknown: the register id is looked up, and a miss stays a miss.
    let by_reg = RegBinding { logical: 77, reg_id: 9001, addr: 500 };
    assert_eq!(script_rv_value(&rv, kpz, 77, Some(by_reg), &reg_id_by_addr, &addr_by_reg_id), None);
    // No register id: the logical key itself.
    let by_logical = RegBinding { logical: 77, reg_id: 0, addr: 500 };
    assert_eq!(script_rv_value(&rv, kpz, 77, Some(by_logical), &reg_id_by_addr, &addr_by_reg_id), Some(1.25));
    assert_eq!(script_rv_value(&rv, kpz, 77, None, &reg_id_by_addr, &addr_by_reg_id), Some(1.25));
}
