use std::collections::HashMap;

use scada::reg::Reg;
use scada::topology::{
    a_en_by_reg_id, eq_ignore_ascii_case, find_kind_id, group_fallback_bindings, index_regs,
    newly_enabled_reg_ids, reload_protocol_topology, resolve_binding, ProtocolTopology, RegBinding,
    ScriptBindingRow,
};

fn reg(id: i32, addr: i32, n_mb: i32, grup: Option<i32>, a_en: bool) -> Reg {
    Reg {
        id,
        name: format!("r{}", id),
        addr,
        n_mb: Some(n_mb),
        tip: 3,
        bits: None,
        grup,
        a_en,
        a_no_write: 0,
    }
}

#[test]
fn reload_protocol_topology_builds_fallback_script_bindings_by_group() {
    let prev = ProtocolTopology::new();
    let kinds = vec![(1, "TIT".to_string()), (2, "REG".to_string())];
    let regs = vec![
        Reg {
            id: 7001,
            name: "r7001".to_string(),
            addr: 400,
            n_mb: Some(1),
            tip: 3,
            bits: None,
            grup: Some(7),
            a_en: true,
            a_no_write: 0,
        },
        Reg {
            id: 7002,
            name: "r7002".to_string(),
            addr: 401,
            n_mb: Some(2),
            tip: 3,
            bits: None,
            grup: Some(7),
            a_en: true,
            a_no_write: 0,
        },
    ];
    let (state, _) = reload_protocol_topology(&prev, &kinds, regs, &Vec::<ScriptBindingRow>::new());
    let bindings = state.fallback_by_group.get(&7).expect("fallback bindings for group 7");
    assert_eq!(bindings.len(), 2);
    assert_eq!(bindings[0].logical, 7001);
    assert_eq!(bindings[0].reg_id, 7001);
    assert_eq!(bindings[0].addr, 400);
    assert_eq!(bindings[1].logical, 7002);
    assert_eq!(bindings[1].reg_id, 7002);
    assert_eq!(bindings[1].addr, 401);
}

#[test]
fn reload_protocol_topology_indexes_resolves_and_reports_newly_archived() {
    let mut prev = ProtocolTopology::new();
    prev.protocol_generation = u64::MAX;
    prev.regs = vec![reg(1, 10, 1, Some(3), false), reg(2, 11, 1, Some(3), true), reg(3, 12, 1, None, true)];
    let kinds = vec![(5, " tit ".to_string()), (6, "Reg".to_string())];
    let regs = vec![
        reg(1, 30, 5, Some(4), true),
        reg(2, 20, 6, Some(4), true),
        reg(3, 25, 5, None, true),
        reg(4, -1, 5, Some(9), false),
    ];
    let rows = vec![
        ScriptBindingRow { kpz_id: 8, grup: 4, logical: 100, reg_id: Some(2), addr: None },
        ScriptBindingRow { kpz_id: 8, grup: 4, logical: 101, reg_id: Some(4), addr: None },
        ScriptBindingRow { kpz_id: 9, grup: 4, logical: 102, reg_id: None, addr: Some(77) },
    ];
    let (t, newly) = reload_protocol_topology(&prev, &kinds, regs, &rows);
    assert_eq!(t.protocol_generation, 0);
    assert_eq!(t.n_mb_tit_id, Some(5));
    assert_eq!(t.n_mb_reg_id, Some(6));
    assert_eq!(newly, vec![1, 3]);
    assert_eq!(t.index.reg_id_by_addr.get(&20), Some(&2));
    assert_eq!(t.index.read_func_by_addr.get(&30), Some(&4));
    assert_eq!(t.index.read_func_by_addr.get(&20), Some(&3));
    let g4: Vec<i32> = t.fallback_by_group.get(&4).expect("group 4").iter().map(|b| b.addr).collect();
    assert_eq!(g4, vec![20, 30]);
    assert_eq!(t.fallback_by_group.get(&9).expect("group 9").len(), 1);
    assert_eq!(t.fallback_by_group.len(), 2);
    assert_eq!(
        t.script_bindings,
        vec![
            (8, 4, RegBinding { logical: 100, reg_id: 2, addr: 20 }),
            (9, 4, RegBinding { logical: 102, reg_id: 0, addr: 77 }),
        ]
    );
}

#[test]
fn kind_names_are_trimmed_and_case_insensitive_first_match_wins() {
    let kinds = vec![(5, " tit ".to_string()), (6, "Reg".to_string()), (7, "TIT".to_string())];
    assert_eq!(find_kind_id(&kinds, "TIT"), Some(5));
    assert_eq!(find_kind_id(&kinds, "REG"), Some(6));
    assert_eq!(find_kind_id(&kinds, "COIL"), None);
    assert!(eq_ignore_ascii_case("AbC", "aBc"));
    assert!(!eq_ignore_ascii_case("abc", "abd"));
    assert!(!eq_ignore_ascii_case("ab", "abc"));
    assert!(!eq_ignore_ascii_case("a@", "a`"));
}

#[test]
fn fallback_bindings_sort_by_address_stably_and_skip_other_groups() {
    let regs = vec![
        reg(1, 30, 1, Some(2), false),
        reg(2, 10, 1, Some(2), false),
        reg(3, 20, 1, Some(3), false),
        reg(4, 10, 1, Some(2), false),
        reg(5, 5, 1, None, false),
    ];
    let b = group_fallback_bindings(&regs, 2);
    let ids: Vec<i32> = b.iter().map(|x| x.reg_id).collect();
    assert_eq!(ids, vec![2, 4, 1]);
    assert!(group_fallback_bindings(&regs, 9).is_empty());
}

#[test]
fn index_maps_addresses_types_and_read_functions() {
    let mut regs = vec![reg(1, 100, 1, Some(1), true), reg(2, 200, 2, Some(1), true), reg(3, -1, 1, None, true), reg(4, 100, 9, None, true)];
    regs[2].tip = 5;
    let ix = index_regs(&regs, Some(1), Some(2));
    assert_eq!(ix.reg_id_by_addr.get(&100), Some(&4));
    assert_eq!(ix.reg_id_by_addr.get(&200), Some(&2));
    assert_eq!(ix.addr_by_reg_id.get(&3), None);
    assert_eq!(ix.tip_by_reg_id.get(&3), Some(&5));
    assert_eq!(ix.read_func_by_addr.get(&100), Some(&4));
    assert_eq!(ix.read_func_by_addr.get(&200), Some(&3));
    assert_eq!(ix.read_func_by_addr.len(), 2);
}

#[test]
fn newly_enabled_registers_are_archived_once() {
    let before = vec![reg(1, 1, 1, None, true), reg(2, 2, 1, None, false)];
    let prev = a_en_by_reg_id(&before);
    let after = vec![reg(1, 1, 1, None, true), reg(2, 2, 1, None, true), reg(3, 3, 1, None, true), reg(4, 4, 1, None, false)];
    assert_eq!(newly_enabled_reg_ids(&after, &prev), vec![2, 3]);
}

#[test]
fn bindings_resolve_address_directly_or_through_register() {
    let mut addr_by_reg_id = HashMap::new();
    addr_by_reg_id.insert(7001, 400);
    addr_by_reg_id.insert(7002, -3);
    let row = |reg_id: Option<i32>, addr: Option<i32>| ScriptBindingRow { kpz_id: 1, grup: 7, logical: 11, reg_id, addr };
    assert_eq!(resolve_binding(&row(Some(7001), None), &addr_by_reg_id), Some(RegBinding { logical: 11, reg_id: 7001, addr: 400 }));
    assert_eq!(resolve_binding(&row(None, Some(12)), &addr_by_reg_id), Some(RegBinding { logical: 11, reg_id: 0, addr: 12 }));
    assert_eq!(resolve_binding(&row(Some(7001), Some(5)), &addr_by_reg_id), Some(RegBinding { logical: 11, reg_id: 7001, addr: 5 }));
    assert_eq!(resolve_binding(&row(Some(9), None), &addr_by_reg_id), None);
    assert_eq!(resolve_binding(&row(Some(7002), None), &addr_by_reg_id), None);
    assert_eq!(resolve_binding(&row(None, None), &addr_by_reg_id), None);
}

#[test]
fn first_reload_sorts_group_registers_and_reaches_generation_two() {
    let prev = ProtocolTopology::new();
    assert_eq!(prev.protocol_generation, 1);
    let kinds = vec![(1, "TIT".to_string()), (2, "REG".to_string())];
    let regs = vec![reg(7002, 401, 2, Some(7), true), reg(7001, 400, 1, Some(7), true)];
    let (t, _) = reload_protocol_topology(&prev, &kinds, regs, &Vec::<ScriptBindingRow>::new());
    let ids: Vec<i32> = t.regs_by_group.get(&7).expect("group 7").iter().map(|r| r.id).collect();
    assert_eq!(ids, vec![7001, 7002]);
    let fb: Vec<(i32, i32, i32)> =
        t.fallback_by_group.get(&7).expect("group 7").iter().map(|b| (b.logical, b.reg_id, b.addr)).collect();
    assert_eq!(fb, vec![(7001, 7001, 400), (7002, 7002, 401)]);
    assert_eq!(t.index.read_func_by_addr.get(&400), Some(&4));
    assert_eq!(t.index.read_func_by_addr.get(&401), Some(&3));
    assert_eq!(t.index.read_func_by_addr.len(), 2);
    assert_eq!((t.n_mb_tit_id, t.n_mb_reg_id), (Some(1), Some(2)));
    assert_eq!(t.protocol_generation, 2);
}

#[test]
fn reload_keeps_mqtt_metadata_of_every_register() {
    let prev = ProtocolTopology::new();
    let kinds = vec![(1, "TIT".to_string()), (2, "REG".to_string())];
    let regs = vec![reg(5, 10, 2, Some(3), false), reg(6, 11, 1, None, false)];
    let (t, _) = reload_protocol_topology(&prev, &kinds, regs, &Vec::<ScriptBindingRow>::new());
    assert_eq!(t.mqtt_reg_meta_by_id.len(), 2);
    let m5 = t.mqtt_reg_meta_by_id.get(&5).expect("reg 5");
    assert_eq!((m5.addr, m5.name.as_str(), m5.group_id), (10, "r5", Some(3)));
    let m6 = t.mqtt_reg_meta_by_id.get(&6).expect("reg 6");
    assert_eq!((m6.addr, m6.name.as_str(), m6.group_id), (11, "r6", None));
}
