//! Lookup in the runtime value cache of a КПЗ, which scripts read with
//! `rv(key)`: service keys of the КПЗ's own range, archive index keys
//! (71000 + archive id), register addresses, keys that name a register by
//! its address, and keys of the older format. The cache's values are
//! whatever the caller stores.

use vstd::prelude::*;
use std::collections::HashMap;

use crate::support::{svc_arx_key, svc_base_for, svc_base_spec};
use crate::topology::RegBinding;

verus! {

/// Offset of old-format keys.
pub const LEGACY_KEY_OFFSET: i64 = -2_000_000_000;

/// Whether `key` lies in the archive index range of the КПЗ's service
/// keys.
pub open spec fn scoped_index_key(kpz_id: i32, key: i64) -> bool {
    svc_base_spec(kpz_id) + 40000 <= key < svc_base_spec(kpz_id) + 110000
}

/// Whether the low 32 bits of `key` name an archive index (71000..80000).
pub open spec fn arx_alias_key(key: i64) -> bool {
    71000 <= (key as i32) < 80000
}

/// The value stored under the address of the register that `key` names
/// through the register at address `key`.
pub open spec fn by_address<V>(rv: Map<i64, V>, key: i64, reg_id_by_addr: Map<i32, i32>, addr_by_reg_id: Map<i32, i32>) -> Option<V> {
    let a = key as i32;
    if !reg_id_by_addr.contains_key(a) {
        None
    } else {
        let rid = reg_id_by_addr[a];
        if !addr_by_reg_id.contains_key(rid) {
            None
        } else {
            let addr = addr_by_reg_id[rid] as i64;
            if rv.contains_key(addr) { Some(rv[addr]) } else { None }
        }
    }
}

/// Whether a lookup of `key` goes as far as the old-format key.
pub open spec fn reaches_legacy<V>(rv: Map<i64, V>, kpz_id: i32, key: i64, reg_id_by_addr: Map<i32, i32>, addr_by_reg_id: Map<i32, i32>) -> bool {
    !scoped_index_key(kpz_id, key) && !arx_alias_key(key) && !rv.contains_key(key)
        && by_address(rv, key, reg_id_by_addr, addr_by_reg_id) is None
}

/// What `rv(key)` reads for the КПЗ: an archive index key only from the
/// cache itself; an alias 71000 + id only from the КПЗ's archive index
/// `id` (for `id > 0`); anything else from the cache, else through the
/// register at that address, else under the old-format key; `None` when
/// nothing is found.
pub open spec fn rv_lookup_spec<V>(rv: Map<i64, V>, kpz_id: i32, key: i64, reg_id_by_addr: Map<i32, i32>, addr_by_reg_id: Map<i32, i32>) -> Option<V> {
    if scoped_index_key(kpz_id, key) {
        if rv.contains_key(key) { Some(rv[key]) } else { None }
    } else if arx_alias_key(key) {
        let arx_id = (key as i32) - 71000;
        let sk = (svc_base_spec(kpz_id) + 40000 + arx_id) as i64;
        if arx_id > 0 && rv.contains_key(sk) { Some(rv[sk]) } else { None }
    } else if rv.contains_key(key) {
        Some(rv[key])
    } else {
        match by_address(rv, key, reg_id_by_addr, addr_by_reg_id) {
            Some(v) => Some(v),
            None => {
                let lk = (key + LEGACY_KEY_OFFSET) as i64;
                if rv.contains_key(lk) { Some(rv[lk]) } else { None }
            },
        }
    }
}

/// Looks up `rv(key)` for the КПЗ, as `rv_lookup_spec` says.
pub fn resolve_rv<V: Copy>(
    rv: &HashMap<i64, V>,
    kpz_id: i32,
    key: i64,
    reg_id_by_addr: &HashMap<i32, i32>,
    addr_by_reg_id: &HashMap<i32, i32>,
) -> (r: Option<V>)
    requires
        reaches_legacy(rv@, kpz_id, key, reg_id_by_addr@, addr_by_reg_id@) ==> key + LEGACY_KEY_OFFSET >= i64::MIN,
    ensures
        r == rv_lookup_spec(rv@, kpz_id, key, reg_id_by_addr@, addr_by_reg_id@),
{
    broadcast use vstd::std_specs::hash::group_hash_axioms;
    let base = svc_base_for(kpz_id);
    if key >= base + 40000 && key < base + 110000 {
        return match rv.get(&key) {
            Some(v) => Some(*v),
            None => None,
        };
    }
    let low = key as i32;
    if 71000 <= low && low < 80000 {
        let arx_id = low - 71000;
        if arx_id > 0 {
            let sk = svc_arx_key(kpz_id, arx_id);
            return match rv.get(&sk) {
                Some(v) => Some(*v),
                None => None,
            };
        }
        return None;
    }
    match rv.get(&key) {
        Some(v) => return Some(*v),
        None => {},
    }
    match reg_id_by_addr.get(&low) {
        Some(rid) => match addr_by_reg_id.get(rid) {
            Some(addr) => {
                let ak = *addr as i64;
                match rv.get(&ak) {
                    Some(v) => return Some(*v),
                    None => {},
                }
            },
            None => {},
        },
        None => {},
    }
    let lk = key + LEGACY_KEY_OFFSET;
    match rv.get(&lk) {
        Some(v) => Some(*v),
        None => None,
    }
}

/// The cache key under which a register's value is stored: its address.
pub fn rv_key_for_reg(addr_by_reg_id: &HashMap<i32, i32>, reg_id: i32) -> (r: Option<i64>)
    ensures
        r == (if addr_by_reg_id@.contains_key(reg_id) { Some(addr_by_reg_id@[reg_id] as i64) } else { None::<i64> }),
{
    broadcast use vstd::std_specs::hash::group_hash_axioms;
    match addr_by_reg_id.get(&reg_id) {
        Some(a) => Some(*a as i64),
        None => None,
    }
}

/// What a script's `rv(logical)` reads in script mode (`None` standing
/// for the default value): through its binding's address when that finds
/// a value; else, for a binding to a register, that register id's lookup;
/// else the lookup of `logical` itself.
pub open spec fn script_rv_spec<V>(
    rv: Map<i64, V>,
    kpz_id: i32,
    logical: i32,
    binding: Option<RegBinding>,
    reg_id_by_addr: Map<i32, i32>,
    addr_by_reg_id: Map<i32, i32>,
) -> Option<V> {
    match binding {
        Some(b) => match by_address(rv, b.addr as i64, reg_id_by_addr, addr_by_reg_id) {
            Some(v) => Some(v),
            None => if b.reg_id > 0 {
                rv_lookup_spec(rv, kpz_id, b.reg_id as i64, reg_id_by_addr, addr_by_reg_id)
            } else {
                rv_lookup_spec(rv, kpz_id, logical as i64, reg_id_by_addr, addr_by_reg_id)
            },
        },
        None => rv_lookup_spec(rv, kpz_id, logical as i64, reg_id_by_addr, addr_by_reg_id),
    }
}

/// The value a script's `rv(logical)` starts with, as `script_rv_spec`
/// says.
pub fn script_rv_value<V: Copy>(
    rv: &HashMap<i64, V>,
    kpz_id: i32,
    logical: i32,
    binding: Option<RegBinding>,
    reg_id_by_addr: &HashMap<i32, i32>,
    addr_by_reg_id: &HashMap<i32, i32>,
) -> (r: Option<V>)
    ensures
        r == script_rv_spec(rv@, kpz_id, logical, binding, reg_id_by_addr@, addr_by_reg_id@),
{
    broadcast use vstd::std_specs::hash::group_hash_axioms;
    match binding {
        Some(b) => {
            match reg_id_by_addr.get(&b.addr) {
                Some(rid) => match addr_by_reg_id.get(rid) {
                    Some(addr) => {
                        let ak = *addr as i64;
                        match rv.get(&ak) {
                            Some(v) => return Some(*v),
                            None => {},
                        }
                    },
                    None => {},
                },
                None => {},
            }
            if b.reg_id > 0 {
                resolve_rv(rv, kpz_id, b.reg_id as i64, reg_id_by_addr, addr_by_reg_id)
            } else {
                resolve_rv(rv, kpz_id, logical as i64, reg_id_by_addr, addr_by_reg_id)
            }
        },
        None => resolve_rv(rv, kpz_id, logical as i64, reg_id_by_addr, addr_by_reg_id),
    }
}

/// Output key that asks for an archive index write-back.
pub const WRITE_BACK_EN: i32 = 910;
/// Output key naming the archive index (71000 + archive id).
pub const WRITE_BACK_KEY: i32 = 911;
/// Output key holding the index value to write.
pub const WRITE_BACK_VAL: i32 = 912;

/// The write-back a script asks for through keys 910..912 (each value
/// taken as an integer, 0 when unset): the archive id and the index
/// value, when enabled and the key names an archive id above 0.
pub open spec fn write_back_spec(out: Map<i32, i32>) -> Option<(i32, i32)> {
    let get = |k: i32| if out.contains_key(k) { out[k] } else { 0i32 };
    let key = get(WRITE_BACK_KEY);
    if get(WRITE_BACK_EN) == 0 || key <= 0 || key - 71000 <= 0 {
        None
    } else {
        Some(((key - 71000) as i32, get(WRITE_BACK_VAL)))
    }
}

/// Reads the archive index write-back from a script's output registers.
pub fn write_back_request(out: &HashMap<i32, i32>) -> (r: Option<(i32, i32)>)
    ensures
        r == write_back_spec(out@),
{
    broadcast use vstd::std_specs::hash::group_hash_axioms;
    let flag: i32 = match out.get(&WRITE_BACK_EN) {
        Some(v) => *v,
        None => 0,
    };
    if flag == 0 {
        return None;
    }
    let key: i32 = match out.get(&WRITE_BACK_KEY) {
        Some(v) => *v,
        None => 0,
    };
    let val: i32 = match out.get(&WRITE_BACK_VAL) {
        Some(v) => *v,
        None => 0,
    };
    if key <= 0 {
        return None;
    }
    let arx_id = key - 71000;
    if arx_id <= 0 {
        return None;
    }
    Some((arx_id, val))
}

/// The archive id whose last index a script output under `key` updates:
/// `key` lies in the КПЗ's archive index range.
pub open spec fn arx_update_spec(kpz_id: i32, key: i32) -> Option<i32> {
    if scoped_index_key(kpz_id, key as i64) {
        Some((key - (svc_base_spec(kpz_id) + 40000)) as i32)
    } else {
        None
    }
}

/// Which archive index, if any, a script output under `key` updates.
pub fn arx_index_update_target(kpz_id: i32, key: i32) -> (r: Option<i32>)
    ensures
        r == arx_update_spec(kpz_id, key),
        r matches Some(id) ==> 0 <= id < 70000,
{
    let base = svc_base_for(kpz_id);
    let k = key as i64;
    if k >= base + 40000 && k < base + 110000 {
        Some((k - (base + 40000)) as i32)
    } else {
        None
    }
}

/// A value written under a register's address is read back through the
/// register's address as a key, unless that key is an archive index key
/// of the КПЗ or an archive alias.
pub proof fn lemma_register_value_reads_back<V>(
    rv: Map<i64, V>,
    kpz_id: i32,
    addr: i32,
    v: V,
    reg_id_by_addr: Map<i32, i32>,
    addr_by_reg_id: Map<i32, i32>,
)
    requires
        !scoped_index_key(kpz_id, addr as i64),
        !arx_alias_key(addr as i64),
    ensures
        rv_lookup_spec(rv.insert(addr as i64, v), kpz_id, addr as i64, reg_id_by_addr, addr_by_reg_id) == Some(v),
{
}

} // verus!
