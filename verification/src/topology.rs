//! The protocol topology that the scheduler rebuilds from the register
//! tables: the ids of the TIT and REG register kinds, the lookups between
//! register ids, addresses, types and read functions, the registers whose
//! archiving was just switched on, the default script bindings of a group
//! (its registers in address order) and the configured script bindings.

use vstd::prelude::*;
use std::collections::HashMap;

use crate::poll_plan::{lemma_sort_by_key, read_func_for_reg, read_func_spec, reg_addr_key, sort_by_key_spec, sort_regs_by_addr, sorted_by};
use crate::reg::Reg;
use crate::text::{trim_spec, trim_str};

verus! {

// ---------------------------------------------------------------------
// Register kinds by name.
// ---------------------------------------------------------------------

/// The code of `c` with ASCII capitals folded to lower case.
pub open spec fn fold_code(c: char) -> int {
    if 'A' <= c <= 'Z' { c as int + 32 } else { c as int }
}

/// Whether two strings are equal ignoring ASCII case.
pub open spec fn eq_ignore_ascii_case_spec(a: Seq<char>, b: Seq<char>) -> bool {
    a.len() == b.len() && forall|i: int| 0 <= i < a.len() ==> fold_code(#[trigger] a[i]) == fold_code(b[i])
}

fn fold_char(c: char) -> (r: u32)
    ensures
        r == fold_code(c),
{
    if 'A' <= c && c <= 'Z' {
        (c as u32) + 32
    } else {
        c as u32
    }
}

/// Whether `a` and `b` are equal ignoring ASCII case.
pub fn eq_ignore_ascii_case(a: &str, b: &str) -> (r: bool)
    ensures
        r == eq_ignore_ascii_case_spec(a@, b@),
{
    let n = a.unicode_len();
    if n != b.unicode_len() {
        return false;
    }
    let mut i: usize = 0;
    while i < n
        invariant
            n == a@.len(),
            n == b@.len(),
            i <= n,
            forall|k: int| 0 <= k < i ==> fold_code(#[trigger] a@[k]) == fold_code(b@[k]),
        decreases n - i,
    {
        if fold_char(a.get_char(i)) != fold_char(b.get_char(i)) {
            return false;
        }
        i = i + 1;
    }
    true
}

/// The id of the first item whose trimmed name equals `name` ignoring
/// ASCII case.
pub open spec fn find_kind_spec(items: Seq<(i32, String)>, name: Seq<char>) -> Option<i32>
    decreases items.len(),
{
    if items.len() == 0 {
        None
    } else {
        match find_kind_spec(items.drop_last(), name) {
            Some(id) => Some(id),
            None => if eq_ignore_ascii_case_spec(trim_spec(items.last().1@), name) {
                Some(items.last().0)
            } else {
                None
            },
        }
    }
}

/// Finds the id of the register kind called `name` (such as `TIT` or
/// `REG`) among `(id, name)` items.
pub fn find_kind_id(items: &Vec<(i32, String)>, name: &str) -> (r: Option<i32>)
    ensures
        r == find_kind_spec(items@, name@),
{
    let mut i: usize = 0;
    while i < items.len()
        invariant
            i <= items@.len(),
            find_kind_spec(items@.take(i as int), name@) is None,
        decreases items@.len() - i,
    {
        assert(items@.take(i as int + 1).drop_last() =~= items@.take(i as int));
        let t = trim_str(items[i].1.as_str());
        if eq_ignore_ascii_case(t.as_str(), name) {
            proof {
                lemma_find_kind_prefix(items@, name@, i as int + 1);
            }
            return Some(items[i].0);
        }
        i = i + 1;
    }
    assert(items@.take(items@.len() as int) =~= items@);
    None
}

/// A match found in a prefix is the answer for the whole sequence.
proof fn lemma_find_kind_prefix(items: Seq<(i32, String)>, name: Seq<char>, k: int)
    requires
        0 <= k <= items.len(),
        find_kind_spec(items.take(k), name) is Some,
    ensures
        find_kind_spec(items, name) == find_kind_spec(items.take(k), name),
    decreases items.len() - k,
{
    if k < items.len() {
        assert(items.take(k + 1).drop_last() =~= items.take(k));
        lemma_find_kind_prefix(items, name, k + 1);
    } else {
        assert(items.take(k) =~= items);
    }
}

// ---------------------------------------------------------------------
// Lookups over the registers.
// ---------------------------------------------------------------------

/// The lookups of one topology: register id by address, address by
/// register id, type by register id, read function by address.
pub struct RegIndex {
    pub reg_id_by_addr: HashMap<i32, i32>,
    pub addr_by_reg_id: HashMap<i32, i32>,
    pub tip_by_reg_id: HashMap<i32, i32>,
    pub read_func_by_addr: HashMap<i32, u8>,
}

/// The four lookups after taking `regs` in order, a later register
/// replacing an earlier one under the same key; registers with a negative
/// address get only a type.
pub open spec fn index_spec(
    regs: Seq<Reg>,
    tit: Option<i32>,
    reg_kind: Option<i32>,
) -> (Map<i32, i32>, Map<i32, i32>, Map<i32, i32>, Map<i32, u8>)
    decreases regs.len(),
{
    if regs.len() == 0 {
        (Map::empty(), Map::empty(), Map::empty(), Map::empty())
    } else {
        let (a, b, c, d) = index_spec(regs.drop_last(), tit, reg_kind);
        let r = regs.last();
        let c2 = c.insert(r.id, r.tip);
        if r.addr >= 0 {
            let d2 = match read_func_spec(r, tit, reg_kind) {
                Some(f) => d.insert(r.addr, f),
                None => d,
            };
            (a.insert(r.addr, r.id), b.insert(r.id, r.addr), c2, d2)
        } else {
            (a, b, c2, d)
        }
    }
}

/// Builds the lookups of `regs`, TIT registers read with FC4 and REG
/// registers with FC3.
pub fn index_regs(regs: &Vec<Reg>, tit: Option<i32>, reg_kind: Option<i32>) -> (r: RegIndex)
    ensures
        (r.reg_id_by_addr@, r.addr_by_reg_id@, r.tip_by_reg_id@, r.read_func_by_addr@)
            == index_spec(regs@, tit, reg_kind),
{
    broadcast use vstd::std_specs::hash::group_hash_axioms;
    let mut a: HashMap<i32, i32> = HashMap::new();
    let mut b: HashMap<i32, i32> = HashMap::new();
    let mut c: HashMap<i32, i32> = HashMap::new();
    let mut d: HashMap<i32, u8> = HashMap::new();
    let mut i: usize = 0;
    while i < regs.len()
        invariant
            i <= regs@.len(),
            (a@, b@, c@, d@) == index_spec(regs@.take(i as int), tit, reg_kind),
        decreases regs@.len() - i,
    {
        assert(regs@.take(i as int + 1).drop_last() =~= regs@.take(i as int));
        let r = &regs[i];
        c.insert(r.id, r.tip);
        if r.addr >= 0 {
            a.insert(r.addr, r.id);
            b.insert(r.id, r.addr);
            match read_func_for_reg(r, tit, reg_kind) {
                Some(f) => {
                    d.insert(r.addr, f);
                },
                None => {},
            }
        }
        i = i + 1;
    }
    assert(regs@.take(regs@.len() as int) =~= regs@);
    RegIndex { reg_id_by_addr: a, addr_by_reg_id: b, tip_by_reg_id: c, read_func_by_addr: d }
}

/// Archiving flag by register id, a later register replacing an earlier
/// one.
pub open spec fn a_en_spec(regs: Seq<Reg>) -> Map<i32, bool>
    decreases regs.len(),
{
    if regs.len() == 0 {
        Map::empty()
    } else {
        a_en_spec(regs.drop_last()).insert(regs.last().id, regs.last().a_en)
    }
}

/// The archiving flag of each register of `regs` by id.
pub fn a_en_by_reg_id(regs: &Vec<Reg>) -> (r: HashMap<i32, bool>)
    ensures
        r@ == a_en_spec(regs@),
{
    broadcast use vstd::std_specs::hash::group_hash_axioms;
    let mut m: HashMap<i32, bool> = HashMap::new();
    let mut i: usize = 0;
    while i < regs.len()
        invariant
            i <= regs@.len(),
            m@ == a_en_spec(regs@.take(i as int)),
        decreases regs@.len() - i,
    {
        assert(regs@.take(i as int + 1).drop_last() =~= regs@.take(i as int));
        m.insert(regs[i].id, regs[i].a_en);
        i = i + 1;
    }
    assert(regs@.take(regs@.len() as int) =~= regs@);
    m
}

/// What the MQTT publisher needs to know of a register: its address, its
/// name and its group.
pub struct MqttRegMeta {
    pub addr: i32,
    pub name: String,
    pub group_id: Option<i32>,
}

/// The MQTT metadata of a register.
pub open spec fn mqtt_meta_of(r: Reg) -> MqttRegMeta {
    MqttRegMeta { addr: r.addr, name: r.name, group_id: r.grup }
}

/// MQTT metadata by register id, a later register replacing an earlier
/// one.
pub open spec fn mqtt_meta_spec(regs: Seq<Reg>) -> Map<i32, MqttRegMeta>
    decreases regs.len(),
{
    if regs.len() == 0 {
        Map::empty()
    } else {
        mqtt_meta_spec(regs.drop_last()).insert(regs.last().id, mqtt_meta_of(regs.last()))
    }
}

/// The MQTT metadata of each register of `regs` by id.
fn mqtt_meta_by_reg_id(regs: &Vec<Reg>) -> (r: HashMap<i32, MqttRegMeta>)
    ensures
        r@ == mqtt_meta_spec(regs@),
{
    broadcast use vstd::std_specs::hash::group_hash_axioms;
    let mut m: HashMap<i32, MqttRegMeta> = HashMap::new();
    let mut i: usize = 0;
    while i < regs.len()
        invariant
            i <= regs@.len(),
            m@ == mqtt_meta_spec(regs@.take(i as int)),
        decreases regs@.len() - i,
    {
        assert(regs@.take(i as int + 1).drop_last() =~= regs@.take(i as int));
        let r = &regs[i];
        m.insert(r.id, MqttRegMeta { addr: r.addr, name: r.name.clone(), group_id: r.grup });
        i = i + 1;
    }
    assert(regs@.take(regs@.len() as int) =~= regs@);
    m
}

/// Whether register `r` has archiving on now but did not before.
pub open spec fn newly_enabled(r: Reg, prev: Map<i32, bool>) -> bool {
    r.a_en && !(prev.contains_key(r.id) && prev[r.id])
}

/// Ids, in order, of the registers of `regs` newly enabled for archiving.
pub open spec fn newly_enabled_spec(regs: Seq<Reg>, prev: Map<i32, bool>) -> Seq<i32>
    decreases regs.len(),
{
    if regs.len() == 0 {
        Seq::empty()
    } else {
        let p = newly_enabled_spec(regs.drop_last(), prev);
        if newly_enabled(regs.last(), prev) { p.push(regs.last().id) } else { p }
    }
}

/// The registers that must be archived once because their archiving was
/// just switched on: enabled in `regs` and not enabled in `prev_a_en`.
pub fn newly_enabled_reg_ids(regs: &Vec<Reg>, prev_a_en: &HashMap<i32, bool>) -> (r: Vec<i32>)
    ensures
        r@ == newly_enabled_spec(regs@, prev_a_en@),
{
    broadcast use vstd::std_specs::hash::group_hash_axioms;
    let mut out: Vec<i32> = Vec::new();
    let mut i: usize = 0;
    while i < regs.len()
        invariant
            i <= regs@.len(),
            out@ == newly_enabled_spec(regs@.take(i as int), prev_a_en@),
        decreases regs@.len() - i,
    {
        assert(regs@.take(i as int + 1).drop_last() =~= regs@.take(i as int));
        let r = &regs[i];
        if r.a_en {
            let was = match prev_a_en.get(&r.id) {
                Some(v) => *v,
                None => false,
            };
            if !was {
                out.push(r.id);
            }
        }
        i = i + 1;
    }
    assert(regs@.take(regs@.len() as int) =~= regs@);
    out
}

// ---------------------------------------------------------------------
// Script bindings.
// ---------------------------------------------------------------------

/// A script's name for a register (`logical`), the register's id and its
/// address.
#[derive(Clone, Copy, Debug, PartialEq, Eq, Structural)]
pub struct RegBinding {
    pub logical: i32,
    pub reg_id: i32,
    pub addr: i32,
}

/// A configured binding of a КПЗ's group: the address given directly, or
/// through a register id.
#[derive(Clone, Copy, Debug, PartialEq, Eq, Structural)]
pub struct ScriptBindingRow {
    pub kpz_id: i32,
    pub grup: i32,
    pub logical: i32,
    pub reg_id: Option<i32>,
    pub addr: Option<i32>,
}

/// `s` with `x` placed after every element whose address is at most
/// `x`'s: one step of a stable sort by address.
pub open spec fn insert_by_addr(s: Seq<RegBinding>, x: RegBinding) -> Seq<RegBinding>
    decreases s.len(),
{
    if s.len() == 0 {
        seq![x]
    } else if s.last().addr <= x.addr {
        s.push(x)
    } else {
        insert_by_addr(s.drop_last(), x).push(s.last())
    }
}

/// `s` stably sorted by address.
pub open spec fn sort_by_addr(s: Seq<RegBinding>) -> Seq<RegBinding>
    decreases s.len(),
{
    if s.len() == 0 {
        Seq::empty()
    } else {
        insert_by_addr(sort_by_addr(s.drop_last()), s.last())
    }
}

/// Elements in address order.
pub open spec fn addr_sorted(s: Seq<RegBinding>) -> bool {
    forall|i: int, j: int| 0 <= i < j < s.len() ==> s[i].addr <= s[j].addr
}

/// Placing `x` at `j`, where everything before has an address at most
/// `x`'s and everything after a larger one, is `insert_by_addr`.
proof fn lemma_insert_at(s: Seq<RegBinding>, x: RegBinding, j: int)
    requires
        0 <= j <= s.len(),
        forall|k: int| j <= k < s.len() ==> s[k].addr > x.addr,
        j > 0 ==> s[j - 1].addr <= x.addr,
    ensures
        insert_by_addr(s, x) == s.take(j) + seq![x] + s.skip(j),
    decreases s.len(),
{
    if s.len() == 0 {
        assert(s.take(j) + seq![x] + s.skip(j) =~= seq![x]);
    } else if j == s.len() {
        assert(s.take(j) + seq![x] + s.skip(j) =~= s.push(x));
    } else {
        lemma_insert_at(s.drop_last(), x, j);
        assert(s.drop_last().take(j) + seq![x] + s.drop_last().skip(j) + seq![s.last()]
            =~= s.take(j) + seq![x] + s.skip(j));
    }
}

/// Inserting keeps the order.
proof fn lemma_insert_sorted(s: Seq<RegBinding>, x: RegBinding, j: int)
    requires
        addr_sorted(s),
        0 <= j <= s.len(),
        forall|k: int| j <= k < s.len() ==> s[k].addr > x.addr,
        j > 0 ==> s[j - 1].addr <= x.addr,
    ensures
        addr_sorted(s.take(j) + seq![x] + s.skip(j)),
{
    let t = s.take(j) + seq![x] + s.skip(j);
    assert forall|a: int, b: int| 0 <= a < b < t.len() implies t[a].addr <= t[b].addr by {
        if b < j {
        } else if a > j {
            assert(t[a] == s[a - 1] && t[b] == s[b - 1]);
        } else if a == j {
            assert(t[b] == s[b - 1]);
        } else if b == j {
            assert(s[a].addr <= s[j - 1].addr);
        } else {
            assert(t[a] == s[a] && t[b] == s[b - 1]);
        }
    }
}

/// The default bindings of a group's registers, each register bound under
/// its own id.
pub open spec fn group_bindings_spec(regs: Seq<Reg>, group: i32) -> Seq<RegBinding>
    decreases regs.len(),
{
    if regs.len() == 0 {
        Seq::empty()
    } else {
        let p = group_bindings_spec(regs.drop_last(), group);
        let r = regs.last();
        if r.grup == Some(group) { p.push(RegBinding { logical: r.id, reg_id: r.id, addr: r.addr }) } else { p }
    }
}

/// The default script bindings of group `group`: each of its registers
/// under its own id, in address order (registers at one address in their
/// order in `regs`).
pub fn group_fallback_bindings(regs: &Vec<Reg>, group: i32) -> (r: Vec<RegBinding>)
    ensures
        r@ == sort_by_addr(group_bindings_spec(regs@, group)),
        addr_sorted(r@),
{
    let mut out: Vec<RegBinding> = Vec::new();
    let mut i: usize = 0;
    while i < regs.len()
        invariant
            i <= regs@.len(),
            out@ == sort_by_addr(group_bindings_spec(regs@.take(i as int), group)),
            addr_sorted(out@),
        decreases regs@.len() - i,
    {
        assert(regs@.take(i as int + 1).drop_last() =~= regs@.take(i as int));
        let r = &regs[i];
        let is_member = match r.grup {
            Some(g) => g == group,
            None => false,
        };
        if is_member {
            let x = RegBinding { logical: r.id, reg_id: r.id, addr: r.addr };
            let mut j: usize = out.len();
            while j > 0 && out[j - 1].addr > x.addr
                invariant
                    j <= out@.len(),
                    forall|k: int| j <= k < out@.len() ==> out@[k].addr > x.addr,
                decreases j,
            {
                j = j - 1;
            }
            let ghost before = out@;
            proof {
                lemma_insert_at(before, x, j as int);
                lemma_insert_sorted(before, x, j as int);
                let p = group_bindings_spec(regs@.take(i as int), group);
                assert(p.push(x).drop_last() =~= p);
            }
            out.insert(j, x);
            assert(out@ =~= before.take(j as int) + seq![x] + before.skip(j as int));
        }
        i = i + 1;
    }
    assert(regs@.take(regs@.len() as int) =~= regs@);
    out
}

/// A configured binding resolved: the address given, else the address of
/// the register it names; `None` when neither is known or the address is
/// negative.
pub open spec fn resolve_binding_spec(b: ScriptBindingRow, addr_by_reg_id: Map<i32, i32>) -> Option<RegBinding> {
    let addr: Option<i32> = match b.addr {
        Some(a) => Some(a),
        None => match b.reg_id {
            Some(rid) => if addr_by_reg_id.contains_key(rid) { Some(addr_by_reg_id[rid]) } else { None },
            None => None,
        },
    };
    match addr {
        Some(a) => if a < 0 {
            None
        } else {
            Some(RegBinding { logical: b.logical, reg_id: match b.reg_id { Some(v) => v, None => 0 }, addr: a })
        },
        None => None,
    }
}

/// Resolves one configured binding against the register addresses.
pub fn resolve_binding(b: &ScriptBindingRow, addr_by_reg_id: &HashMap<i32, i32>) -> (r: Option<RegBinding>)
    ensures
        r == resolve_binding_spec(*b, addr_by_reg_id@),
{
    broadcast use vstd::std_specs::hash::group_hash_axioms;
    let addr: i32 = match b.addr {
        Some(a) => a,
        None => match b.reg_id {
            Some(rid) => match addr_by_reg_id.get(&rid) {
                Some(a) => *a,
                None => return None,
            },
            None => return None,
        },
    };
    if addr < 0 {
        return None;
    }
    let reg_id: i32 = match b.reg_id {
        Some(v) => v,
        None => 0,
    };
    Some(RegBinding { logical: b.logical, reg_id, addr })
}

// ---------------------------------------------------------------------
// Rebuilding the whole topology.
// ---------------------------------------------------------------------

/// The archiving flag by register id of the registers that belong to a
/// group, a later register replacing an earlier one.
pub open spec fn grouped_a_en_spec(regs: Seq<Reg>) -> Map<i32, bool>
    decreases regs.len(),
{
    if regs.len() == 0 {
        Map::empty()
    } else {
        let m = grouped_a_en_spec(regs.drop_last());
        if regs.last().grup is Some { m.insert(regs.last().id, regs.last().a_en) } else { m }
    }
}

/// The groups that some register of `regs` belongs to.
pub open spec fn groups_of(regs: Seq<Reg>) -> Set<i32> {
    Set::new(|g: i32| exists|i: int| 0 <= i < regs.len() && (#[trigger] regs[i]).grup == Some(g))
}

/// The configured bindings that resolve, in order, each with its КПЗ and
/// group.
pub open spec fn resolved_bindings_spec(rows: Seq<ScriptBindingRow>, addr_by_reg_id: Map<i32, i32>) -> Seq<(i32, i32, RegBinding)>
    decreases rows.len(),
{
    if rows.len() == 0 {
        Seq::empty()
    } else {
        let p = resolved_bindings_spec(rows.drop_last(), addr_by_reg_id);
        let b = rows.last();
        match resolve_binding_spec(b, addr_by_reg_id) {
            Some(rb) => p.push((b.kpz_id, b.grup, rb)),
            None => p,
        }
    }
}

/// The protocol topology of one load of the register tables: its
/// generation, the ids of the TIT and REG kinds, the registers, their
/// lookups, the default script bindings of each group and the configured
/// script bindings that resolved (with their КПЗ and group), and the MQTT
/// metadata of every register.
pub struct ProtocolTopology {
    pub protocol_generation: u64,
    pub n_mb_tit_id: Option<i32>,
    pub n_mb_reg_id: Option<i32>,
    pub regs: Vec<Reg>,
    pub regs_by_group: HashMap<i32, Vec<Reg>>,
    pub index: RegIndex,
    pub fallback_by_group: HashMap<i32, Vec<RegBinding>>,
    pub script_bindings: Vec<(i32, i32, RegBinding)>,
    pub mqtt_reg_meta_by_id: HashMap<i32, MqttRegMeta>,
}

impl ProtocolTopology {
    /// The topology before the first load: generation 1, nothing known.
    pub fn new() -> (t: Self)
        ensures
            t.protocol_generation == 1,
            t.regs_by_group@ == Map::<i32, Vec<Reg>>::empty(),
            t.n_mb_tit_id is None,
            t.n_mb_reg_id is None,
            t.regs@.len() == 0,
            t.index.reg_id_by_addr@ == Map::<i32, i32>::empty(),
            t.index.addr_by_reg_id@ == Map::<i32, i32>::empty(),
            t.index.tip_by_reg_id@ == Map::<i32, i32>::empty(),
            t.index.read_func_by_addr@ == Map::<i32, u8>::empty(),
            t.fallback_by_group@ == Map::<i32, Vec<RegBinding>>::empty(),
            t.script_bindings@.len() == 0,
            t.mqtt_reg_meta_by_id@ == Map::<i32, MqttRegMeta>::empty(),
    {
        let regs: Vec<Reg> = Vec::new();
        let index = index_regs(&regs, None, None);
        ProtocolTopology {
            protocol_generation: 1,
            n_mb_tit_id: None,
            n_mb_reg_id: None,
            regs,
            regs_by_group: HashMap::new(),
            index,
            fallback_by_group: HashMap::new(),
            script_bindings: Vec::new(),
            mqtt_reg_meta_by_id: HashMap::new(),
        }
    }
}

/// The archiving flags of the grouped registers of `regs`.
fn grouped_a_en(regs: &Vec<Reg>) -> (r: HashMap<i32, bool>)
    ensures
        r@ == grouped_a_en_spec(regs@),
{
    broadcast use vstd::std_specs::hash::group_hash_axioms;
    let mut m: HashMap<i32, bool> = HashMap::new();
    let mut i: usize = 0;
    while i < regs.len()
        invariant
            i <= regs@.len(),
            m@ == grouped_a_en_spec(regs@.take(i as int)),
        decreases regs@.len() - i,
    {
        assert(regs@.take(i as int + 1).drop_last() =~= regs@.take(i as int));
        if regs[i].grup.is_some() {
            m.insert(regs[i].id, regs[i].a_en);
        }
        i = i + 1;
    }
    assert(regs@.take(regs@.len() as int) =~= regs@);
    m
}

/// The registers of `regs` in group `g`, in order.
pub open spec fn group_members(regs: Seq<Reg>, g: i32) -> Seq<Reg> {
    regs.filter(|r: Reg| r.grup == Some(g))
}

/// The registers of group `g` in `regs` (in order).
fn group_regs(regs: &Vec<Reg>, g: i32) -> (r: Vec<Reg>)
    ensures
        r@ == group_members(regs@, g),
{
    let mut out: Vec<Reg> = Vec::new();
    let n = regs.len();
    let mut i: usize = 0;
    while i < n
        invariant
            n == regs@.len(),
            i <= n,
            out@ == group_members(regs@.subrange(0, i as int), g),
        decreases n - i,
    {
        proof {
            let s1 = regs@.subrange(0, i + 1);
            assert(s1.drop_last() =~= regs@.subrange(0, i as int));
            reveal_with_fuel(Seq::<Reg>::filter, 1);
        }
        let is_member = match regs[i].grup {
            Some(x) => x == g,
            None => false,
        };
        if is_member {
            out.push(regs[i].clone());
        }
        i = i + 1;
        proof {
            assert(out@ =~= group_members(regs@.subrange(0, i as int), g));
        }
    }
    assert(regs@.subrange(0, n as int) =~= regs@);
    out
}

/// The registers of every group of `regs`, each group's in address order
/// (registers at one address in their order in `regs`).
fn regs_by_group_of(regs: &Vec<Reg>) -> (r: HashMap<i32, Vec<Reg>>)
    ensures
        r@.dom() == groups_of(regs@),
        forall|g: i32| #[trigger] r@.contains_key(g) ==> r@[g]@ == sort_by_key_spec(group_members(regs@, g), reg_addr_key())
            && sorted_by(r@[g]@, reg_addr_key()),
{
    broadcast use vstd::std_specs::hash::group_hash_axioms;
    let mut m: HashMap<i32, Vec<Reg>> = HashMap::new();
    let mut i: usize = 0;
    while i < regs.len()
        invariant
            i <= regs@.len(),
            m@.dom() == groups_of(regs@.take(i as int)),
            forall|g: i32| #[trigger] m@.contains_key(g) ==> m@[g]@ == sort_by_key_spec(group_members(regs@, g), reg_addr_key())
                && sorted_by(m@[g]@, reg_addr_key()),
        decreases regs@.len() - i,
    {
        match regs[i].grup {
            Some(g) => {
                if !m.contains_key(&g) {
                    let members = group_regs(regs, g);
                    let sorted = sort_regs_by_addr(members);
                    proof {
                        lemma_sort_by_key(group_members(regs@, g), reg_addr_key());
                    }
                    m.insert(g, sorted);
                }
            },
            None => {},
        }
        proof {
            let t0 = regs@.take(i as int);
            let t1 = regs@.take(i as int + 1);
            assert forall|g: i32| #[trigger] groups_of(t1).contains(g) == m@.dom().contains(g) by {
                if groups_of(t1).contains(g) {
                    let j = choose|j: int| 0 <= j < t1.len() && (#[trigger] t1[j]).grup == Some(g);
                    if j < i {
                        assert(t0[j] == t1[j]);
                    }
                }
                if groups_of(t0).contains(g) {
                    let j = choose|j: int| 0 <= j < t0.len() && (#[trigger] t0[j]).grup == Some(g);
                    assert(t1[j] == t0[j]);
                }
                if regs@[i as int].grup == Some(g) {
                    assert(t1[i as int] == regs@[i as int]);
                }
            }
            assert(m@.dom() =~= groups_of(t1));
        }
        i = i + 1;
    }
    assert(regs@.take(regs@.len() as int) =~= regs@);
    m
}

/// The default script bindings of every group of `regs`.
fn fallback_bindings_by_group(regs: &Vec<Reg>) -> (r: HashMap<i32, Vec<RegBinding>>)
    ensures
        r@.dom() == groups_of(regs@),
        forall|g: i32| #[trigger] r@.contains_key(g) ==> r@[g]@ == sort_by_addr(group_bindings_spec(regs@, g))
            && addr_sorted(r@[g]@),
{
    broadcast use vstd::std_specs::hash::group_hash_axioms;
    let mut m: HashMap<i32, Vec<RegBinding>> = HashMap::new();
    let mut i: usize = 0;
    while i < regs.len()
        invariant
            i <= regs@.len(),
            m@.dom() == groups_of(regs@.take(i as int)),
            forall|g: i32| #[trigger] m@.contains_key(g) ==> m@[g]@ == sort_by_addr(group_bindings_spec(regs@, g))
                && addr_sorted(m@[g]@),
        decreases regs@.len() - i,
    {
        let ghost before = m@;
        match regs[i].grup {
            Some(g) => {
                if !m.contains_key(&g) {
                    let b = group_fallback_bindings(regs, g);
                    m.insert(g, b);
                }
            },
            None => {},
        }
        proof {
            let t0 = regs@.take(i as int);
            let t1 = regs@.take(i as int + 1);
            assert forall|g: i32| #[trigger] groups_of(t1).contains(g) == m@.dom().contains(g) by {
                if groups_of(t1).contains(g) {
                    let j = choose|j: int| 0 <= j < t1.len() && (#[trigger] t1[j]).grup == Some(g);
                    if j < i {
                        assert(t0[j] == t1[j]);
                    }
                }
                if groups_of(t0).contains(g) {
                    let j = choose|j: int| 0 <= j < t0.len() && (#[trigger] t0[j]).grup == Some(g);
                    assert(t1[j] == t0[j]);
                }
                if regs@[i as int].grup == Some(g) {
                    assert(t1[i as int] == regs@[i as int]);
                }
            }
            assert(m@.dom() =~= groups_of(t1));
        }
        i = i + 1;
    }
    assert(regs@.take(regs@.len() as int) =~= regs@);
    m
}

/// The configured bindings of `rows` that resolve against the register
/// addresses, in order.
fn resolve_bindings(rows: &Vec<ScriptBindingRow>, addr_by_reg_id: &HashMap<i32, i32>) -> (r: Vec<(i32, i32, RegBinding)>)
    ensures
        r@ == resolved_bindings_spec(rows@, addr_by_reg_id@),
{
    let mut out: Vec<(i32, i32, RegBinding)> = Vec::new();
    let mut i: usize = 0;
    while i < rows.len()
        invariant
            i <= rows@.len(),
            out@ == resolved_bindings_spec(rows@.take(i as int), addr_by_reg_id@),
        decreases rows@.len() - i,
    {
        assert(rows@.take(i as int + 1).drop_last() =~= rows@.take(i as int));
        let b = &rows[i];
        match resolve_binding(b, addr_by_reg_id) {
            Some(rb) => out.push((b.kpz_id, b.grup, rb)),
            None => {},
        }
        i = i + 1;
    }
    assert(rows@.take(rows@.len() as int) =~= rows@);
    out
}

/// Rebuilds the protocol topology from freshly loaded register tables:
/// the generation moves on by one (wrapping), the TIT and REG kinds are
/// looked up by name, the registers are indexed, every group gets its
/// registers as default script bindings in address order, and the
/// configured bindings are resolved. Also returns the registers whose
/// archiving was switched on since `prev` (among `prev`'s grouped
/// registers), which must be archived once.
pub fn reload_protocol_topology(
    prev: &ProtocolTopology,
    n_mb_items: &Vec<(i32, String)>,
    regs: Vec<Reg>,
    binding_rows: &Vec<ScriptBindingRow>,
) -> (r: (ProtocolTopology, Vec<i32>))
    ensures
        r.0.protocol_generation == (if prev.protocol_generation == u64::MAX { 0 } else { prev.protocol_generation + 1 }),
        r.0.n_mb_tit_id == find_kind_spec(n_mb_items@, "TIT"@),
        r.0.n_mb_reg_id == find_kind_spec(n_mb_items@, "REG"@),
        r.0.regs@ == regs@,
        r.0.regs_by_group@.dom() == groups_of(regs@),
        forall|g: i32| #[trigger] r.0.regs_by_group@.contains_key(g)
            ==> r.0.regs_by_group@[g]@ == sort_by_key_spec(group_members(regs@, g), reg_addr_key())
                && sorted_by(r.0.regs_by_group@[g]@, reg_addr_key()),
        (r.0.index.reg_id_by_addr@, r.0.index.addr_by_reg_id@, r.0.index.tip_by_reg_id@, r.0.index.read_func_by_addr@)
            == index_spec(regs@, r.0.n_mb_tit_id, r.0.n_mb_reg_id),
        r.0.fallback_by_group@.dom() == groups_of(regs@),
        forall|g: i32| #[trigger] r.0.fallback_by_group@.contains_key(g)
            ==> r.0.fallback_by_group@[g]@ == sort_by_addr(group_bindings_spec(regs@, g))
                && addr_sorted(r.0.fallback_by_group@[g]@),
        r.0.script_bindings@ == resolved_bindings_spec(binding_rows@, r.0.index.addr_by_reg_id@),
        r.0.mqtt_reg_meta_by_id@ == mqtt_meta_spec(regs@),
        r.1@ == newly_enabled_spec(regs@, grouped_a_en_spec(prev.regs@)),
{
    let generation = prev.protocol_generation.wrapping_add(1);
    let prev_a_en = grouped_a_en(&prev.regs);
    let tit = find_kind_id(n_mb_items, "TIT");
    let reg_kind = find_kind_id(n_mb_items, "REG");
    let newly = newly_enabled_reg_ids(&regs, &prev_a_en);
    let index = index_regs(&regs, tit, reg_kind);
    let fallback = fallback_bindings_by_group(&regs);
    let by_group = regs_by_group_of(&regs);
    let bindings = resolve_bindings(binding_rows, &index.addr_by_reg_id);
    let meta = mqtt_meta_by_reg_id(&regs);
    let t = ProtocolTopology {
        protocol_generation: generation,
        n_mb_tit_id: tit,
        n_mb_reg_id: reg_kind,
        regs,
        regs_by_group: by_group,
        index,
        fallback_by_group: fallback,
        script_bindings: bindings,
        mqtt_reg_meta_by_id: meta,
    };
    (t, newly)
}


} // verus!
