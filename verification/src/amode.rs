//! The decisions of one A-mode poll of a КПЗ: which enabled groups are
//! polled and which are left to their scripts, the read plan of each
//! polled group and the glued request built from it, the check that every
//! request was answered, which registers a block's answer holds, and
//! whether a decoded value goes to the archive.

use vstd::prelude::*;
use vstd::utf8::encode_utf8;
use vstd::string::StringSliceAdditionalSpecFns;
use std::collections::{HashMap, HashSet};

use crate::poll_plan::{ordered_groups, ordered_groups_spec, plan_group_reads, plan_group_reads_spec, read_func_for_reg, read_func_spec, ReadBlock};
use crate::reg::Reg;
use crate::text::{trim_spec, trim_str};

verus! {

/// Most words one read block spans in A-mode.
pub const A_MODE_MAX_WORDS: i32 = 120;

/// Whether group `g` runs a script instead of being polled: its script's
/// pre-source, trimmed, is at least 3 bytes long.
pub open spec fn is_script_group(pre_src_by_group: Map<i32, Option<String>>, g: i32) -> bool {
    pre_src_by_group.contains_key(g) && match pre_src_by_group[g] {
        Some(s) => encode_utf8(trim_spec(s@)).len() >= 3,
        None => false,
    }
}

/// The groups of `groups` that are polled (not script groups), in order.
pub open spec fn a_groups_spec(groups: Seq<i32>, pre: Map<i32, Option<String>>) -> Seq<i32> {
    groups.filter(|g: i32| !is_script_group(pre, g))
}

/// The groups of `groups` left to their scripts, in order.
pub open spec fn script_groups_spec(groups: Seq<i32>, pre: Map<i32, Option<String>>) -> Seq<i32> {
    groups.filter(|g: i32| is_script_group(pre, g))
}

/// The read plan of one polled group: its id, its pollable registers in
/// address order, the ids that take write-back, and its read blocks.
pub struct GroupPlan {
    pub group_id: i32,
    pub regs_poll_sorted: Vec<Reg>,
    pub write_ids: HashSet<i32>,
}

/// One read of the glued request: the plan it belongs to and the block.
#[derive(Clone, Copy, Debug, PartialEq, Eq)]
pub struct BlockPlan {
    pub group_idx: usize,
    pub block: ReadBlock,
}

/// Everything an A-mode poll sends: the polled and the script groups, the
/// plan of each polled group that has something to read, and the reads,
/// group after group.
pub struct AModePlan {
    pub a_groups: Vec<i32>,
    pub script_groups: Vec<i32>,
    pub group_plans: Vec<GroupPlan>,
    pub block_plans: Vec<BlockPlan>,
}

/// The plans of the polled groups `groups` (a group without registers or
/// with nothing to read gets none): group id, registers, write-back ids,
/// blocks.
pub open spec fn group_plans_spec(
    groups: Seq<i32>,
    regs_by_group: Map<i32, Vec<Reg>>,
    tit: Option<i32>,
    reg_kind: Option<i32>,
) -> Seq<(i32, Seq<Reg>, Set<i32>, Seq<ReadBlock>)>
    decreases groups.len(),
{
    if groups.len() == 0 {
        Seq::empty()
    } else {
        let p = group_plans_spec(groups.drop_last(), regs_by_group, tit, reg_kind);
        let g = groups.last();
        if regs_by_group.contains_key(g) {
            match plan_group_reads_spec(regs_by_group[g]@, tit, reg_kind, A_MODE_MAX_WORDS as int) {
                Some((regs, ids, blocks)) => p.push((g, regs, ids, blocks)),
                None => p,
            }
        } else {
            p
        }
    }
}

/// The reads of the plans, plan after plan, each with its plan's index.
pub open spec fn block_plans_spec(plans: Seq<(i32, Seq<Reg>, Set<i32>, Seq<ReadBlock>)>) -> Seq<BlockPlan>
    decreases plans.len(),
{
    if plans.len() == 0 {
        Seq::empty()
    } else {
        let k = plans.len() - 1;
        block_plans_spec(plans.drop_last()) + plans[k].3.map_values(|b: ReadBlock| BlockPlan { group_idx: k as usize, block: b })
    }
}

/// Whether `p` is the plan `s` describes.
pub open spec fn group_plan_is(p: GroupPlan, s: (i32, Seq<Reg>, Set<i32>, Seq<ReadBlock>)) -> bool {
    p.group_id == s.0 && p.regs_poll_sorted@ == s.1 && p.write_ids@ == s.2
}

/// Whether group `g` runs a script (see `is_script_group`).
fn script_group(pre_src_by_group: &HashMap<i32, Option<String>>, g: i32) -> (r: bool)
    ensures
        r == is_script_group(pre_src_by_group@, g),
{
    broadcast use vstd::std_specs::hash::group_hash_axioms;
    match pre_src_by_group.get(&g) {
        Some(pre) => match pre {
            Some(s) => {
                let t = trim_str(s.as_str());
                let ts = t.as_str();
                let bytes = ts.as_bytes();
                proof {
                    assert(ts.spec_bytes() == encode_utf8(ts@));
                }
                bytes.len() >= 3
            },
            None => false,
        },
        None => false,
    }
}

/// Plans one A-mode poll: the enabled groups in poll order starting from
/// `start_group_id`, split into polled groups and script groups; each
/// polled group with registers gets its read plan (blocks of at most 120
/// words); the reads follow group after group.
pub fn plan_a_mode(
    enabled_groups: &[i32],
    start_group_id: i32,
    pre_src_by_group: &HashMap<i32, Option<String>>,
    regs_by_group: &HashMap<i32, Vec<Reg>>,
    n_mb_tit_id: Option<i32>,
    n_mb_reg_id: Option<i32>,
) -> (r: AModePlan)
    ensures
        r.a_groups@ == a_groups_spec(ordered_groups_spec(enabled_groups@, start_group_id), pre_src_by_group@),
        r.script_groups@ == script_groups_spec(ordered_groups_spec(enabled_groups@, start_group_id), pre_src_by_group@),
        r.group_plans@.len() == group_plans_spec(r.a_groups@, regs_by_group@, n_mb_tit_id, n_mb_reg_id).len(),
        forall|k: int| 0 <= k < r.group_plans@.len() ==> group_plan_is(
            #[trigger] r.group_plans@[k],
            group_plans_spec(r.a_groups@, regs_by_group@, n_mb_tit_id, n_mb_reg_id)[k],
        ),
        r.block_plans@ == block_plans_spec(group_plans_spec(r.a_groups@, regs_by_group@, n_mb_tit_id, n_mb_reg_id)),
{
    broadcast use vstd::std_specs::hash::group_hash_axioms;
    let ordered = ordered_groups(enabled_groups, start_group_id);
    let ghost pre = pre_src_by_group@;
    let mut a_groups: Vec<i32> = Vec::new();
    let mut script_groups: Vec<i32> = Vec::new();
    let mut i: usize = 0;
    while i < ordered.len()
        invariant
            i <= ordered@.len(),
            a_groups@ == a_groups_spec(ordered@.take(i as int), pre),
            script_groups@ == script_groups_spec(ordered@.take(i as int), pre),
            pre == pre_src_by_group@,
        decreases ordered@.len() - i,
    {
        let g = ordered[i];
        proof {
            let t = ordered@.take(i as int + 1);
            assert(t.drop_last() =~= ordered@.take(i as int));
            reveal_with_fuel(Seq::<i32>::filter, 1);
        }
        if script_group(pre_src_by_group, g) {
            script_groups.push(g);
        } else {
            a_groups.push(g);
        }
        i = i + 1;
    }
    assert(ordered@.take(ordered@.len() as int) =~= ordered@);

    let ghost regs_map = regs_by_group@;
    let mut group_plans: Vec<GroupPlan> = Vec::new();
    let mut block_plans: Vec<BlockPlan> = Vec::new();
    let mut j: usize = 0;
    while j < a_groups.len()
        invariant
            j <= a_groups@.len(),
            regs_map == regs_by_group@,
            group_plans@.len() == group_plans_spec(a_groups@.take(j as int), regs_map, n_mb_tit_id, n_mb_reg_id).len(),
            forall|k: int| 0 <= k < group_plans@.len() ==> group_plan_is(
                #[trigger] group_plans@[k],
                group_plans_spec(a_groups@.take(j as int), regs_map, n_mb_tit_id, n_mb_reg_id)[k],
            ),
            block_plans@ == block_plans_spec(group_plans_spec(a_groups@.take(j as int), regs_map, n_mb_tit_id, n_mb_reg_id)),
        decreases a_groups@.len() - j,
    {
        let g = a_groups[j];
        let ghost prev = group_plans_spec(a_groups@.take(j as int), regs_map, n_mb_tit_id, n_mb_reg_id);
        proof {
            assert(a_groups@.take(j as int + 1).drop_last() =~= a_groups@.take(j as int));
        }
        match regs_by_group.get(&g) {
            Some(regs) => {
                match plan_group_reads(regs.as_slice(), n_mb_tit_id, n_mb_reg_id, A_MODE_MAX_WORDS) {
                    Some((regs_poll_sorted, write_ids, blocks)) => {
                        let group_idx = group_plans.len();
                        let ghost before = block_plans@;
                        let mut b: usize = 0;
                        while b < blocks.len()
                            invariant
                                b <= blocks@.len(),
                                group_idx == group_plans@.len(),
                                block_plans@ == before + blocks@.take(b as int).map_values(
                                    |x: ReadBlock| BlockPlan { group_idx: group_idx, block: x }),
                            decreases blocks@.len() - b,
                        {
                            block_plans.push(BlockPlan { group_idx, block: blocks[b] });
                            proof {
                                assert(block_plans@ =~= before + blocks@.take(b as int + 1).map_values(
                                    |x: ReadBlock| BlockPlan { group_idx: group_idx, block: x }));
                            }
                            b = b + 1;
                        }
                        assert(blocks@.take(blocks@.len() as int) =~= blocks@);
                        group_plans.push(GroupPlan { group_id: g, regs_poll_sorted, write_ids });
                        proof {
                            let cur = group_plans_spec(a_groups@.take(j as int + 1), regs_map, n_mb_tit_id, n_mb_reg_id);
                            assert(cur == prev.push((g, cur.last().1, cur.last().2, cur.last().3)));
                            assert forall|k: int| 0 <= k < group_plans@.len() implies group_plan_is(
                                #[trigger] group_plans@[k], cur[k]) by {
                                if k < prev.len() {
                                    assert(cur[k] == prev[k]);
                                }
                            }
                            assert(cur.drop_last() =~= prev);
                        }
                    },
                    None => {},
                }
            },
            None => {},
        }
        j = j + 1;
    }
    assert(a_groups@.take(a_groups@.len() as int) =~= a_groups@);
    AModePlan { a_groups, script_groups, group_plans, block_plans }
}

/// Why an A-mode answer is refused.
#[derive(Clone, Copy, Debug, PartialEq, Eq)]
pub enum AModeError {
    /// The device answered `received` of the `expected` requests.
    CountMismatch { received: usize, expected: usize },
}

/// Accepts an answer only when every request of the glued packet was
/// answered.
pub fn check_a_mode_answer(expected: usize, received: usize) -> (r: Result<(), AModeError>)
    ensures
        r is Ok <==> received == expected,
        r is Err ==> r == Err::<(), AModeError>(AModeError::CountMismatch { received, expected }),
{
    if received != expected {
        return Err(AModeError::CountMismatch { received, expected });
    }
    Ok(())
}

/// The registers, by position in `regs` (in address order), whose value a
/// block's answer holds, scanning from position `i`: registers read with
/// the block's function that lie wholly inside it; the scan stops at the
/// first such register that starts after the block.
pub open spec fn block_regs_from(regs: Seq<Reg>, b: ReadBlock, tit: Option<i32>, reg_kind: Option<i32>, i: int) -> Seq<int>
    decreases regs.len() - i,
{
    if i < 0 || i >= regs.len() {
        Seq::empty()
    } else {
        let r = regs[i];
        let r_end = r.addr + r.width() - 1;
        let b_end = b.adr + b.cnt_words - 1;
        if read_func_spec(r, tit, reg_kind) != Some(b.func) {
            block_regs_from(regs, b, tit, reg_kind, i + 1)
        } else if r_end < b.adr {
            block_regs_from(regs, b, tit, reg_kind, i + 1)
        } else if r.addr > b_end {
            Seq::empty()
        } else if r.addr < b.adr || r_end > b_end {
            block_regs_from(regs, b, tit, reg_kind, i + 1)
        } else {
            seq![i] + block_regs_from(regs, b, tit, reg_kind, i + 1)
        }
    }
}

/// The positions in `regs` (a group's pollable registers in address
/// order) of the registers whose value the answer to block `b` holds.
pub fn regs_in_block(regs: &[Reg], b: ReadBlock, n_mb_tit_id: Option<i32>, n_mb_reg_id: Option<i32>) -> (r: Vec<usize>)
    requires
        forall|k: int| 0 <= k < regs@.len() ==> #[trigger] regs@[k].addr + regs@[k].width() <= i32::MAX,
        i32::MIN < b.adr + b.cnt_words <= i32::MAX,
    ensures
        r@.map_values(|x: usize| x as int) == block_regs_from(regs@, b, n_mb_tit_id, n_mb_reg_id, 0),
{
    let mut out: Vec<usize> = Vec::new();
    let mut i: usize = 0;
    let b_end: i32 = b.adr + b.cnt_words - 1;
    while i < regs.len()
        invariant
            i <= regs@.len(),
            b_end == b.adr + b.cnt_words - 1,
            forall|k: int| 0 <= k < regs@.len() ==> #[trigger] regs@[k].addr + regs@[k].width() <= i32::MAX,
            out@.map_values(|x: usize| x as int) + block_regs_from(regs@, b, n_mb_tit_id, n_mb_reg_id, i as int)
                == block_regs_from(regs@, b, n_mb_tit_id, n_mb_reg_id, 0),
        ensures
            out@.map_values(|x: usize| x as int) == block_regs_from(regs@, b, n_mb_tit_id, n_mb_reg_id, 0),
        decreases regs@.len() - i,
    {
        let r = &regs[i];
        let ghost before = out@;
        assert(regs@[i as int].addr + regs@[i as int].width() <= i32::MAX);
        if read_func_for_reg(r, n_mb_tit_id, n_mb_reg_id) != Some(b.func) {
            i = i + 1;
            continue;
        }
        let width: i32 = if r.is_32() { 2 } else { 1 };
        let r_end: i32 = r.addr + width - 1;
        if r_end < b.adr {
            i = i + 1;
            continue;
        }
        if r.addr > b_end {
            proof {
                assert(block_regs_from(regs@, b, n_mb_tit_id, n_mb_reg_id, i as int) =~= Seq::<int>::empty());
                assert(out@.map_values(|x: usize| x as int) =~= out@.map_values(|x: usize| x as int) + Seq::<int>::empty());
            }
            break;
        }
        if r.addr < b.adr || r_end > b_end {
            i = i + 1;
            continue;
        }
        out.push(i);
        proof {
            assert(out@.map_values(|x: usize| x as int) =~= before.map_values(|x: usize| x as int) + seq![i as int]);
            assert(out@.map_values(|x: usize| x as int) + block_regs_from(regs@, b, n_mb_tit_id, n_mb_reg_id, i + 1)
                =~= before.map_values(|x: usize| x as int) + block_regs_from(regs@, b, n_mb_tit_id, n_mb_reg_id, i as int));
        }
        i = i + 1;
        if i >= regs.len() {
            proof {
                assert(block_regs_from(regs@, b, n_mb_tit_id, n_mb_reg_id, i as int) =~= Seq::<int>::empty());
                assert(out@.map_values(|x: usize| x as int) =~= out@.map_values(|x: usize| x as int) + Seq::<int>::empty());
            }
        }
    }
    out
}

/// The key of a КПЗ's register among those archived once:
/// `kpz << 32 | reg` (the register id taken as unsigned 32 bits).
pub open spec fn archive_key_spec(kpz_id: i32, reg_id: i32) -> i64 {
    (((kpz_id as i64) << 32i64) | ((reg_id as u32) as i64)) as i64
}

/// The archive-once key of a КПЗ's register.
pub fn archive_key(kpz_id: i32, reg_id: i32) -> (k: i64)
    ensures
        k == archive_key_spec(kpz_id, reg_id),
{
    ((kpz_id as i64) << 32i64) | ((reg_id as u32) as i64)
}

/// Whether a freshly decoded value of a write-back register is archived:
/// when its archiving was just switched on, when it is the register's
/// first value for the КПЗ, or when the value changed.
pub open spec fn archives(force: Set<i32>, primed: Set<i64>, kpz_id: i32, reg_id: i32, changed: bool) -> bool {
    force.contains(reg_id) || !primed.contains(archive_key_spec(kpz_id, reg_id)) || changed
}

/// Decides whether the value of register `reg_id` of КПЗ `kpz_id` goes to
/// the archive (only write-back registers do; see `archives`), and when it
/// does, marks the register as archived for the КПЗ and its forced
/// archiving as done. `changed` says whether the value differs from the
/// one cached before.
pub fn archive_once_step(
    primed: &mut HashSet<i64>,
    force: &mut HashSet<i32>,
    write_ids: &HashSet<i32>,
    kpz_id: i32,
    reg_id: i32,
    changed: bool,
) -> (archived: bool)
    ensures
        archived == (write_ids@.contains(reg_id) && archives(old(force)@, old(primed)@, kpz_id, reg_id, changed)),
        archived ==> final(primed)@ == old(primed)@.insert(archive_key_spec(kpz_id, reg_id))
            && final(force)@ == old(force)@.remove(reg_id),
        !archived ==> final(primed)@ == old(primed)@ && final(force)@ == old(force)@,
{
    broadcast use vstd::std_specs::hash::group_hash_axioms;
    if !write_ids.contains(&reg_id) {
        return false;
    }
    let key = archive_key(kpz_id, reg_id);
    let first_for_kpz_reg = !primed.contains(&key);
    let force_archive = force.contains(&reg_id);
    if force_archive || first_for_kpz_reg || changed {
        primed.insert(key);
        if force_archive {
            force.remove(&reg_id);
        } else {
            assert(old(force)@.remove(reg_id) =~= old(force)@);
        }
        true
    } else {
        false
    }
}

} // verus!
