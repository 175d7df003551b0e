//! Planning of the reads of one register group: which registers are
//! polled, in which order, and how they are merged into contiguous read
//! blocks per Modbus function; and decoding of the words of a read reply.

use vstd::prelude::*;
use std::collections::HashSet;

use crate::reg::Reg;

verus! {

/// One contiguous read: start address, number of words, function code.
#[derive(Clone, Copy, Debug, PartialEq, Eq)]
pub struct ReadBlock {
    pub adr: i32,
    pub cnt_words: i32,
    pub func: u8,
}

// ---------------------------------------------------------------------
// Group order.
// ---------------------------------------------------------------------

/// Groups other than `start`.
pub open spec fn other_group(start: i32) -> spec_fn(i32) -> bool {
    |g: i32| g != start
}

/// The start group first when it is enabled, then every other enabled
/// group in its order.
pub open spec fn ordered_groups_spec(enabled: Seq<i32>, start_group_id: i32) -> Seq<i32> {
    let rest = enabled.filter(other_group(start_group_id));
    if enabled.contains(start_group_id) {
        seq![start_group_id] + rest
    } else {
        rest
    }
}

/// Orders the enabled groups for a polling cycle.
pub fn ordered_groups(enabled: &[i32], start_group_id: i32) -> (out: Vec<i32>)
    ensures
        out@ == ordered_groups_spec(enabled@, start_group_id),
{
    let mut found = false;
    let n = enabled.len();
    let mut i: usize = 0;
    while i < n
        invariant
            n == enabled@.len(),
            i <= n,
            found == enabled@.subrange(0, i as int).contains(start_group_id),
        decreases n - i,
    {
        if enabled[i] == start_group_id {
            found = true;
        }
        proof {
            let s1 = enabled@.subrange(0, i + 1);
            if found {
                if enabled@[i as int] == start_group_id {
                    assert(s1[i as int] == start_group_id);
                } else {
                    let k = choose|k: int| 0 <= k < i && enabled@.subrange(0, i as int)[k] == start_group_id;
                    assert(s1[k] == start_group_id);
                }
            } else {
                assert forall|k: int| 0 <= k < s1.len() implies s1[k] != start_group_id by {
                    if k < i {
                        assert(s1[k] == enabled@.subrange(0, i as int)[k]);
                    }
                }
            }
        }
        i = i + 1;
    }
    assert(enabled@.subrange(0, n as int) =~= enabled@);
    let mut out: Vec<i32> = Vec::with_capacity(n);
    if found {
        out.push(start_group_id);
    }
    let ghost first: Seq<i32> = if found { seq![start_group_id] } else { Seq::empty() };
    assert(out@ =~= first);
    let mut j: usize = 0;
    while j < n
        invariant
            n == enabled@.len(),
            j <= n,
            out@ == first + enabled@.subrange(0, j as int).filter(other_group(start_group_id)),
        decreases n - j,
    {
        let g = enabled[j];
        proof {
            let s1 = enabled@.subrange(0, j + 1);
            assert(s1.drop_last() =~= enabled@.subrange(0, j as int));
            reveal_with_fuel(Seq::<i32>::filter, 1);
        }
        if g != start_group_id {
            out.push(g);
        }
        j = j + 1;
        proof {
            assert(out@ =~= first + enabled@.subrange(0, j as int).filter(other_group(start_group_id)));
        }
    }
    assert(enabled@.subrange(0, n as int) =~= enabled@);
    out
}

// ---------------------------------------------------------------------
// Read function and filtering.
// ---------------------------------------------------------------------

/// FC4 for registers of the TIT kind, FC3 for the REG kind, none otherwise
/// (the TIT comparison is made first).
pub open spec fn read_func_spec(reg: Reg, n_mb_tit_id: Option<i32>, n_mb_reg_id: Option<i32>) -> Option<u8> {
    if reg.n_mb == n_mb_tit_id {
        Some(4u8)
    } else if reg.n_mb == n_mb_reg_id {
        Some(3u8)
    } else {
        None
    }
}

/// The Modbus read function for a register.
pub fn read_func_for_reg(reg: &Reg, n_mb_tit_id: Option<i32>, n_mb_reg_id: Option<i32>) -> (r: Option<u8>)
    ensures
        r == read_func_spec(*reg, n_mb_tit_id, n_mb_reg_id),
{
    if opt_i32_eq(reg.n_mb, n_mb_tit_id) {
        return Some(4);
    }
    if opt_i32_eq(reg.n_mb, n_mb_reg_id) {
        return Some(3);
    }
    None
}

fn opt_i32_eq(a: Option<i32>, b: Option<i32>) -> (r: bool)
    ensures
        r == (a == b),
{
    match (a, b) {
        (None, None) => true,
        (Some(x), Some(y)) => x == y,
        _ => false,
    }
}

/// A register is polled when its address is a 16-bit address and it has a
/// read function.
pub open spec fn pollable(reg: Reg, n_mb_tit_id: Option<i32>, n_mb_reg_id: Option<i32>) -> bool {
    0 <= reg.addr <= 65535 && read_func_spec(reg, n_mb_tit_id, n_mb_reg_id) is Some
}

/// `pollable` as a predicate on registers.
pub open spec fn pollable_fn(n_mb_tit_id: Option<i32>, n_mb_reg_id: Option<i32>) -> spec_fn(Reg) -> bool {
    |r: Reg| pollable(r, n_mb_tit_id, n_mb_reg_id)
}

/// Keeps the registers that can be polled, in order.
pub fn filter_regs_for_polling(regs: &[Reg], n_mb_tit_id: Option<i32>, n_mb_reg_id: Option<i32>) -> (out: Vec<Reg>)
    ensures
        out@ == regs@.filter(pollable_fn(n_mb_tit_id, n_mb_reg_id)),
{
    let mut out: Vec<Reg> = Vec::new();
    let n = regs.len();
    let mut i: usize = 0;
    while i < n
        invariant
            n == regs@.len(),
            i <= n,
            out@ == regs@.subrange(0, i as int).filter(pollable_fn(n_mb_tit_id, n_mb_reg_id)),
        decreases n - i,
    {
        let r = &regs[i];
        proof {
            let s1 = regs@.subrange(0, i + 1);
            assert(s1.drop_last() =~= regs@.subrange(0, i as int));
            reveal_with_fuel(Seq::<Reg>::filter, 1);
        }
        let a = r.addr;
        if 0 <= a && a <= 65535 && read_func_for_reg(r, n_mb_tit_id, n_mb_reg_id).is_some() {
            out.push(r.clone());
        }
        i = i + 1;
        proof {
            assert(out@ =~= regs@.subrange(0, i as int).filter(pollable_fn(n_mb_tit_id, n_mb_reg_id)));
        }
    }
    assert(regs@.subrange(0, n as int) =~= regs@);
    out
}

/// The end (exclusive) of the address range `start .. start + count`
/// (a negative count is empty), limited to the largest address.
pub open spec fn range_end(start: i32, count: i32) -> int {
    let e = start + (if count > 0 { count as int } else { 0 });
    if e > i32::MAX { i32::MAX as int } else { e }
}

/// Registers whose address lies in `start .. range_end(start, count)`.
pub open spec fn in_range_fn(start: i32, count: i32) -> spec_fn(Reg) -> bool {
    |r: Reg| start <= r.addr && r.addr < range_end(start, count)
}

/// The registers of `regs` whose address lies in the `count` words from
/// `start` (the end saturating at the largest address), in order.
pub fn regs_in_range(regs: &[Reg], start: i32, count: i32) -> (out: Vec<Reg>)
    ensures
        out@ == regs@.filter(in_range_fn(start, count)),
{
    let c: i64 = if count > 0 { count as i64 } else { 0 };
    let e: i64 = start as i64 + c;
    let end: i32 = if e > i32::MAX as i64 { i32::MAX } else { e as i32 };
    let mut out: Vec<Reg> = Vec::new();
    let n = regs.len();
    let mut i: usize = 0;
    while i < n
        invariant
            n == regs@.len(),
            i <= n,
            end == range_end(start, count),
            out@ == regs@.subrange(0, i as int).filter(in_range_fn(start, count)),
        decreases n - i,
    {
        let r = &regs[i];
        proof {
            let s1 = regs@.subrange(0, i + 1);
            assert(s1.drop_last() =~= regs@.subrange(0, i as int));
            reveal_with_fuel(Seq::<Reg>::filter, 1);
        }
        if start <= r.addr && r.addr < end {
            out.push(r.clone());
        }
        i = i + 1;
        proof {
            assert(out@ =~= regs@.subrange(0, i as int).filter(in_range_fn(start, count)));
        }
    }
    assert(regs@.subrange(0, n as int) =~= regs@);
    out
}

// ---------------------------------------------------------------------
// Stable sorting by a key.
// ---------------------------------------------------------------------

/// Inserts `x` after the last element of `s` whose key is not greater (the
/// step of a stable insertion sort).
pub open spec fn insert_by_key<T>(s: Seq<T>, x: T, key: spec_fn(T) -> int) -> Seq<T>
    decreases s.len(),
{
    if s.len() == 0 {
        seq![x]
    } else if key(s.last()) <= key(x) {
        s.push(x)
    } else {
        insert_by_key(s.drop_last(), x, key).push(s.last())
    }
}

/// `s` sorted by `key`, elements of equal key kept in their order.
pub open spec fn sort_by_key_spec<T>(s: Seq<T>, key: spec_fn(T) -> int) -> Seq<T>
    decreases s.len(),
{
    if s.len() == 0 {
        Seq::empty()
    } else {
        insert_by_key(sort_by_key_spec(s.drop_last(), key), s.last(), key)
    }
}

/// Keys never decrease along `s`.
pub open spec fn sorted_by<T>(s: Seq<T>, key: spec_fn(T) -> int) -> bool {
    forall|i: int, j: int| 0 <= i <= j < s.len() ==> key(s[i]) <= key(s[j])
}

/// Key of a register: its address.
pub open spec fn reg_addr_key() -> spec_fn(Reg) -> int {
    |r: Reg| r.addr as int
}

/// Key of a block: its start address.
pub open spec fn block_adr_key() -> spec_fn(ReadBlock) -> int {
    |b: ReadBlock| b.adr as int
}

proof fn lemma_insert_at<T>(s: Seq<T>, x: T, key: spec_fn(T) -> int, j: int)
    requires
        0 <= j <= s.len(),
        forall|k: int| 0 <= k < j ==> key(#[trigger] s[k]) <= key(x),
        forall|k: int| j <= k < s.len() ==> key(#[trigger] s[k]) > key(x),
    ensures
        insert_by_key(s, x, key) == s.insert(j, x),
    decreases s.len(),
{
    if s.len() == 0 {
        assert(s.insert(0, x) =~= seq![x]);
    } else if key(s.last()) <= key(x) {
        assert(j == s.len()) by {
            if j < s.len() {
                assert(key(s[s.len() - 1]) > key(x));
            }
        }
        assert(s.insert(j, x) =~= s.push(x));
    } else {
        let t = s.drop_last();
        assert forall|k: int| 0 <= k < j implies key(#[trigger] t[k]) <= key(x) by {
            assert(j <= t.len()) by {
                if j == s.len() {
                    assert(key(s[s.len() - 1]) <= key(x));
                }
            }
            assert(t[k] == s[k]);
        }
        assert(j <= t.len()) by {
            if j == s.len() {
                assert(key(s[s.len() - 1]) <= key(x));
            }
        }
        assert forall|k: int| j <= k < t.len() implies key(#[trigger] t[k]) > key(x) by {
            assert(t[k] == s[k]);
        }
        lemma_insert_at(t, x, key, j);
        assert(t.insert(j, x).push(s.last()) =~= s.insert(j, x));
    }
}

proof fn lemma_insert_sorted<T>(s: Seq<T>, x: T, key: spec_fn(T) -> int)
    requires
        sorted_by(s, key),
    ensures
        sorted_by(insert_by_key(s, x, key), key),
        insert_by_key(s, x, key).len() == s.len() + 1,
        insert_by_key(s, x, key).to_multiset() == s.to_multiset().insert(x),
    decreases s.len(),
{
    broadcast use vstd::seq_lib::group_to_multiset_ensures;
    if s.len() == 0 {
        assert(seq![x].to_multiset() =~= Seq::<T>::empty().to_multiset().insert(x)) by {
            assert(seq![x] =~= Seq::<T>::empty().push(x));
        }
    } else if key(s.last()) <= key(x) {
    } else {
        let t = s.drop_last();
        assert(sorted_by(t, key)) by {
            assert forall|i: int, j: int| 0 <= i <= j < t.len() implies key(t[i]) <= key(t[j]) by {
                assert(t[i] == s[i] && t[j] == s[j]);
            }
        }
        lemma_insert_sorted(t, x, key);
        let u = insert_by_key(t, x, key);
        let r = u.push(s.last());
        assert(sorted_by(r, key)) by {
            assert forall|i: int, j: int| 0 <= i <= j < r.len() implies key(r[i]) <= key(r[j]) by {
                if j == r.len() - 1 && i < j {
                    // every element of u is from t or is x, all at most s.last()
                    assert(u.to_multiset().count(u[i]) > 0);
                    assert(u.to_multiset() == t.to_multiset().insert(x));
                    if u[i] != x {
                        assert(t.to_multiset().count(u[i]) > 0);
                        assert(t.contains(u[i]));
                        let k = choose|k: int| 0 <= k < t.len() && t[k] == u[i];
                        assert(t[k] == s[k]);
                        assert(key(s[k]) <= key(s[s.len() - 1]));
                    }
                }
            }
        }
        assert(s =~= t.push(s.last()));
    }
}

/// The stable sort gives a sorted permutation.
pub proof fn lemma_sort_by_key<T>(s: Seq<T>, key: spec_fn(T) -> int)
    ensures
        sorted_by(sort_by_key_spec(s, key), key),
        sort_by_key_spec(s, key).len() == s.len(),
        sort_by_key_spec(s, key).to_multiset() == s.to_multiset(),
    decreases s.len(),
{
    broadcast use vstd::seq_lib::group_to_multiset_ensures;
    if s.len() > 0 {
        lemma_sort_by_key(s.drop_last(), key);
        lemma_insert_sorted(sort_by_key_spec(s.drop_last(), key), s.last(), key);
        assert(s =~= s.drop_last().push(s.last()));
    }
}

/// Sorts registers by address, stably.
pub fn sort_regs_by_addr(regs: Vec<Reg>) -> (out: Vec<Reg>)
    ensures
        out@ == sort_by_key_spec(regs@, reg_addr_key()),
{
    let mut out: Vec<Reg> = Vec::new();
    let n = regs.len();
    let mut i: usize = 0;
    while i < n
        invariant
            n == regs@.len(),
            i <= n,
            out@ == sort_by_key_spec(regs@.subrange(0, i as int), reg_addr_key()),
        decreases n - i,
    {
        let x = regs[i].clone();
        proof {
            lemma_sort_by_key(regs@.subrange(0, i as int), reg_addr_key());
        }
        let mut j = out.len();
        while j > 0 && out[j - 1].addr > x.addr
            invariant
                j <= out@.len(),
                forall|k: int| j <= k < out@.len() ==> (#[trigger] out@[k]).addr > x.addr,
            decreases j,
        {
            j = j - 1;
        }
        proof {
            let key = reg_addr_key();
            assert forall|k: int| 0 <= k < j implies key(#[trigger] out@[k]) <= key(x) by {
                assert(key(out@[k]) <= key(out@[j - 1]));
            }
            assert forall|k: int| j <= k < out@.len() implies key(#[trigger] out@[k]) > key(x) by {}
            lemma_insert_at(out@, x, key, j as int);
            let s1 = regs@.subrange(0, i + 1);
            assert(s1.drop_last() =~= regs@.subrange(0, i as int));
            assert(s1.last() == x);
        }
        out.insert(j, x);
        i = i + 1;
    }
    assert(regs@.subrange(0, n as int) =~= regs@);
    out
}

/// Sorts blocks by start address, stably.
pub fn sort_blocks_by_adr(blocks: Vec<ReadBlock>) -> (out: Vec<ReadBlock>)
    ensures
        out@ == sort_by_key_spec(blocks@, block_adr_key()),
{
    let mut out: Vec<ReadBlock> = Vec::new();
    let n = blocks.len();
    let mut i: usize = 0;
    while i < n
        invariant
            n == blocks@.len(),
            i <= n,
            out@ == sort_by_key_spec(blocks@.subrange(0, i as int), block_adr_key()),
        decreases n - i,
    {
        let x = blocks[i];
        proof {
            lemma_sort_by_key(blocks@.subrange(0, i as int), block_adr_key());
        }
        let mut j = out.len();
        while j > 0 && out[j - 1].adr > x.adr
            invariant
                j <= out@.len(),
                forall|k: int| j <= k < out@.len() ==> (#[trigger] out@[k]).adr > x.adr,
            decreases j,
        {
            j = j - 1;
        }
        proof {
            let key = block_adr_key();
            assert forall|k: int| 0 <= k < j implies key(#[trigger] out@[k]) <= key(x) by {
                assert(key(out@[k]) <= key(out@[j - 1]));
            }
            lemma_insert_at(out@, x, key, j as int);
            let s1 = blocks@.subrange(0, i + 1);
            assert(s1.drop_last() =~= blocks@.subrange(0, i as int));
            assert(s1.last() == x);
        }
        out.insert(j, x);
        i = i + 1;
    }
    assert(blocks@.subrange(0, n as int) =~= blocks@);
    out
}


// ---------------------------------------------------------------------
// Read blocks.
// ---------------------------------------------------------------------

/// Appends the block `start..=end` unless it is empty.
pub open spec fn close_block(blocks: Seq<ReadBlock>, start: int, end: int, func: u8) -> Seq<ReadBlock> {
    if end - start + 1 > 0 {
        blocks.push(ReadBlock { adr: start as i32, cnt_words: (end - start + 1) as i32, func })
    } else {
        blocks
    }
}

/// Adds a register to the open block of its function: a register after a
/// gap, or one that would make the block longer than `max` words, closes
/// the block and opens a new one; otherwise the block grows to cover it.
pub open spec fn block_step(open: Option<(int, int)>, blocks: Seq<ReadBlock>, r: Reg, func: u8, max: int) -> (Option<(int, int)>, Seq<ReadBlock>) {
    let rs = r.addr as int;
    let re = r.end_addr();
    match open {
        None => (Some((rs, re)), blocks),
        Some((start, end)) => if rs > end + 1 || re - start + 1 > max {
            (Some((rs, re)), close_block(blocks, start, end, func))
        } else if re > end {
            (Some((start, re)), blocks)
        } else {
            (Some((start, end)), blocks)
        },
    }
}

/// The open FC4 block, the open FC3 block and the closed blocks after the
/// registers, taken in order.
pub open spec fn plan_fold(regs: Seq<Reg>, n_mb_tit_id: Option<i32>, n_mb_reg_id: Option<i32>, max: int)
    -> (Option<(int, int)>, Option<(int, int)>, Seq<ReadBlock>)
    decreases regs.len(),
{
    if regs.len() == 0 {
        (None, None, Seq::empty())
    } else {
        let prev = plan_fold(regs.drop_last(), n_mb_tit_id, n_mb_reg_id, max);
        let r = regs.last();
        match read_func_spec(r, n_mb_tit_id, n_mb_reg_id) {
            None => prev,
            Some(f) => if f == 4 {
                let st = block_step(prev.0, prev.2, r, 4, max);
                (st.0, prev.1, st.1)
            } else {
                let st = block_step(prev.1, prev.2, r, 3, max);
                (prev.0, st.0, st.1)
            },
        }
    }
}

/// Closes an open block, if any.
pub open spec fn close_open(blocks: Seq<ReadBlock>, open: Option<(int, int)>, func: u8) -> Seq<ReadBlock> {
    match open {
        Some((s, e)) => close_block(blocks, s, e, func),
        None => blocks,
    }
}

/// Ids of the registers that take write-back (`a_en` and not
/// `a_no_write`).
pub open spec fn write_ids_spec(regs: Seq<Reg>) -> Set<i32> {
    Set::new(|id: i32| exists|i: int| 0 <= i < regs.len() && regs[i].id == id && regs[i].a_en && regs[i].a_no_write == 0)
}

/// What `plan_group_reads` returns: the pollable registers sorted by
/// address, the write-back ids, and the read blocks of both functions
/// sorted by start address; `None` when nothing is to be read.
pub open spec fn plan_group_reads_spec(regs: Seq<Reg>, n_mb_tit_id: Option<i32>, n_mb_reg_id: Option<i32>, max: int)
    -> Option<(Seq<Reg>, Set<i32>, Seq<ReadBlock>)>
{
    let sorted = sort_by_key_spec(regs.filter(pollable_fn(n_mb_tit_id, n_mb_reg_id)), reg_addr_key());
    if sorted.len() == 0 {
        None
    } else {
        let st = plan_fold(sorted, n_mb_tit_id, n_mb_reg_id, max);
        let blocks = sort_by_key_spec(close_open(close_open(st.2, st.0, 4), st.1, 3), block_adr_key());
        if blocks.len() == 0 {
            None
        } else {
            Some((sorted, write_ids_spec(sorted), blocks))
        }
    }
}

proof fn lemma_sorted_pollable(regs: Seq<Reg>, n_mb_tit_id: Option<i32>, n_mb_reg_id: Option<i32>)
    ensures
        forall|i: int| 0 <= i < sort_by_key_spec(regs.filter(pollable_fn(n_mb_tit_id, n_mb_reg_id)), reg_addr_key()).len()
            ==> pollable(#[trigger] sort_by_key_spec(regs.filter(pollable_fn(n_mb_tit_id, n_mb_reg_id)), reg_addr_key())[i], n_mb_tit_id, n_mb_reg_id),
{
    broadcast use vstd::seq_lib::group_to_multiset_ensures, vstd::seq_lib::group_filter_ensures;
    let p = pollable_fn(n_mb_tit_id, n_mb_reg_id);
    let f = regs.filter(p);
    let s = sort_by_key_spec(f, reg_addr_key());
    lemma_sort_by_key(f, reg_addr_key());
    assert forall|i: int| 0 <= i < s.len() implies pollable(#[trigger] s[i], n_mb_tit_id, n_mb_reg_id) by {
        assert(s.to_multiset().count(s[i]) > 0);
        assert(f.to_multiset().count(s[i]) > 0);
        assert(f.contains(s[i]));
        let k = choose|k: int| 0 <= k < f.len() && f[k] == s[i];
        assert(p(f[k]));
    }
}

/// Exec form of an open block.
fn block_step_exec(start: &mut Option<i32>, end: &mut i32, blocks: &mut Vec<ReadBlock>, r: &Reg, func: u8, max: i32)
    requires
        0 <= r.addr <= 65535,
        match *old(start) {
            Some(s) => 0 <= s <= *old(end) + 1 && *old(end) <= 65536,
            None => true,
        },
    ensures
        ({
            let o = match *old(start) { Some(s) => Some((s as int, *old(end) as int)), None => None };
            let st = block_step(o, old(blocks)@, *r, func, max as int);
            &&& final(blocks)@ == st.1
            &&& st.0 == match *final(start) { Some(s) => Some((s as int, *final(end) as int)), None => None }
        }),
        match *final(start) {
            Some(s) => 0 <= s <= *final(end) + 1 && *final(end) <= 65536,
            None => false,
        },
{
    let r_start = r.addr;
    let r_end = r.addr + if r.is_32() { 2 } else { 1 } - 1;
    match *start {
        None => {
            *start = Some(r_start);
            *end = r_end;
        },
        Some(s) => {
            let gap = r_start > *end + 1;
            let would_cnt = r_end - s + 1;
            if gap || would_cnt > max {
                let cnt = *end - s + 1;
                if cnt > 0 {
                    blocks.push(ReadBlock { adr: s, cnt_words: cnt, func });
                }
                *start = Some(r_start);
                *end = r_end;
            } else if r_end > *end {
                *end = r_end;
            }
        },
    }
}

fn close_open_exec(blocks: &mut Vec<ReadBlock>, start: Option<i32>, end: i32, func: u8)
    requires
        match start {
            Some(s) => 0 <= s <= end + 1 && end <= 65536,
            None => true,
        },
    ensures
        final(blocks)@ == close_open(old(blocks)@, match start { Some(s) => Some((s as int, end as int)), None => None }, func),
{
    if let Some(s) = start {
        let cnt = end - s + 1;
        if cnt > 0 {
            blocks.push(ReadBlock { adr: s, cnt_words: cnt, func });
        }
    }
}

/// Plans the reads of a register group: the pollable registers sorted by
/// address, the ids of those that take write-back, and the read blocks of
/// both functions sorted by address.
pub fn plan_group_reads(regs: &[Reg], n_mb_tit_id: Option<i32>, n_mb_reg_id: Option<i32>, max_words_per_block: i32)
    -> (r: Option<(Vec<Reg>, HashSet<i32>, Vec<ReadBlock>)>)
    ensures
        match (r, plan_group_reads_spec(regs@, n_mb_tit_id, n_mb_reg_id, max_words_per_block as int)) {
            (Some((v, ids, b)), Some((sv, sids, sb))) => v@ == sv && ids@ == sids && b@ == sb,
            (None, None) => true,
            _ => false,
        },
        (forall|i: int| 0 <= i < regs@.len() ==> (#[trigger] regs@[i]).width() <= max_words_per_block) ==>
            (r matches Some((_v, _ids, b)) ==>
                forall|k: int| 0 <= k < b@.len() ==> 1 <= #[trigger] b@[k].cnt_words <= max_words_per_block),
        r matches Some((v, _ids, b)) ==>
            forall|k: int, w: int| 0 <= k < b@.len() && b@[k].adr <= w < b@[k].adr + b@[k].cnt_words
                ==> #[trigger] word_of_regs(v@, w, b@[k].func, n_mb_tit_id, n_mb_reg_id),
{
    broadcast use vstd::std_specs::hash::group_hash_axioms;
    proof {
        lemma_plan_reads_only_register_words(regs@, n_mb_tit_id, n_mb_reg_id, max_words_per_block as int);
        if forall|i: int| 0 <= i < regs@.len() ==> (#[trigger] regs@[i]).width() <= max_words_per_block {
            lemma_plan_blocks_within_limit(regs@, n_mb_tit_id, n_mb_reg_id, max_words_per_block as int);
        }
    }
    let filtered = filter_regs_for_polling(regs, n_mb_tit_id, n_mb_reg_id);
    let regs_poll_sorted = sort_regs_by_addr(filtered);
    if regs_poll_sorted.len() == 0 {
        return None;
    }
    let ghost sorted = regs_poll_sorted@;
    proof {
        lemma_sorted_pollable(regs@, n_mb_tit_id, n_mb_reg_id);
    }
    let mut write_ids: HashSet<i32> = HashSet::new();
    let mut blocks: Vec<ReadBlock> = Vec::new();
    let mut fc4_start: Option<i32> = None;
    let mut fc4_end: i32 = 0;
    let mut fc3_start: Option<i32> = None;
    let mut fc3_end: i32 = 0;
    let n = regs_poll_sorted.len();
    let mut i: usize = 0;
    while i < n
        invariant
            n == sorted.len(),
            sorted == regs_poll_sorted@,
            i <= n,
            forall|k: int| 0 <= k < n ==> pollable(#[trigger] sorted[k], n_mb_tit_id, n_mb_reg_id),
            write_ids@ == write_ids_spec(sorted.subrange(0, i as int)),
            ({
                let st = plan_fold(sorted.subrange(0, i as int), n_mb_tit_id, n_mb_reg_id, max_words_per_block as int);
                &&& st.0 == match fc4_start { Some(s) => Some((s as int, fc4_end as int)), None => None }
                &&& st.1 == match fc3_start { Some(s) => Some((s as int, fc3_end as int)), None => None }
                &&& st.2 == blocks@
            }),
            match fc4_start { Some(s) => 0 <= s <= fc4_end + 1 && fc4_end <= 65536, None => true },
            match fc3_start { Some(s) => 0 <= s <= fc3_end + 1 && fc3_end <= 65536, None => true },
        decreases n - i,
    {
        let r = &regs_poll_sorted[i];
        assert(pollable(sorted[i as int], n_mb_tit_id, n_mb_reg_id));
        let ghost pre = sorted.subrange(0, i as int);
        let ghost cur = sorted.subrange(0, i + 1);
        proof {
            assert(cur.drop_last() =~= pre);
            assert(cur.last() == *r);
        }
        if r.a_en && r.a_no_write == 0 {
            write_ids.insert(r.id);
        }
        proof {
            assert(write_ids@ =~= write_ids_spec(cur)) by {
                assert forall|id: i32| write_ids_spec(cur).contains(id) implies write_ids@.contains(id) by {
                    let k = choose|k: int| 0 <= k < cur.len() && cur[k].id == id && cur[k].a_en && cur[k].a_no_write == 0;
                    if k < i {
                        assert(pre[k] == cur[k]);
                    }
                }
                assert forall|id: i32| write_ids@.contains(id) implies write_ids_spec(cur).contains(id) by {
                    if write_ids_spec(pre).contains(id) {
                        let k = choose|k: int| 0 <= k < pre.len() && pre[k].id == id && pre[k].a_en && pre[k].a_no_write == 0;
                        assert(cur[k] == pre[k]);
                    } else {
                        assert(cur[i as int] == *r);
                    }
                }
            }
        }
        let func = read_func_for_reg(r, n_mb_tit_id, n_mb_reg_id);
        match func {
            None => {},
            Some(f) => {
                if f == 4 {
                    block_step_exec(&mut fc4_start, &mut fc4_end, &mut blocks, r, 4, max_words_per_block);
                } else {
                    block_step_exec(&mut fc3_start, &mut fc3_end, &mut blocks, r, 3, max_words_per_block);
                }
            },
        }
        i = i + 1;
    }
    assert(sorted.subrange(0, n as int) =~= sorted);
    close_open_exec(&mut blocks, fc4_start, fc4_end, 4);
    close_open_exec(&mut blocks, fc3_start, fc3_end, 3);
    let blocks = sort_blocks_by_adr(blocks);
    if blocks.len() == 0 {
        return None;
    }
    proof {
        let sp = plan_group_reads_spec(regs@, n_mb_tit_id, n_mb_reg_id, max_words_per_block as int);
        assert(sp == Some((regs_poll_sorted@, write_ids@, blocks@)));
        assert forall|k: int, w: int| 0 <= k < blocks@.len() && blocks@[k].adr <= w < blocks@[k].adr + blocks@[k].cnt_words
            implies #[trigger] word_of_regs(regs_poll_sorted@, w, blocks@[k].func, n_mb_tit_id, n_mb_reg_id) by {
            let (sv, _sids, sb) = sp->0;
            assert(word_of_regs(sv, w, sb[k].func, n_mb_tit_id, n_mb_reg_id));
        }
    }
    Some((regs_poll_sorted, write_ids, blocks))
}

/// The blocks of one function over registers taken in order.
pub open spec fn single_fold(regs: Seq<Reg>, max: int, func: u8) -> (Option<(int, int)>, Seq<ReadBlock>)
    decreases regs.len(),
{
    if regs.len() == 0 {
        (None, Seq::empty())
    } else {
        let prev = single_fold(regs.drop_last(), max, func);
        block_step(prev.0, prev.1, regs.last(), func, max)
    }
}

/// What `build_blocks_with_func` returns: the registers sorted by address
/// and grouped into blocks of one function.
pub open spec fn build_blocks_spec(regs: Seq<Reg>, max: int, func: u8) -> Seq<ReadBlock> {
    let st = single_fold(sort_by_key_spec(regs, reg_addr_key()), max, func);
    close_open(st.1, st.0, func)
}

/// Groups registers (sorted by address) into read blocks of one function,
/// breaking a block at a gap or where it would pass `max_words_per_block`.
pub fn build_blocks_with_func(regs: &[Reg], max_words_per_block: i32, func: u8) -> (out: Vec<ReadBlock>)
    requires
        forall|k: int| 0 <= k < regs@.len() ==> 0 <= (#[trigger] regs@[k]).addr <= 65535,
    ensures
        out@ == build_blocks_spec(regs@, max_words_per_block as int, func),
        (forall|i: int| 0 <= i < regs@.len() ==> (#[trigger] regs@[i]).width() <= max_words_per_block) ==>
            forall|k: int| 0 <= k < out@.len() ==> 1 <= #[trigger] out@[k].cnt_words <= max_words_per_block,
{
    broadcast use vstd::seq_lib::group_to_multiset_ensures;
    proof {
        if forall|i: int| 0 <= i < regs@.len() ==> (#[trigger] regs@[i]).width() <= max_words_per_block {
            lemma_build_blocks_within_limit(regs@, max_words_per_block as int, func);
        }
    }
    let mut copy: Vec<Reg> = Vec::new();
    let m = regs.len();
    let mut j: usize = 0;
    while j < m
        invariant
            m == regs@.len(),
            j <= m,
            copy@ == regs@.subrange(0, j as int),
        decreases m - j,
    {
        copy.push(regs[j].clone());
        j = j + 1;
        assert(copy@ =~= regs@.subrange(0, j as int));
    }
    assert(regs@.subrange(0, m as int) =~= regs@);
    let sorted = sort_regs_by_addr(copy);
    let ghost ss = sorted@;
    proof {
        lemma_sort_by_key(regs@, reg_addr_key());
        assert forall|k: int| 0 <= k < ss.len() implies 0 <= (#[trigger] ss[k]).addr <= 65535 by {
            assert(ss.to_multiset().count(ss[k]) > 0);
            assert(regs@.to_multiset().count(ss[k]) > 0);
            assert(regs@.contains(ss[k]));
        }
    }
    let mut out: Vec<ReadBlock> = Vec::new();
    let mut start: Option<i32> = None;
    let mut end: i32 = 0;
    let n = sorted.len();
    let mut i: usize = 0;
    while i < n
        invariant
            n == ss.len(),
            ss == sorted@,
            i <= n,
            forall|k: int| 0 <= k < n ==> 0 <= (#[trigger] ss[k]).addr <= 65535,
            ({
                let st = single_fold(ss.subrange(0, i as int), max_words_per_block as int, func);
                &&& st.0 == match start { Some(s) => Some((s as int, end as int)), None => None }
                &&& st.1 == out@
            }),
            match start { Some(s) => 0 <= s <= end + 1 && end <= 65536, None => true },
        decreases n - i,
    {
        let r = &sorted[i];
        proof {
            let cur = ss.subrange(0, i + 1);
            assert(cur.drop_last() =~= ss.subrange(0, i as int));
            assert(cur.last() == *r);
            assert(0 <= ss[i as int].addr <= 65535);
        }
        block_step_exec(&mut start, &mut end, &mut out, r, func, max_words_per_block);
        i = i + 1;
    }
    assert(ss.subrange(0, n as int) =~= ss);
    close_open_exec(&mut out, start, end, func);
    out
}

// ---------------------------------------------------------------------
// Read replies.
// ---------------------------------------------------------------------

/// The first `expected_count` words of a read reply (big endian after the
/// byte count, which is two bytes wide after an extended unit address);
/// empty for an exception, a short frame or a byte count below what is
/// expected.
pub open spec fn words_from_frame_spec(mb: Seq<u8>, expected_count: int) -> Seq<u16> {
    if mb.len() == 0 || expected_count <= 0 {
        Seq::empty()
    } else {
        let ulen: int = if mb[0] >= 0xF8 { 2 } else { 1 };
        if mb.len() <= ulen {
            Seq::empty()
        } else if mb[ulen] >= 0x80 {
            Seq::empty()
        } else {
            let bc_index = ulen + 1;
            if ulen == 2 && mb.len() < bc_index + 2 {
                Seq::empty()
            } else if ulen == 1 && mb.len() <= bc_index {
                Seq::empty()
            } else {
                let byte_count: int = if ulen == 2 { mb[bc_index] * 256 + mb[bc_index + 1] } else { mb[bc_index] as int };
                let data_start = if ulen == 2 { bc_index + 2 } else { bc_index + 1 };
                if byte_count < expected_count * 2 || mb.len() < data_start + byte_count {
                    Seq::empty()
                } else {
                    Seq::new(expected_count as nat, |i: int| (mb[data_start + 2 * i] * 256 + mb[data_start + 2 * i + 1]) as u16)
                }
            }
        }
    }
}

/// Decodes the words of a read reply frame.
pub fn words_from_modbus_frame(mb: &[u8], expected_count: i32) -> (out: Vec<u16>)
    ensures
        out@ == words_from_frame_spec(mb@, expected_count as int),
{
    let mut out: Vec<u16> = Vec::new();
    if mb.len() == 0 || expected_count <= 0 {
        return out;
    }
    let ulen: usize = if mb[0] >= 0xF8 { 2 } else { 1 };
    let func_index = ulen;
    if mb.len() <= func_index {
        return out;
    }
    let func = mb[func_index];
    assert(((func & 0x80u8) != 0u8) == (func >= 0x80u8)) by (bit_vector);
    if (func & 0x80) != 0 {
        return out;
    }
    let bc_index = func_index + 1;
    let byte_count: usize;
    let data_start: usize;
    if ulen == 2 {
        if mb.len() < bc_index + 2 {
            return out;
        }
        let h = mb[bc_index];
        let l = mb[bc_index + 1];
        byte_count = ((h as usize) << 8) | (l as usize);
        assert((((h as usize) << 8usize) | (l as usize)) == (h as usize) * 256 + (l as usize)) by (bit_vector);
        data_start = bc_index + 2;
    } else {
        if mb.len() <= bc_index {
            return out;
        }
        byte_count = mb[bc_index] as usize;
        data_start = bc_index + 1;
    }
    let need_bytes = expected_count as usize * 2;
    if byte_count < need_bytes {
        return out;
    }
    if mb.len() - data_start < byte_count {
        return out;
    }
    let cnt = expected_count as usize;
    assert(mb@.len() == mb.len());
    let mut i: usize = 0;
    while i < cnt
        invariant
            cnt == expected_count,
            data_start + 2 * cnt <= mb@.len(),
            mb@.len() <= usize::MAX,
            i <= cnt,
            out@ == Seq::new(i as nat, |k: int| (mb@[data_start + 2 * k] * 256 + mb@[data_start + 2 * k + 1]) as u16),
        decreases cnt - i,
    {
        let hi = mb[data_start + 2 * i] as u16;
        let lo = mb[data_start + 2 * i + 1] as u16;
        let w = (hi << 8) | lo;
        assert(w == hi * 256 + lo) by (bit_vector)
            requires
                w == (hi << 8u16) | lo,
                hi < 256,
                lo < 256,
        ;
        out.push(w);
        i = i + 1;
        assert(out@ =~= Seq::new(i as nat, |k: int| (mb@[data_start + 2 * k] * 256 + mb@[data_start + 2 * k + 1]) as u16));
    }
    out
}

// ---------------------------------------------------------------------
// Every polled register is read.
// ---------------------------------------------------------------------

/// A block of function `func` that spans all words of a register.
pub open spec fn block_covers(b: ReadBlock, r: Reg, func: u8) -> bool {
    b.func == func && b.adr <= r.addr && r.end_addr() < b.adr + b.cnt_words
}

/// Some block of the list covers the register with that function.
pub open spec fn blocks_cover(blocks: Seq<ReadBlock>, r: Reg, func: u8) -> bool {
    exists|j: int| 0 <= j < blocks.len() && #[trigger] block_covers(blocks[j], r, func)
}

/// The open block `(start, end)` spans all words of a register.
pub open spec fn open_covers(open: Option<(int, int)>, r: Reg) -> bool {
    match open {
        Some((s, e)) => s <= r.addr && r.end_addr() <= e,
        None => false,
    }
}

/// An open block is a real range that starts at one of the registers seen.
pub open spec fn open_ok(open: Option<(int, int)>, regs: Seq<Reg>) -> bool {
    match open {
        Some((s, e)) => 0 <= s <= e <= 65536 && exists|k: int| 0 <= k < regs.len() && s == (#[trigger] regs[k]).addr,
        None => true,
    }
}

proof fn lemma_blocks_cover_push(blocks: Seq<ReadBlock>, b: ReadBlock, r: Reg, func: u8)
    requires
        blocks_cover(blocks, r, func),
    ensures
        blocks_cover(blocks.push(b), r, func),
{
    let j = choose|j: int| 0 <= j < blocks.len() && #[trigger] block_covers(blocks[j], r, func);
    assert(blocks.push(b)[j] == blocks[j]);
}

proof fn lemma_close_keeps(blocks: Seq<ReadBlock>, s: int, e: int, func: u8, r: Reg, g: u8)
    requires
        blocks_cover(blocks, r, g),
    ensures
        blocks_cover(close_block(blocks, s, e, func), r, g),
{
    if e - s + 1 > 0 {
        lemma_blocks_cover_push(blocks, ReadBlock { adr: s as i32, cnt_words: (e - s + 1) as i32, func }, r, g);
    }
}

/// A step of one function's block keeps what closed blocks of any function
/// cover.
proof fn lemma_block_step_keeps(open: Option<(int, int)>, blocks: Seq<ReadBlock>, r: Reg, func: u8, max: int, q: Reg, g: u8)
    requires
        blocks_cover(blocks, q, g),
    ensures
        blocks_cover(block_step(open, blocks, r, func, max).1, q, g),
{
    if let Some((s, e)) = open {
        lemma_close_keeps(blocks, s, e, func, q, g);
    }
}

proof fn lemma_close_covers(blocks: Seq<ReadBlock>, s: int, e: int, func: u8, r: Reg)
    requires
        0 <= s <= e <= 65536,
        s <= r.addr,
        r.end_addr() <= e,
    ensures
        blocks_cover(close_block(blocks, s, e, func), r, func),
{
    let b = ReadBlock { adr: s as i32, cnt_words: (e - s + 1) as i32, func };
    let nb = blocks.push(b);
    assert(nb[blocks.len() as int] == b);
    assert(block_covers(nb[blocks.len() as int], r, func));
}

/// What one step of a block does: the register just added is covered by
/// the open block, and every register covered before (by the open block or
/// a closed one) still is.
proof fn lemma_block_step_covers(open: Option<(int, int)>, blocks: Seq<ReadBlock>, r: Reg, func: u8, max: int, q: Reg)
    requires
        0 <= r.addr <= 65535,
        match open { Some((s, e)) => 0 <= s <= e <= 65536 && s <= r.addr, None => true },
        q == r || open_covers(open, q) || blocks_cover(blocks, q, func),
    ensures
        ({
            let st = block_step(open, blocks, r, func, max);
            open_covers(st.0, q) || blocks_cover(st.1, q, func)
        }),
        ({
            let st = block_step(open, blocks, r, func, max);
            blocks_cover(blocks, q, func) ==> blocks_cover(st.1, q, func)
        }),
{
    let rs = r.addr as int;
    let re = r.end_addr();
    match open {
        None => {},
        Some((s, e)) => {
            if rs > e + 1 || re - s + 1 > max {
                if blocks_cover(blocks, q, func) {
                    lemma_close_keeps(blocks, s, e, func, q, func);
                } else if q != r {
                    lemma_close_covers(blocks, s, e, func, q);
                }
            }
        },
    }
}

/// After the registers (sorted, polled) are folded into blocks, each is
/// covered by a closed block of its function or by the open block of its
/// function; the open blocks are real ranges starting at registers seen.
proof fn lemma_plan_fold_covers(regs: Seq<Reg>, tit: Option<i32>, regid: Option<i32>, max: int)
    requires
        sorted_by(regs, reg_addr_key()),
        forall|k: int| 0 <= k < regs.len() ==> pollable(#[trigger] regs[k], tit, regid),
    ensures
        ({
            let st = plan_fold(regs, tit, regid, max);
            &&& open_ok(st.0, regs)
            &&& open_ok(st.1, regs)
            &&& forall|k: int| 0 <= k < regs.len() ==> {
                let f = read_func_spec(#[trigger] regs[k], tit, regid)->0;
                if f == 4 { open_covers(st.0, regs[k]) || blocks_cover(st.2, regs[k], 4) }
                else { open_covers(st.1, regs[k]) || blocks_cover(st.2, regs[k], 3) }
            }
        }),
    decreases regs.len(),
{
    if regs.len() > 0 {
        let d = regs.drop_last();
        let r = regs.last();
        assert(sorted_by(d, reg_addr_key())) by {
            assert forall|i: int, j: int| 0 <= i <= j < d.len() implies reg_addr_key()(d[i]) <= reg_addr_key()(d[j]) by {
                assert(d[i] == regs[i] && d[j] == regs[j]);
            }
        }
        assert forall|k: int| 0 <= k < d.len() implies pollable(#[trigger] d[k], tit, regid) by {
            assert(d[k] == regs[k]);
        }
        lemma_plan_fold_covers(d, tit, regid, max);
        let prev = plan_fold(d, tit, regid, max);
        let st = plan_fold(regs, tit, regid, max);
        assert(pollable(regs[regs.len() - 1], tit, regid));
        let f = read_func_spec(r, tit, regid)->0;
        // The open blocks start at registers already seen, so at or below r.
        let start_ok = |o: Option<(int, int)>| match o { Some((s, e)) => 0 <= s <= e <= 65536 && s <= r.addr, None => true };
        assert(start_ok(prev.0)) by {
            if let Some((s, e)) = prev.0 {
                let k = choose|k: int| 0 <= k < d.len() && s == (#[trigger] d[k]).addr;
                assert(d[k] == regs[k]);
                assert(reg_addr_key()(regs[k]) <= reg_addr_key()(regs[regs.len() - 1]));
            }
        }
        assert(start_ok(prev.1)) by {
            if let Some((s, e)) = prev.1 {
                let k = choose|k: int| 0 <= k < d.len() && s == (#[trigger] d[k]).addr;
                assert(d[k] == regs[k]);
                assert(reg_addr_key()(regs[k]) <= reg_addr_key()(regs[regs.len() - 1]));
            }
        }
        assert forall|k: int| 0 <= k < regs.len() implies {
            let fk = read_func_spec(#[trigger] regs[k], tit, regid)->0;
            if fk == 4 { open_covers(st.0, regs[k]) || blocks_cover(st.2, regs[k], 4) }
            else { open_covers(st.1, regs[k]) || blocks_cover(st.2, regs[k], 3) }
        } by {
            let q = regs[k];
            let fk = read_func_spec(q, tit, regid)->0;
            if k < d.len() {
                assert(d[k] == q);
            }
            if fk == f {
                if f == 4 {
                    lemma_block_step_covers(prev.0, prev.2, r, 4, max, q);
                } else {
                    lemma_block_step_covers(prev.1, prev.2, r, 3, max, q);
                }
            } else {
                assert(k < d.len());
                if f == 4 {
                    if blocks_cover(prev.2, q, fk) {
                        lemma_block_step_keeps(prev.0, prev.2, r, 4, max, q, fk);
                    }
                } else {
                    if blocks_cover(prev.2, q, fk) {
                        lemma_block_step_keeps(prev.1, prev.2, r, 3, max, q, fk);
                    }
                }
            }
        }
        assert(open_ok(st.0, regs)) by {
            if let Some((s, e)) = st.0 {
                if f == 4 && (prev.0 is None || st.0 != prev.0) && s == r.addr {
                    assert(regs[regs.len() - 1].addr == s);
                } else if let Some((s0, e0)) = prev.0 {
                    let k = choose|k: int| 0 <= k < d.len() && s0 == (#[trigger] d[k]).addr;
                    assert(d[k] == regs[k]);
                    if s != s0 {
                        assert(regs[regs.len() - 1].addr == s);
                    }
                } else {
                    assert(regs[regs.len() - 1].addr == s);
                }
            }
        }
        assert(open_ok(st.1, regs)) by {
            if let Some((s, e)) = st.1 {
                if let Some((s0, e0)) = prev.1 {
                    let k = choose|k: int| 0 <= k < d.len() && s0 == (#[trigger] d[k]).addr;
                    assert(d[k] == regs[k]);
                    if s != s0 {
                        assert(regs[regs.len() - 1].addr == s);
                    }
                } else {
                    assert(regs[regs.len() - 1].addr == s);
                }
            }
        }
    }
}

/// Every register that a group plan polls is read: some read block of its
/// function spans all its words.
pub proof fn lemma_plan_reads_every_register(regs: Seq<Reg>, n_mb_tit_id: Option<i32>, n_mb_reg_id: Option<i32>, max: int)
    ensures
        plan_group_reads_spec(regs, n_mb_tit_id, n_mb_reg_id, max) matches Some((sorted, ids, blocks)) ==>
            forall|k: int| 0 <= k < sorted.len() ==>
                blocks_cover(blocks, #[trigger] sorted[k], read_func_spec(sorted[k], n_mb_tit_id, n_mb_reg_id)->0),
{
    broadcast use vstd::seq_lib::group_to_multiset_ensures;
    let sorted = sort_by_key_spec(regs.filter(pollable_fn(n_mb_tit_id, n_mb_reg_id)), reg_addr_key());
    lemma_sorted_pollable(regs, n_mb_tit_id, n_mb_reg_id);
    lemma_sort_by_key(regs.filter(pollable_fn(n_mb_tit_id, n_mb_reg_id)), reg_addr_key());
    lemma_plan_fold_covers(sorted, n_mb_tit_id, n_mb_reg_id, max);
    let st = plan_fold(sorted, n_mb_tit_id, n_mb_reg_id, max);
    let c1 = close_open(st.2, st.0, 4);
    let c2 = close_open(c1, st.1, 3);
    let blocks = sort_by_key_spec(c2, block_adr_key());
    lemma_sort_by_key(c2, block_adr_key());
    assert forall|k: int| 0 <= k < sorted.len() implies
        blocks_cover(blocks, #[trigger] sorted[k], read_func_spec(sorted[k], n_mb_tit_id, n_mb_reg_id)->0) by {
        let q = sorted[k];
        let f = read_func_spec(q, n_mb_tit_id, n_mb_reg_id)->0;
        // Covered in the closed list after both open blocks are closed.
        if f == 4 {
            if blocks_cover(st.2, q, 4) {
                if let Some((s, e)) = st.0 { lemma_close_keeps(st.2, s, e, 4, q, 4); }
            } else {
                let (s, e) = st.0->0;
                lemma_close_covers(st.2, s, e, 4, q);
            }
            if let Some((s, e)) = st.1 { lemma_close_keeps(c1, s, e, 3, q, 4); }
        } else {
            if let Some((s, e)) = st.0 {
                if blocks_cover(st.2, q, 3) { lemma_close_keeps(st.2, s, e, 4, q, 3); }
            }
            if blocks_cover(c1, q, 3) {
                if let Some((s, e)) = st.1 { lemma_close_keeps(c1, s, e, 3, q, 3); }
            } else {
                let (s, e) = st.1->0;
                lemma_close_covers(c1, s, e, 3, q);
            }
        }
        // Sorting keeps every block.
        let j = choose|j: int| 0 <= j < c2.len() && #[trigger] block_covers(c2[j], q, f);
        assert(c2.to_multiset().count(c2[j]) > 0);
        assert(blocks.to_multiset().count(c2[j]) > 0);
        assert(blocks.contains(c2[j]));
        let i = choose|i: int| 0 <= i < blocks.len() && blocks[i] == c2[j];
        assert(block_covers(blocks[i], q, f));
    }
}

/// Every block of `blocks` reads from one to `max` words.
pub open spec fn blocks_within(blocks: Seq<ReadBlock>, max: int) -> bool {
    forall|k: int| 0 <= k < blocks.len() ==> 1 <= #[trigger] blocks[k].cnt_words <= max
}

/// An open block spans at most `max` words.
spec fn open_within(open: Option<(int, int)>, max: int) -> bool {
    match open {
        Some((s, e)) => e - s + 1 <= max,
        None => true,
    }
}

proof fn lemma_close_within(blocks: Seq<ReadBlock>, open: Option<(int, int)>, func: u8, max: int)
    requires
        blocks_within(blocks, max),
        open_within(open, max),
        max <= i32::MAX,
    ensures
        blocks_within(close_open(blocks, open, func), max),
{
    if let Some((s, e)) = open {
        let c = close_open(blocks, open, func);
        assert forall|k: int| 0 <= k < c.len() implies 1 <= #[trigger] c[k].cnt_words <= max by {
            if k < blocks.len() {
                assert(c[k] == blocks[k]);
            }
        }
    }
}

proof fn lemma_block_step_within(open: Option<(int, int)>, blocks: Seq<ReadBlock>, r: Reg, func: u8, max: int)
    requires
        blocks_within(blocks, max),
        open_within(open, max),
        r.width() <= max,
        max <= i32::MAX,
    ensures
        blocks_within(block_step(open, blocks, r, func, max).1, max),
        open_within(block_step(open, blocks, r, func, max).0, max),
{
    if let Some((s, e)) = open {
        lemma_close_within(blocks, open, func, max);
    }
}

proof fn lemma_plan_fold_within(regs: Seq<Reg>, tit: Option<i32>, regid: Option<i32>, max: int)
    requires
        forall|i: int| 0 <= i < regs.len() ==> (#[trigger] regs[i]).width() <= max,
        max <= i32::MAX,
    ensures
        open_within(plan_fold(regs, tit, regid, max).0, max),
        open_within(plan_fold(regs, tit, regid, max).1, max),
        blocks_within(plan_fold(regs, tit, regid, max).2, max),
    decreases regs.len(),
{
    if regs.len() > 0 {
        let pre = regs.drop_last();
        assert forall|i: int| 0 <= i < pre.len() implies (#[trigger] pre[i]).width() <= max by {
            assert(pre[i] == regs[i]);
        }
        lemma_plan_fold_within(pre, tit, regid, max);
        let prev = plan_fold(pre, tit, regid, max);
        let r = regs.last();
        assert(r == regs[regs.len() - 1]);
        lemma_block_step_within(prev.0, prev.2, r, 4, max);
        lemma_block_step_within(prev.1, prev.2, r, 3, max);
    }
}

/// No read block of a group plan is longer than the limit it was planned
/// with: each reads from one to `max` words, as long as no register of the
/// group is itself wider than `max` words.
pub proof fn lemma_plan_blocks_within_limit(regs: Seq<Reg>, n_mb_tit_id: Option<i32>, n_mb_reg_id: Option<i32>, max: int)
    requires
        forall|i: int| 0 <= i < regs.len() ==> (#[trigger] regs[i]).width() <= max,
        max <= i32::MAX,
    ensures
        plan_group_reads_spec(regs, n_mb_tit_id, n_mb_reg_id, max) matches Some((sorted, ids, blocks)) ==>
            forall|k: int| 0 <= k < blocks.len() ==> 1 <= #[trigger] blocks[k].cnt_words <= max,
{
    broadcast use vstd::seq_lib::group_to_multiset_ensures, vstd::seq_lib::group_filter_ensures;
    let p = pollable_fn(n_mb_tit_id, n_mb_reg_id);
    let f = regs.filter(p);
    let sorted = sort_by_key_spec(f, reg_addr_key());
    lemma_sort_by_key(f, reg_addr_key());
    assert forall|i: int| 0 <= i < sorted.len() implies (#[trigger] sorted[i]).width() <= max by {
        assert(sorted.to_multiset().count(sorted[i]) > 0);
        assert(f.to_multiset().count(sorted[i]) > 0);
        assert(f.contains(sorted[i]));
        let k = choose|k: int| 0 <= k < f.len() && f[k] == sorted[i];
        regs.lemma_filter_contains_rev(p, f[k]);
        assert(regs.contains(f[k]));
        let j = choose|j: int| 0 <= j < regs.len() && regs[j] == f[k];
        assert(regs[j].width() <= max);
    }
    lemma_plan_fold_within(sorted, n_mb_tit_id, n_mb_reg_id, max);
    let st = plan_fold(sorted, n_mb_tit_id, n_mb_reg_id, max);
    let c1 = close_open(st.2, st.0, 4);
    lemma_close_within(st.2, st.0, 4, max);
    let c2 = close_open(c1, st.1, 3);
    lemma_close_within(c1, st.1, 3, max);
    let blocks = sort_by_key_spec(c2, block_adr_key());
    lemma_sort_by_key(c2, block_adr_key());
    assert forall|k: int| 0 <= k < blocks.len() implies 1 <= #[trigger] blocks[k].cnt_words <= max by {
        assert(blocks.to_multiset().count(blocks[k]) > 0);
        assert(c2.to_multiset().count(blocks[k]) > 0);
        assert(c2.contains(blocks[k]));
        let j = choose|j: int| 0 <= j < c2.len() && c2[j] == blocks[k];
        assert(1 <= c2[j].cnt_words <= max);
    }
}

proof fn lemma_single_fold_within(regs: Seq<Reg>, max: int, func: u8)
    requires
        forall|i: int| 0 <= i < regs.len() ==> (#[trigger] regs[i]).width() <= max,
        max <= i32::MAX,
    ensures
        open_within(single_fold(regs, max, func).0, max),
        blocks_within(single_fold(regs, max, func).1, max),
    decreases regs.len(),
{
    if regs.len() > 0 {
        let pre = regs.drop_last();
        assert forall|i: int| 0 <= i < pre.len() implies (#[trigger] pre[i]).width() <= max by {
            assert(pre[i] == regs[i]);
        }
        lemma_single_fold_within(pre, max, func);
        let prev = single_fold(pre, max, func);
        assert(regs.last() == regs[regs.len() - 1]);
        lemma_block_step_within(prev.0, prev.1, regs.last(), func, max);
    }
}

/// The blocks of one function are no longer than the limit they were
/// built with: each reads from one to `max` words, as long as no register
/// is itself wider than `max` words.
pub proof fn lemma_build_blocks_within_limit(regs: Seq<Reg>, max: int, func: u8)
    requires
        forall|i: int| 0 <= i < regs.len() ==> (#[trigger] regs[i]).width() <= max,
        max <= i32::MAX,
    ensures
        forall|k: int| 0 <= k < build_blocks_spec(regs, max, func).len()
            ==> 1 <= #[trigger] build_blocks_spec(regs, max, func)[k].cnt_words <= max,
{
    broadcast use vstd::seq_lib::group_to_multiset_ensures;
    let sorted = sort_by_key_spec(regs, reg_addr_key());
    lemma_sort_by_key(regs, reg_addr_key());
    assert forall|i: int| 0 <= i < sorted.len() implies (#[trigger] sorted[i]).width() <= max by {
        assert(sorted.to_multiset().count(sorted[i]) > 0);
        assert(regs.to_multiset().count(sorted[i]) > 0);
        assert(regs.contains(sorted[i]));
        let j = choose|j: int| 0 <= j < regs.len() && regs[j] == sorted[i];
        assert(regs[j].width() <= max);
    }
    lemma_single_fold_within(sorted, max, func);
    let st = single_fold(sorted, max, func);
    lemma_close_within(st.1, st.0, func, max);
}

/// Some register of `regs` read with function `f` holds word `w`.
pub open spec fn word_of_regs(regs: Seq<Reg>, w: int, f: u8, n_mb_tit_id: Option<i32>, n_mb_reg_id: Option<i32>) -> bool {
    exists|i: int| 0 <= i < regs.len() && read_func_spec(#[trigger] regs[i], n_mb_tit_id, n_mb_reg_id) == Some(f)
        && regs[i].addr <= w <= regs[i].end_addr()
}

/// Every word of block `b` belongs to a register of `regs` read with the
/// block's function.
spec fn block_words_ok(b: ReadBlock, regs: Seq<Reg>, tit: Option<i32>, rid: Option<i32>) -> bool {
    forall|w: int| b.adr <= w < b.adr + b.cnt_words ==> #[trigger] word_of_regs(regs, w, b.func, tit, rid)
}

spec fn blocks_words_ok(blocks: Seq<ReadBlock>, regs: Seq<Reg>, tit: Option<i32>, rid: Option<i32>) -> bool {
    forall|k: int| 0 <= k < blocks.len() ==> block_words_ok(#[trigger] blocks[k], regs, tit, rid)
}

spec fn open_words_ok(open: Option<(int, int)>, regs: Seq<Reg>, f: u8, tit: Option<i32>, rid: Option<i32>) -> bool {
    match open {
        Some((s, e)) => 0 <= s && e <= 65536 && forall|w: int| s <= w <= e ==> #[trigger] word_of_regs(regs, w, f, tit, rid),
        None => true,
    }
}

proof fn lemma_words_grow(pre: Seq<Reg>, regs: Seq<Reg>, tit: Option<i32>, rid: Option<i32>)
    requires
        regs.len() > 0,
        pre == regs.drop_last(),
    ensures
        forall|w: int, f: u8| #[trigger] word_of_regs(pre, w, f, tit, rid) ==> word_of_regs(regs, w, f, tit, rid),
{
    assert forall|w: int, f: u8| #[trigger] word_of_regs(pre, w, f, tit, rid) implies word_of_regs(regs, w, f, tit, rid) by {
        let i = choose|i: int| 0 <= i < pre.len() && read_func_spec(#[trigger] pre[i], tit, rid) == Some(f)
            && pre[i].addr <= w <= pre[i].end_addr();
        assert(regs[i] == pre[i]);
    }
}

proof fn lemma_close_words(blocks: Seq<ReadBlock>, open: Option<(int, int)>, f: u8, regs: Seq<Reg>, tit: Option<i32>, rid: Option<i32>)
    requires
        blocks_words_ok(blocks, regs, tit, rid),
        open_words_ok(open, regs, f, tit, rid),
    ensures
        blocks_words_ok(close_open(blocks, open, f), regs, tit, rid),
{
    if let Some((s, e)) = open {
        let c = close_open(blocks, open, f);
        assert forall|k: int| 0 <= k < c.len() implies block_words_ok(#[trigger] c[k], regs, tit, rid) by {
            if k < blocks.len() {
                assert(c[k] == blocks[k]);
            } else {
                assert(c[k].adr == s && c[k].cnt_words == e - s + 1 && c[k].func == f);
            }
        }
    }
}

proof fn lemma_block_step_words(open: Option<(int, int)>, blocks: Seq<ReadBlock>, f: u8, max: int, regs: Seq<Reg>, tit: Option<i32>, rid: Option<i32>)
    requires
        regs.len() > 0,
        read_func_spec(regs.last(), tit, rid) == Some(f),
        0 <= regs.last().addr <= 65535,
        open_words_ok(open, regs, f, tit, rid),
        blocks_words_ok(blocks, regs, tit, rid),
    ensures
        open_words_ok(block_step(open, blocks, regs.last(), f, max).0, regs, f, tit, rid),
        blocks_words_ok(block_step(open, blocks, regs.last(), f, max).1, regs, tit, rid),
{
    let r = regs.last();
    assert(r == regs[regs.len() - 1]);
    assert forall|w: int| r.addr <= w <= r.end_addr() implies #[trigger] word_of_regs(regs, w, f, tit, rid) by {
        assert(regs[regs.len() - 1] == r);
    }
    if let Some((s, e)) = open {
        lemma_close_words(blocks, open, f, regs, tit, rid);
    }
}

proof fn lemma_plan_fold_words(regs: Seq<Reg>, tit: Option<i32>, rid: Option<i32>, max: int)
    requires
        forall|i: int| 0 <= i < regs.len() ==> pollable(#[trigger] regs[i], tit, rid),
    ensures
        open_words_ok(plan_fold(regs, tit, rid, max).0, regs, 4, tit, rid),
        open_words_ok(plan_fold(regs, tit, rid, max).1, regs, 3, tit, rid),
        blocks_words_ok(plan_fold(regs, tit, rid, max).2, regs, tit, rid),
    decreases regs.len(),
{
    if regs.len() > 0 {
        let pre = regs.drop_last();
        assert forall|i: int| 0 <= i < pre.len() implies pollable(#[trigger] pre[i], tit, rid) by {
            assert(pre[i] == regs[i]);
        }
        lemma_plan_fold_words(pre, tit, rid, max);
        lemma_words_grow(pre, regs, tit, rid);
        let prev = plan_fold(pre, tit, rid, max);
        let r = regs.last();
        assert(pollable(regs[regs.len() - 1], tit, rid));
        assert(r == regs[regs.len() - 1]);
        if let Some((s, e)) = prev.0 {
            assert forall|w: int| s <= w <= e implies #[trigger] word_of_regs(regs, w, 4, tit, rid) by {
                assert(word_of_regs(pre, w, 4, tit, rid));
            }
        }
        if let Some((s, e)) = prev.1 {
            assert forall|w: int| s <= w <= e implies #[trigger] word_of_regs(regs, w, 3, tit, rid) by {
                assert(word_of_regs(pre, w, 3, tit, rid));
            }
        }
        assert(blocks_words_ok(prev.2, regs, tit, rid)) by {
            assert forall|k: int| 0 <= k < prev.2.len() implies block_words_ok(#[trigger] prev.2[k], regs, tit, rid) by {
                let bk = prev.2[k];
                assert(block_words_ok(bk, pre, tit, rid));
                assert forall|w: int| bk.adr <= w < bk.adr + bk.cnt_words implies #[trigger] word_of_regs(regs, w, bk.func, tit, rid) by {
                    assert(word_of_regs(pre, w, bk.func, tit, rid));
                }
            }
        }
        match read_func_spec(r, tit, rid) {
            None => {},
            Some(f) => {
                if f == 4 {
                    lemma_block_step_words(prev.0, prev.2, 4, max, regs, tit, rid);
                } else {
                    lemma_block_step_words(prev.1, prev.2, 3, max, regs, tit, rid);
                }
            },
        }
    }
}

/// A group plan reads no word that is not a register's: every word of
/// every read block belongs to one of the polled registers read with the
/// block's function (a gap between registers splits the block).
pub proof fn lemma_plan_reads_only_register_words(regs: Seq<Reg>, n_mb_tit_id: Option<i32>, n_mb_reg_id: Option<i32>, max: int)
    ensures
        plan_group_reads_spec(regs, n_mb_tit_id, n_mb_reg_id, max) matches Some((sorted, ids, blocks)) ==>
            forall|k: int, w: int| 0 <= k < blocks.len() && blocks[k].adr <= w < blocks[k].adr + blocks[k].cnt_words
                ==> #[trigger] word_of_regs(sorted, w, blocks[k].func, n_mb_tit_id, n_mb_reg_id),
{
    broadcast use vstd::seq_lib::group_to_multiset_ensures;
    let sorted = sort_by_key_spec(regs.filter(pollable_fn(n_mb_tit_id, n_mb_reg_id)), reg_addr_key());
    lemma_sorted_pollable(regs, n_mb_tit_id, n_mb_reg_id);
    lemma_plan_fold_words(sorted, n_mb_tit_id, n_mb_reg_id, max);
    let st = plan_fold(sorted, n_mb_tit_id, n_mb_reg_id, max);
    let c1 = close_open(st.2, st.0, 4);
    lemma_close_words(st.2, st.0, 4, sorted, n_mb_tit_id, n_mb_reg_id);
    let c2 = close_open(c1, st.1, 3);
    lemma_close_words(c1, st.1, 3, sorted, n_mb_tit_id, n_mb_reg_id);
    let blocks = sort_by_key_spec(c2, block_adr_key());
    lemma_sort_by_key(c2, block_adr_key());
    assert forall|k: int, w: int| 0 <= k < blocks.len() && blocks[k].adr <= w < blocks[k].adr + blocks[k].cnt_words
        implies #[trigger] word_of_regs(sorted, w, blocks[k].func, n_mb_tit_id, n_mb_reg_id) by {
        assert(blocks.to_multiset().count(blocks[k]) > 0);
        assert(c2.to_multiset().count(blocks[k]) > 0);
        assert(c2.contains(blocks[k]));
        let j = choose|j: int| 0 <= j < c2.len() && c2[j] == blocks[k];
        assert(block_words_ok(c2[j], sorted, n_mb_tit_id, n_mb_reg_id));
    }
}

} // verus!
