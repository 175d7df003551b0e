//! Batching of runtime state writes: of several queued updates of one
//! state row (an alarm rule's state, a КПЗ archive's last index) only the
//! latest is written, kept at the place where the row first appeared.
//!
//! An update is a key and a payload; alarm states are keyed by
//! `(rule_id, 0)`, archive states by `(kpz_id, arx_id)`.

use vstd::prelude::*;

verus! {

/// Where the last update of `key` stands in `s`, if any.
pub open spec fn last_index_of<T>(s: Seq<((i64, i64), T)>, key: (i64, i64)) -> Option<int>
    decreases s.len(),
{
    if s.len() == 0 {
        None
    } else if s.last().0 == key {
        Some(s.len() - 1)
    } else {
        last_index_of(s.drop_last(), key)
    }
}

/// One more update: it replaces the last queued update of its key, or is
/// queued at the end when its key is new.
pub open spec fn coalesce_one<T>(s: Seq<((i64, i64), T)>, u: ((i64, i64), T)) -> Seq<((i64, i64), T)> {
    match last_index_of(s, u.0) {
        Some(i) => s.update(i, u),
        None => s.push(u),
    }
}

/// `base` after taking in the updates of `more` in order, and how many of
/// them replaced a queued update.
pub open spec fn coalesce_all<T>(base: Seq<((i64, i64), T)>, more: Seq<((i64, i64), T)>) -> (Seq<((i64, i64), T)>, nat)
    decreases more.len(),
{
    if more.len() == 0 {
        (base, 0)
    } else {
        let (s, n) = coalesce_all(base, more.drop_last());
        let replaced: nat = if last_index_of(s, more.last().0) is Some { 1 } else { 0 };
        (coalesce_one(s, more.last()), n + replaced)
    }
}

proof fn lemma_last_index_bounds<T>(s: Seq<((i64, i64), T)>, key: (i64, i64))
    ensures
        match last_index_of(s, key) {
            Some(i) => 0 <= i < s.len() && s[i].0 == key
                && forall|j: int| i < j < s.len() ==> s[j].0 != key,
            None => forall|j: int| 0 <= j < s.len() ==> s[j].0 != key,
        },
    decreases s.len(),
{
    if s.len() > 0 {
        let d = s.drop_last();
        lemma_last_index_bounds(d, key);
        assert forall|j: int| 0 <= j < d.len() implies d[j] == s[j] by {}
    }
}

/// Finds the last queued update of `key`.
fn find_last<T>(s: &Vec<((i64, i64), T)>, key: (i64, i64)) -> (r: Option<usize>)
    ensures
        match (r, last_index_of(s@, key)) {
            (Some(i), Some(j)) => i == j,
            (None, None) => true,
            _ => false,
        },
{
    let mut i: usize = s.len();
    assert(s@.take(s@.len() as int) =~= s@);
    while i > 0
        invariant
            i <= s@.len(),
            last_index_of(s@, key) == last_index_of(s@.take(i as int), key),
        decreases i,
    {
        assert(s@.take(i as int).drop_last() =~= s@.take(i as int - 1));
        let k = s[i - 1].0;
        if k.0 == key.0 && k.1 == key.1 {
            return Some(i - 1);
        }
        i = i - 1;
    }
    None
}

proof fn lemma_take_full<T>(s: Seq<T>)
    ensures
        s.take(s.len() as int) == s,
{
    assert(s.take(s.len() as int) =~= s);
}

/// Appends `more` to `base`, each update replacing the last queued update
/// of its key, as `coalesce_all` says; returns how many were replaced.
pub fn append_coalescing<T>(base: &mut Vec<((i64, i64), T)>, more: Vec<((i64, i64), T)>) -> (r: usize)
    ensures
        final(base)@ == coalesce_all(old(base)@, more@).0,
        r == coalesce_all(old(base)@, more@).1,
{
    let ghost b0 = base@;
    let ghost m0 = more@;
    proof {
        lemma_take_full(base@);
    }
    let n = more.len();
    let mut rest = more;
    let mut replaced: usize = 0;
    let mut i: usize = 0;
    while i < n
        invariant
            n == m0.len(),
            i <= m0.len(),
            rest@ == m0.skip(i as int),
            base@ == coalesce_all(b0, m0.take(i as int)).0,
            replaced == coalesce_all(b0, m0.take(i as int)).1,
            replaced <= i,
        decreases m0.len() - i,
    {
        assert(m0.take(i as int + 1).drop_last() =~= m0.take(i as int));
        let u = rest.remove(0);
        assert(u == m0[i as int]);
        assert(rest@ =~= m0.skip(i as int + 1));
        match find_last(base, u.0) {
            Some(j) => {
                proof {
                    lemma_last_index_bounds(base@, u.0);
                }
                base.set(j, u);
                replaced = replaced + 1;
            },
            None => {
                base.push(u);
            },
        }
        i = i + 1;
    }
    assert(m0.take(m0.len() as int) =~= m0);
    replaced
}

/// No key is queued twice.
pub open spec fn keys_unique<T>(s: Seq<((i64, i64), T)>) -> bool {
    forall|i: int, j: int| 0 <= i < j < s.len() ==> s[i].0 != s[j].0
}

/// Coalescing keeps one update per key: a batch whose keys are unique
/// stays so, every key of the new updates is queued, and it holds the
/// latest of them.
pub proof fn lemma_coalescing_keeps_latest_per_key<T>(base: Seq<((i64, i64), T)>, more: Seq<((i64, i64), T)>)
    requires
        keys_unique(base),
    ensures
        keys_unique(coalesce_all(base, more).0),
        forall|k: int| 0 <= k < more.len() ==> #[trigger] last_index_of(coalesce_all(base, more).0, more[k].0) is Some,
        more.len() > 0 ==> coalesce_all(base, more).0.contains(more.last()),
    decreases more.len(),
{
    if more.len() > 0 {
        let p = more.drop_last();
        lemma_coalescing_keeps_latest_per_key(base, p);
        let s = coalesce_all(base, p).0;
        let u = more.last();
        lemma_last_index_bounds(s, u.0);
        let s2 = coalesce_one(s, u);
        let iu: int = match last_index_of(s, u.0) {
            Some(i) => i,
            None => s.len() as int,
        };
        assert(0 <= iu < s2.len() && s2[iu] == u);
        assert(keys_unique(s2));
        lemma_last_index_bounds(s2, u.0);
        assert forall|k: int| 0 <= k < more.len() implies #[trigger] last_index_of(s2, more[k].0) is Some by {
            if k < p.len() {
                assert(more[k] == p[k]);
                let key = p[k].0;
                assert(last_index_of(s, key) is Some);
                lemma_last_index_bounds(s, key);
                lemma_last_index_bounds(s2, key);
                let i = last_index_of(s, key).unwrap();
                assert(0 <= i < s.len());
                assert(s2.len() >= s.len());
                assert(s2[i].0 == key);
            } else {
                assert(more[k] == u);
            }
        }
        assert(s2[iu] == more.last());
    }
}

/// Progress of a retention cleanup: batches run and rows deleted.
#[derive(Clone, Copy, Debug, PartialEq, Eq, Structural)]
pub struct CleanupProgress {
    pub batches: usize,
    pub deleted: i64,
}

/// After one more delete batch, which deleted `outcome` rows (`None` when
/// it failed): the progress, and whether another batch runs. Cleanup goes
/// on while a batch deletes a full `limit` of rows, for at most
/// `max_batches` batches, and stops at the first failure.
pub fn cleanup_after_batch(p: CleanupProgress, outcome: Option<i64>, limit: i64, max_batches: usize) -> (r: (CleanupProgress, bool))
    requires
        p.batches < usize::MAX,
        outcome matches Some(c) ==> i64::MIN <= p.deleted + c <= i64::MAX,
    ensures
        r.0.batches == p.batches + 1,
        r.0.deleted == match outcome { Some(c) => p.deleted + c, None => p.deleted as int },
        r.1 == match outcome { Some(c) => c >= limit && p.batches + 1 < max_batches, None => false },
{
    let batches = p.batches + 1;
    match outcome {
        Some(c) => {
            let deleted = p.deleted + c;
            (CleanupProgress { batches, deleted }, !(c < limit || batches >= max_batches))
        },
        None => (CleanupProgress { batches, deleted: p.deleted }, false),
    }
}

} // verus!
