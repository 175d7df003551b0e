//! The scheduler's job queue: jobs kept in the order they were queued,
//! each under a sequence number, where a job is handed out only while no
//! job of the same КПЗ is running.

use vstd::prelude::*;
use std::collections::HashSet;

verus! {

/// Which mode a job runs: the archive (A) mode or the script mode.
#[derive(Clone, Copy, Debug, PartialEq, Eq)]
pub enum JobKind {
    A,
    S,
}

/// One unit of work for a КПЗ.
#[derive(Clone, Copy, Debug, PartialEq, Eq)]
pub struct Job {
    pub kpz_id: i32,
    pub kind: JobKind,
}

/// Jobs by sequence number, ascending; the next sequence number to give out.
pub struct JobQueue {
    next_seq: u64,
    entries: Vec<(u64, Job)>,
}

/// A job may start while no job of its КПЗ is running.
pub open spec fn spawnable(job: Job, running: Set<i32>) -> bool {
    !running.contains(job.kpz_id)
}

/// The jobs at the positions where `mask` is true, in order.
pub open spec fn select(jobs: Seq<Job>, mask: Seq<bool>) -> Seq<Job>
    recommends
        jobs.len() == mask.len(),
    decreases jobs.len(),
{
    if jobs.len() == 0 {
        Seq::empty()
    } else {
        let prev = select(jobs.drop_last(), mask.drop_last());
        if mask.last() {
            prev.push(jobs.last())
        } else {
            prev
        }
    }
}

/// Number of entries whose sequence number is below `seq`.
pub open spec fn count_below(entries: Seq<(u64, Job)>, seq: u64) -> int
    decreases entries.len(),
{
    if entries.len() == 0 {
        0
    } else {
        count_below(entries.drop_last(), seq) + if entries.last().0 < seq { 1int } else { 0int }
    }
}

impl JobQueue {
    /// The queued jobs in sequence order.
    pub closed spec fn view(&self) -> Seq<Job> {
        self.entries@.map_values(|e: (u64, Job)| e.1)
    }

    /// The sequence numbers in queue order.
    pub closed spec fn seqs(&self) -> Seq<u64> {
        self.entries@.map_values(|e: (u64, Job)| e.0)
    }

    /// The next sequence number that `push_back` gives out.
    pub closed spec fn next_seq_spec(&self) -> u64 {
        self.next_seq
    }

    /// Sequence numbers strictly ascend and are all below the next one.
    pub closed spec fn wf(&self) -> bool {
        &&& forall|i: int, j: int| 0 <= i < j < self.entries@.len() ==> self.entries@[i].0 < self.entries@[j].0
        &&& forall|i: int| 0 <= i < self.entries@.len() ==> self.entries@[i].0 < self.next_seq
    }

    /// An empty queue whose sequence numbers start at zero.
    pub fn new() -> (q: Self)
        ensures
            q.wf(),
            q@ == Seq::<Job>::empty(),
            q.next_seq_spec() == 0,
    {
        let q = JobQueue { next_seq: 0, entries: Vec::new() };
        assert(q@ =~= Seq::<Job>::empty());
        q
    }

    /// Whether no job is queued.
    pub fn is_empty(&self) -> (r: bool)
        ensures
            r == (self@.len() == 0),
    {
        self.entries.len() == 0
    }

    /// Number of queued jobs.
    pub fn len(&self) -> (r: usize)
        ensures
            r == self@.len(),
    {
        self.entries.len()
    }

    /// The job at `index` in queue order.
    pub fn get(&self, index: usize) -> (r: Job)
        requires
            index < self@.len(),
        ensures
            r == self@[index as int],
    {
        self.entries[index].1
    }

    /// Queues `job` under sequence number `seq`, before every job with a
    /// larger number.
    fn push_with_seq(&mut self, seq: u64, job: Job)
        requires
            old(self).wf(),
            seq < old(self).next_seq_spec(),
            forall|i: int| 0 <= i < old(self).seqs().len() ==> old(self).seqs()[i] != seq,
        ensures
            final(self).wf(),
            final(self).next_seq_spec() == old(self).next_seq_spec(),
            final(self)@ == old(self)@.insert(count_below(old(self).entries@, seq), job),
            final(self).seqs() == old(self).seqs().insert(count_below(old(self).entries@, seq), seq),
    {
        let ghost old_entries = self.entries@;
        let n = self.entries.len();
        let mut k: usize = n;
        while k > 0 && self.entries[k - 1].0 > seq
            invariant
                self.entries@ == old_entries,
                n == old_entries.len(),
                k <= n,
                forall|i: int, j: int| 0 <= i < j < old_entries.len() ==> old_entries[i].0 < old_entries[j].0,
                forall|i: int| k <= i < n ==> old_entries[i].0 > seq,
            decreases k,
        {
            k = k - 1;
        }
        proof {
            assert forall|i: int| 0 <= i < k implies old_entries[i].0 < seq by {
                if k > 0 {
                    assert(old_entries[k - 1].0 <= seq);
                    assert(old_entries[k - 1].0 != seq) by {
                        assert(self.seqs()[k - 1] == old_entries[k - 1].0);
                    }
                    if i < k - 1 {
                        assert(old_entries[i].0 < old_entries[k - 1].0);
                    }
                }
            }
            self.lemma_count_below_split(seq, k as int);
        }
        self.entries.insert(k, (seq, job));
        proof {
            assert(self.entries@ == old_entries.insert(k as int, (seq, job)));
            assert(self@ =~= old_entries.map_values(|e: (u64, Job)| e.1).insert(k as int, job));
            assert(self.seqs() =~= old_entries.map_values(|e: (u64, Job)| e.0).insert(k as int, seq));
            assert forall|i: int, j: int| 0 <= i < j < self.entries@.len() implies self.entries@[i].0 < self.entries@[j].0 by {
                if j < k {
                } else if j == k {
                } else if i < k {
                    assert(self.entries@[j] == old_entries[j - 1]);
                } else if i == k {
                    assert(self.entries@[j] == old_entries[j - 1]);
                } else {
                    assert(self.entries@[i] == old_entries[i - 1]);
                    assert(self.entries@[j] == old_entries[j - 1]);
                }
            }
            assert forall|i: int| 0 <= i < self.entries@.len() implies self.entries@[i].0 < self.next_seq by {
                if i < k {
                } else if i > k {
                    assert(self.entries@[i] == old_entries[i - 1]);
                }
            }
        }
    }

    /// With ascending sequence numbers all below `seq` up to `k` and all above
    /// it from `k` on, `count_below` is `k`.
    proof fn lemma_count_below_split(&self, seq: u64, k: int)
        requires
            0 <= k <= self.entries@.len(),
            forall|i: int| 0 <= i < k ==> self.entries@[i].0 < seq,
            forall|i: int| k <= i < self.entries@.len() ==> self.entries@[i].0 > seq,
        ensures
            count_below(self.entries@, seq) == k,
    {
        lemma_count_below_prefix(self.entries@, seq, k);
    }

    /// Queues `job` after every queued job.
    pub fn push_back(&mut self, job: Job)
        requires
            old(self).wf(),
            old(self).next_seq_spec() < u64::MAX,
        ensures
            final(self).wf(),
            final(self)@ == old(self)@.push(job),
            final(self).next_seq_spec() == old(self).next_seq_spec() + 1,
    {
        let seq = self.next_seq;
        self.next_seq = self.next_seq + 1;
        proof {
            assert forall|i: int| 0 <= i < self.seqs().len() implies self.seqs()[i] != seq by {
                assert(self.seqs()[i] == self.entries@[i].0);
            }
            self.lemma_count_below_split(seq, self.entries@.len() as int);
        }
        self.push_with_seq(seq, job);
        assert(old(self)@.insert(old(self)@.len() as int, job) =~= old(self)@.push(job));
    }

    /// Takes out the first job, in queue order, of a КПЗ that is not
    /// running; `None`, with the queue unchanged, when every queued job
    /// belongs to a running КПЗ.
    pub fn pop_next_spawnable(&mut self, running_kpz: &HashSet<i32>) -> (r: Option<Job>)
        requires
            old(self).wf(),
        ensures
            final(self).wf(),
            final(self).next_seq_spec() == old(self).next_seq_spec(),
            match r {
                Some(job) => exists|i: int|
                    #![trigger old(self)@[i]]
                    0 <= i < old(self)@.len()
                    && old(self)@[i] == job
                    && spawnable(job, running_kpz@)
                    && (forall|k: int| 0 <= k < i ==> !spawnable(#[trigger] old(self)@[k], running_kpz@))
                    && final(self)@ == old(self)@.remove(i),
                None => final(self)@ == old(self)@
                    && forall|k: int| 0 <= k < old(self)@.len() ==> !spawnable(#[trigger] old(self)@[k], running_kpz@),
            },
    {
        broadcast use vstd::std_specs::hash::group_hash_axioms;
        let n = self.entries.len();
        let mut i: usize = 0;
        while i < n
            invariant
                n == self@.len(),
                self@ == old(self)@,
                self.entries@ == old(self).entries@,
                self.next_seq == old(self).next_seq,
                old(self).wf(),
                i <= n,
                forall|k: int| 0 <= k < i ==> !spawnable(#[trigger] self@[k], running_kpz@),
            decreases n - i,
        {
            let job = self.entries[i].1;
            assert(self@[i as int] == job);
            if !running_kpz.contains(&job.kpz_id) {
                let ghost before = self.entries@;
                self.entries.remove(i);
                proof {
                    assert(self.entries@ == before.remove(i as int));
                    assert(self@ =~= old(self)@.remove(i as int));
                    assert forall|a: int, b: int| 0 <= a < b < self.entries@.len() implies self.entries@[a].0 < self.entries@[b].0 by {
                        if a >= i {
                            assert(self.entries@[a] == before[a + 1]);
                        }
                        if b >= i {
                            assert(self.entries@[b] == before[b + 1]);
                        }
                    }
                    assert forall|a: int| 0 <= a < self.entries@.len() implies self.entries@[a].0 < self.next_seq by {
                        if a >= i {
                            assert(self.entries@[a] == before[a + 1]);
                        }
                    }
                }
                return Some(job);
            }
            i = i + 1;
        }
        None
    }

    /// Keeps the jobs for which `keep` holds, in their order and under their
    /// sequence numbers.
    pub fn retain<F: Fn(&Job) -> bool>(&mut self, keep: F)
        requires
            old(self).wf(),
            forall|j: Job| call_requires(keep, (&j,)),
        ensures
            final(self).wf(),
            final(self).next_seq_spec() == old(self).next_seq_spec(),
            exists|mask: Seq<bool>|
                mask.len() == old(self)@.len()
                && (forall|i: int| 0 <= i < mask.len() ==> call_ensures(keep, (&old(self)@[i],), #[trigger] mask[i]))
                && final(self)@ == select(old(self)@, mask),
    {
        let ghost old_entries = self.entries@;
        let ghost old_view = self@;
        let mut retained: Vec<(u64, Job)> = Vec::with_capacity(self.entries.len());
        let ghost mut mask: Seq<bool> = Seq::empty();
        let n = self.entries.len();
        let mut i: usize = 0;
        while i < n
            invariant
                n == old_entries.len(),
                self.entries@ == old_entries,
                old_view == old_entries.map_values(|e: (u64, Job)| e.1),
                i <= n,
                forall|j: Job| call_requires(keep, (&j,)),
                mask.len() == i,
                forall|k: int| 0 <= k < i ==> call_ensures(keep, (&old_view[k],), #[trigger] mask[k]),
                retained@.map_values(|e: (u64, Job)| e.1) == select(old_view.subrange(0, i as int), mask),
                forall|a: int| 0 <= a < retained@.len() ==> exists|k: int| 0 <= k < i && #[trigger] retained@[a] == old_entries[k],
                forall|a: int, b: int| 0 <= a < b < retained@.len() ==> retained@[a].0 < retained@[b].0,
                forall|a: int| 0 <= a < retained@.len() ==> retained@[a].0 < old_entries[i - 1].0 + 1 || i == 0,
                forall|x: int, y: int| 0 <= x < y < old_entries.len() ==> old_entries[x].0 < old_entries[y].0,
                forall|x: int| 0 <= x < old_entries.len() ==> old_entries[x].0 < self.next_seq,
            decreases n - i,
        {
            let e = self.entries[i];
            let b = keep(&e.1);
            proof {
                assert(old_view[i as int] == e.1);
                let s1 = old_view.subrange(0, i + 1);
                assert(s1.drop_last() =~= old_view.subrange(0, i as int));
                assert(s1.last() == e.1);
                let pm = mask;
                mask = mask.push(b);
                assert(mask.drop_last() =~= pm);
                assert(mask.last() == b);
            }
            if b {
                let ghost before = retained@;
                retained.push(e);
                proof {
                    assert(retained@.map_values(|e: (u64, Job)| e.1) =~= before.map_values(|e: (u64, Job)| e.1).push(e.1));
                    assert forall|a: int| 0 <= a < retained@.len() implies exists|k: int| 0 <= k < i + 1 && #[trigger] retained@[a] == old_entries[k] by {
                        if a < before.len() {
                            assert(retained@[a] == before[a]);
                            let k = choose|k: int| 0 <= k < i && #[trigger] before[a] == old_entries[k];
                            assert(retained@[a] == old_entries[k]);
                        } else {
                            assert(retained@[a] == old_entries[i as int]);
                        }
                    }
                    assert forall|a: int, c: int| 0 <= a < c < retained@.len() implies retained@[a].0 < retained@[c].0 by {
                        if c == before.len() {
                            assert(retained@[a] == before[a]);
                            if i > 0 {
                                assert(old_entries[i - 1].0 < old_entries[i as int].0);
                            } else {
                                assert(before.len() == 0);
                            }
                        } else {
                            assert(retained@[a] == before[a]);
                            assert(retained@[c] == before[c]);
                        }
                    }
                    assert forall|a: int| 0 <= a < retained@.len() implies retained@[a].0 < old_entries[i as int].0 + 1 by {
                        if a < before.len() {
                            assert(retained@[a] == before[a]);
                            if i > 0 {
                                assert(old_entries[i - 1].0 < old_entries[i as int].0);
                            }
                        }
                    }
                }
            } else {
                proof {
                    assert forall|a: int| 0 <= a < retained@.len() implies exists|k: int| 0 <= k < i + 1 && #[trigger] retained@[a] == old_entries[k] by {
                        let k = choose|k: int| 0 <= k < i && #[trigger] retained@[a] == old_entries[k];
                    }
                    assert forall|a: int| 0 <= a < retained@.len() implies retained@[a].0 < old_entries[i as int].0 + 1 by {
                        if i > 0 {
                            assert(old_entries[i - 1].0 < old_entries[i as int].0);
                        }
                    }
                }
            }
            i = i + 1;
        }
        proof {
            assert(old_view.subrange(0, n as int) =~= old_view);
            assert forall|a: int| 0 <= a < retained@.len() implies retained@[a].0 < self.next_seq by {
                let k = choose|k: int| 0 <= k < n && #[trigger] retained@[a] == old_entries[k];
            }
        }
        self.entries = retained;
    }
}

/// When the first `k` entries lie below `seq` and the rest above it,
/// `count_below` is `k`.
proof fn lemma_count_below_prefix(entries: Seq<(u64, Job)>, seq: u64, k: int)
    requires
        0 <= k <= entries.len(),
        forall|i: int| 0 <= i < k ==> entries[i].0 < seq,
        forall|i: int| k <= i < entries.len() ==> entries[i].0 > seq,
    ensures
        count_below(entries, seq) == k,
    decreases entries.len(),
{
    if entries.len() > 0 {
        let d = entries.drop_last();
        if k == entries.len() {
            lemma_count_below_prefix(d, seq, k - 1);
        } else {
            lemma_count_below_prefix(d, seq, k);
        }
    }
}

impl Default for JobQueue {
    fn default() -> (q: Self)
        ensures
            q.wf(),
            q@ == Seq::<Job>::empty(),
            q.next_seq_spec() == 0,
    {
        JobQueue::new()
    }
}

/// Jobs of one КПЗ leave in the order they came: the job that
/// `pop_next_spawnable` takes out (the first job of a КПЗ that is not
/// running) has no earlier job of the same КПЗ before it.
pub proof fn lemma_pop_takes_oldest_of_its_kpz(jobs: Seq<Job>, running: Set<i32>, i: int)
    requires
        0 <= i < jobs.len(),
        spawnable(jobs[i], running),
        forall|k: int| 0 <= k < i ==> !spawnable(#[trigger] jobs[k], running),
    ensures
        forall|k: int| 0 <= k < i ==> (#[trigger] jobs[k]).kpz_id != jobs[i].kpz_id,
{
}

/// With nothing running, `pop_next_spawnable` takes the job at the head of
/// the queue.
pub proof fn lemma_pop_with_nothing_running_is_fifo(jobs: Seq<Job>, i: int)
    requires
        0 <= i < jobs.len(),
        spawnable(jobs[i], Set::empty()),
        forall|k: int| 0 <= k < i ==> !spawnable(#[trigger] jobs[k], Set::empty()),
    ensures
        i == 0,
{
    if i > 0 {
        assert(!spawnable(jobs[0], Set::empty()));
    }
}

} // verus!
