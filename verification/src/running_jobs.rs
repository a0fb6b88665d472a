//! The in-flight runs of each job: the start timestamps of invocations
//! that have been dispatched and not yet reported back.

use vstd::prelude::*;
use crate::assoc::alist_map;
use crate::assoc::alist_unique;
use crate::assoc::lemma_alist_map_domain;
use crate::assoc::lemma_alist_map_index;
use crate::assoc::lemma_alist_map_push;
use crate::assoc::lemma_alist_map_update;
use crate::assoc::lemma_alist_unique_push;
use crate::config::JobDefinitionId;
use crate::next_run::ProvisionalJobRuns;

verus! {

/// The key-value reading of the entry list.
pub open spec fn kv_of_runs(s: Seq<(JobDefinitionId, Vec<u64>)>) -> Seq<(Seq<char>, Seq<u64>)> {
    s.map_values(|p: (JobDefinitionId, Vec<u64>)| (p.0@, p.1@))
}

/// The greatest element of a start-time list.
pub open spec fn seq_max_val(s: Seq<u64>) -> u64
    decreases s.len(),
{
    if s.len() == 0 {
        0
    } else {
        let rest = seq_max_val(s.drop_last());
        if s.last() > rest {
            s.last()
        } else {
            rest
        }
    }
}

/// The in-flight start timestamps per job.
pub struct RunningJobs {
    map: Vec<(JobDefinitionId, Vec<u64>)>,
}

impl View for RunningJobs {
    type V = Map<Seq<char>, Seq<u64>>;

    closed spec fn view(&self) -> Map<Seq<char>, Seq<u64>> {
        alist_map(kv_of_runs(self.map@))
    }
}

impl RunningJobs {
    pub closed spec fn kv(self) -> Seq<(Seq<char>, Seq<u64>)> {
        kv_of_runs(self.map@)
    }

    pub open spec fn wf(self) -> bool {
        alist_unique(self.kv())
    }

    /// A job is running while it has an in-flight start on record.
    pub open spec fn running_spec(self, id: Seq<char>) -> bool {
        self@.contains_key(id) && self@[id].len() > 0
    }

    pub fn new() -> (r: Self)
        ensures
            r.wf(),
            r@ == Map::<Seq<char>, Seq<u64>>::empty(),
    {
        let r = RunningJobs { map: Vec::new() };
        proof {
            assert(r.kv() =~= Seq::<(Seq<char>, Seq<u64>)>::empty());
        }
        r
    }

    /// Record one more in-flight start of a job.
    #[verifier::loop_isolation(false)]
    pub fn add(&mut self, id: JobDefinitionId, started: u64)
        requires
            old(self).wf(),
        ensures
            final(self).wf(),
            final(self)@ =~= old(self)@.insert(
                id@,
                (if old(self)@.contains_key(id@) {
                    old(self)@[id@]
                } else {
                    Seq::<u64>::empty()
                }).push(started),
            ),
            final(self).running_spec(id@),
    {
        let ghost kv0 = self.kv();
        let n = self.map.len();
        let mut i: usize = 0;
        while i < n
            invariant
                0 <= i <= n,
                n == self.map@.len(),
                self.kv() == kv0,
                alist_unique(kv0),
                forall|j: int| 0 <= j < i ==> (#[trigger] kv0[j]).0 != id@,
            decreases n - i,
        {
            if self.map[i].0 == id {
                proof {
                    lemma_alist_map_index(kv0, i as int);
                    lemma_alist_map_update(kv0, i as int, kv0[i as int].1.push(started));
                }
                self.map[i].1.push(started);
                proof {
                    assert(self.kv() =~= kv0.update(
                        i as int,
                        (kv0[i as int].0, kv0[i as int].1.push(started)),
                    ));
                    assert(alist_unique(self.kv())) by {
                        assert(forall|a: int|
                            0 <= a < self.kv().len() ==> (#[trigger] self.kv()[a]).0 == kv0[a].0);
                    }
                    lemma_alist_map_index(self.kv(), i as int);
                }
                return ;
            }
            i = i + 1;
        }
        let ghost idv = id@;
        proof {
            lemma_alist_map_domain(kv0, idv);
        }
        let mut starts: Vec<u64> = Vec::new();
        starts.push(started);
        proof {
            assert(starts@ =~= Seq::<u64>::empty().push(started));
            lemma_alist_map_push(kv0, idv, starts@);
            lemma_alist_unique_push(kv0, idv, starts@);
        }
        self.map.push((id, starts));
        proof {
            assert(self.kv() =~= kv0.push((idv, Seq::<u64>::empty().push(started))));
            lemma_alist_map_index(self.kv(), self.kv().len() - 1);
        }
    }

    /// Drop every in-flight start of a job equal to the given one. A
    /// job with no such start on record is left as it is (a completion
    /// for it is an anomaly, not a fault).
    #[verifier::loop_isolation(false)]
    pub fn mark_completed(&mut self, id: &JobDefinitionId, started: u64)
        requires
            old(self).wf(),
        ensures
            final(self).wf(),
            old(self)@.contains_key(id@) ==> final(self)@ =~= old(self)@.insert(
                id@,
                old(self)@[id@].filter(|x: u64| x != started),
            ),
            !old(self)@.contains_key(id@) ==> final(self)@ == old(self)@,
    {
        let ghost kv0 = self.kv();
        let n = self.map.len();
        let mut i: usize = 0;
        while i < n
            invariant
                0 <= i <= n,
                n == self.map@.len(),
                self.kv() == kv0,
                alist_unique(kv0),
                forall|j: int| 0 <= j < i ==> (#[trigger] kv0[j]).0 != id@,
            decreases n - i,
        {
            if self.map[i].0 == *id {
                let ghost inner0 = kv0[i as int].1;
                let m = self.map[i].1.len();
                let mut kept: Vec<u64> = Vec::new();
                let mut j: usize = 0;
                proof {
                    reveal(Seq::filter);
                    assert(inner0.take(0) =~= Seq::<u64>::empty());
                    assert(kept@ =~= inner0.take(0).filter(|x: u64| x != started));
                }
                while j < m
                    invariant
                        0 <= j <= m,
                        i < n == self.map@.len(),
                        self.kv() == kv0,
                        m == inner0.len(),
                        inner0 == kv0[i as int].1,
                        kept@ == inner0.take(j as int).filter(|x: u64| x != started),
                    decreases m - j,
                {
                    let v = self.map[i].1[j];
                    proof {
                        reveal(Seq::filter);
                        assert(inner0.take(j + 1).drop_last() =~= inner0.take(j as int));
                        assert(inner0.take(j + 1).last() == inner0[j as int]);
                    }
                    if v != started {
                        kept.push(v);
                    }
                    j = j + 1;
                }
                proof {
                    assert(inner0.take(m as int) =~= inner0);
                    lemma_alist_map_index(kv0, i as int);
                    lemma_alist_map_update(kv0, i as int, kept@);
                }
                self.map[i].1 = kept;
                proof {
                    assert(self.kv() =~= kv0.update(i as int, (kv0[i as int].0, kept@)));
                    assert(alist_unique(self.kv())) by {
                        assert(forall|a: int|
                            0 <= a < self.kv().len() ==> (#[trigger] self.kv()[a]).0 == kv0[a].0);
                    }
                }
                return ;
            }
            i = i + 1;
        }
        proof {
            lemma_alist_map_domain(kv0, id@);
        }
    }

    /// Whether any invocation of the job is in flight.
    #[verifier::loop_isolation(false)]
    pub fn any_running(&self, id: &JobDefinitionId) -> (r: bool)
        requires
            self.wf(),
        ensures
            r == self.running_spec(id@),
    {
        let n = self.map.len();
        let mut i: usize = 0;
        while i < n
            invariant
                0 <= i <= n,
                n == self.map@.len(),
                forall|j: int| 0 <= j < i ==> (#[trigger] self.kv()[j]).0 != id@,
            decreases n - i,
        {
            if self.map[i].0 == *id {
                proof {
                    lemma_alist_map_index(self.kv(), i as int);
                }
                return self.map[i].1.len() > 0;
            }
            i = i + 1;
        }
        proof {
            lemma_alist_map_domain(self.kv(), id@);
        }
        false
    }

    /// The entry list, for reporting.
    pub fn get_running(&self) -> (r: &Vec<(JobDefinitionId, Vec<u64>)>)
        ensures
            kv_of_runs(r@) == self.kv(),
    {
        &self.map
    }
}

/// Filtering out a value that every element equals leaves nothing.
proof fn lemma_filter_all_eq(s: Seq<u64>, t: u64)
    requires
        forall|i: int| 0 <= i < s.len() ==> s[i] == t,
    ensures
        s.filter(|x: u64| x != t).len() == 0,
    decreases s.len(),
{
    reveal(Seq::filter);
    if s.len() > 0 {
        assert(forall|i: int| 0 <= i < s.drop_last().len() ==> s.drop_last()[i] == t);
        lemma_filter_all_eq(s.drop_last(), t);
    }
}

/// One start makes its job running, and completing that start leaves
/// the job not running, whenever every in-flight start of the job is
/// that same start: `add(id, t)` yields a non-empty start record for
/// `id`, and `mark_completed(id, t)` then empties it.
pub proof fn lemma_start_then_complete(m: Map<Seq<char>, Seq<u64>>, id: Seq<char>, t: u64)
    requires
        m.contains_key(id) ==> forall|i: int| 0 <= i < m[id].len() ==> #[trigger] m[id][i] == t,
    ensures
        ({
            let after_add = m.insert(
                id,
                (if m.contains_key(id) {
                    m[id]
                } else {
                    Seq::<u64>::empty()
                }).push(t),
            );
            &&& after_add[id].len() > 0
            &&& after_add[id].filter(|x: u64| x != t).len() == 0
        }),
{
    let base = if m.contains_key(id) {
        m[id]
    } else {
        Seq::<u64>::empty()
    };
    let starts = base.push(t);
    assert(forall|i: int| 0 <= i < starts.len() ==> starts[i] == t);
    lemma_filter_all_eq(starts, t);
}

impl ProvisionalJobRuns for RunningJobs {
    open spec fn provisional_wf(&self) -> bool {
        self.wf()
    }

    open spec fn provisional_latest(&self, id: Seq<char>) -> Option<u64> {
        if self@.contains_key(id) && self@[id].len() > 0 {
            Some(seq_max_val(self@[id]))
        } else {
            None
        }
    }

    /// The latest in-flight start of the job.
    #[verifier::loop_isolation(false)]
    fn get_latest(&self, id: &JobDefinitionId) -> (r: Option<u64>) {
        let n = self.map.len();
        let mut i: usize = 0;
        while i < n
            invariant
                0 <= i <= n,
                n == self.map@.len(),
                forall|j: int| 0 <= j < i ==> (#[trigger] self.kv()[j]).0 != id@,
            decreases n - i,
        {
            if self.map[i].0 == *id {
                proof {
                    lemma_alist_map_index(self.kv(), i as int);
                }
                let m = self.map[i].1.len();
                if m == 0 {
                    return None;
                }
                let ghost inner = self.kv()[i as int].1;
                let mut best: u64 = self.map[i].1[0];
                let mut j: usize = 1;
                proof {
                    assert(inner.take(1).drop_last() =~= Seq::<u64>::empty());
                    assert(inner.take(1).last() == inner[0]);
                    assert(seq_max_val(Seq::<u64>::empty()) == 0);
                }
                while j < m
                    invariant
                        1 <= j <= m,
                        i < n == self.map@.len(),
                        m == inner.len(),
                        inner == self.kv()[i as int].1,
                        best == seq_max_val(inner.take(j as int)),
                    decreases m - j,
                {
                    let v = self.map[i].1[j];
                    proof {
                        assert(inner.take(j + 1).drop_last() =~= inner.take(j as int));
                        assert(inner.take(j + 1).last() == inner[j as int]);
                    }
                    if v > best {
                        best = v;
                    }
                    j = j + 1;
                }
                proof {
                    assert(inner.take(m as int) =~= inner);
                }
                return Some(best);
            }
            i = i + 1;
        }
        proof {
            lemma_alist_map_domain(self.kv(), id@);
        }
        None
    }
}

} // verus!
