//! The next-due cache: one computed next-run timestamp per job,
//! authoritative until invalidated, and the wait the scheduler derives
//! from it.

use vstd::prelude::*;
use crate::assoc::alist_map;
use crate::assoc::alist_unique;
use crate::assoc::lemma_alist_map_domain;
use crate::assoc::lemma_alist_map_index;
use crate::assoc::lemma_alist_map_push;
use crate::assoc::lemma_alist_map_remove;
use crate::assoc::lemma_alist_unique_push;
use crate::config::JobDefinitionId;
use crate::frequency::Frequency;
use crate::frequency::next_result_ok;
use crate::local_time::LocalDateTime;
use crate::run_log::RunLog;

verus! {

/// A read-only view of the jobs currently in flight: the start time of
/// the latest provisional run of a job, if one is running. The next-due
/// cache anchors a job's next run on this when present, assuming the
/// in-flight run will succeed.
pub trait ProvisionalJobRuns {
    /// The implementor's own well-formedness.
    spec fn provisional_wf(&self) -> bool;

    /// The latest provisional start of the job, if any.
    spec fn provisional_latest(&self, id: Seq<char>) -> Option<u64>;

    fn get_latest(&self, id: &JobDefinitionId) -> (r: Option<u64>)
        requires
            self.provisional_wf(),
        ensures
            r == self.provisional_latest(id@),
    ;
}

/// The key-value reading of the cache's entry list.
pub open spec fn kv_of_next(s: Seq<(JobDefinitionId, u64)>) -> Seq<(Seq<char>, u64)> {
    s.map_values(|p: (JobDefinitionId, u64)| (p.0@, p.1))
}

/// Least value among the cached timestamps.
pub open spec fn seq_min_val(kv: Seq<(Seq<char>, u64)>) -> u64
    decreases kv.len(),
{
    if kv.len() == 0 {
        u64::MAX
    } else {
        let rest = seq_min_val(kv.drop_last());
        if kv.last().1 < rest {
            kv.last().1
        } else {
            rest
        }
    }
}

/// Cache of the next due time per job.
pub struct NextRun {
    map: Vec<(JobDefinitionId, u64)>,
}

impl View for NextRun {
    type V = Map<Seq<char>, u64>;

    closed spec fn view(&self) -> Map<Seq<char>, u64> {
        alist_map(kv_of_next(self.map@))
    }
}

impl NextRun {
    pub closed spec fn kv(self) -> Seq<(Seq<char>, u64)> {
        kv_of_next(self.map@)
    }

    pub open spec fn wf(self) -> bool {
        alist_unique(self.kv())
    }

    pub fn new() -> (r: Self)
        ensures
            r.wf(),
            r@ == Map::<Seq<char>, u64>::empty(),
            r.kv().len() == 0,
    {
        let r = NextRun { map: Vec::new() };
        proof {
            assert(r.kv() =~= Seq::<(Seq<char>, u64)>::empty());
        }
        r
    }

    /// The cached next due time of a job; computed, cached and
    /// returned when absent. The computation anchors on the latest
    /// provisional (in-flight) start when there is one, else on the
    /// last recorded successful run.
    #[verifier::loop_isolation(false)]
    pub fn update_and_get<P: ProvisionalJobRuns>(
        &mut self,
        id: &JobDefinitionId,
        frequency: &Frequency,
        now: &LocalDateTime,
        run_log: &RunLog,
        provisional_runs: &P,
    ) -> (r: u64)
        requires
            old(self).wf(),
            frequency.wf(),
            now.wf(),
            run_log.wf(),
            provisional_runs.provisional_wf(),
        ensures
            final(self).wf(),
            final(self)@.contains_key(id@),
            r == final(self)@[id@],
            old(self)@.contains_key(id@) ==> *final(self) == *old(self) && r == old(self)@[id@],
            !old(self)@.contains_key(id@) ==> {
                let last = (match provisional_runs.provisional_latest(id@) {
                    Some(t) => Some(t),
                    None => if run_log@.contains_key(id@) {
                        Some(run_log@[id@])
                    } else {
                        None
                    },
                });
                &&& final(self)@ =~= old(self)@.insert(id@, r)
                &&& next_result_ok(*frequency, *now, last, r)
            },
    {
        let ghost kv0 = self.kv();
        let n = self.map.len();
        let mut i: usize = 0;
        while i < n
            invariant
                0 <= i <= n,
                n == self.map@.len(),
                self.kv() == kv0,
                alist_unique(kv0),
                forall|j: int| 0 <= j < i ==> (#[trigger] kv0[j]).0 != id@,
            decreases n - i,
        {
            if self.map[i].0 == *id {
                proof {
                    lemma_alist_map_index(kv0, i as int);
                }
                return self.map[i].1;
            }
            i = i + 1;
        }
        proof {
            lemma_alist_map_domain(kv0, id@);
        }
        let last_run = match provisional_runs.get_latest(id) {
            Some(t) => Some(t),
            None => run_log.get_last_successful_run_time(id),
        };
        let next = frequency.next(now, last_run);
        proof {
            lemma_alist_map_push(kv0, id@, next);
            lemma_alist_unique_push(kv0, id@, next);
        }
        self.map.push((id.clone(), next));
        proof {
            assert(self.kv() =~= kv0.push((id@, next)));
            lemma_alist_map_index(self.kv(), self.kv().len() - 1);
        }
        next
    }

    /// Drop the cached entry of a job, if any: its inputs are no
    /// longer current.
    #[verifier::loop_isolation(false)]
    pub fn invalidate(&mut self, id: &JobDefinitionId)
        requires
            old(self).wf(),
        ensures
            final(self).wf(),
            final(self)@ =~= old(self)@.remove(id@),
    {
        let ghost kv0 = self.kv();
        let n = self.map.len();
        let mut i: usize = 0;
        while i < n
            invariant
                0 <= i <= n,
                n == self.map@.len(),
                self.kv() == kv0,
                alist_unique(kv0),
                forall|j: int| 0 <= j < i ==> (#[trigger] kv0[j]).0 != id@,
            decreases n - i,
        {
            if self.map[i].0 == *id {
                proof {
                    lemma_alist_map_remove(kv0, i as int);
                }
                self.map.remove(i);
                proof {
                    assert(self.kv() =~= kv0.remove(i as int));
                    assert forall|a: int, b: int|
                        0 <= a < b < self.kv().len() implies (#[trigger] self.kv()[a]).0 != (
                    #[trigger] self.kv()[b]).0 by {
                        assert(self.kv()[a] == if a < i { kv0[a] } else { kv0[a + 1] });
                        assert(self.kv()[b] == if b < i { kv0[b] } else { kv0[b + 1] });
                    }
                }
                return ;
            }
            i = i + 1;
        }
        proof {
            lemma_alist_map_domain(kv0, id@);
            assert(!old(self)@.contains_key(id@));
            assert(final(self)@ =~= old(self)@.remove(id@));
        }
    }

    /// Seconds from `now` until the earliest cached due time: the
    /// "never" sentinel when nothing is cached, zero when the earliest
    /// entry is already due.
    #[verifier::loop_isolation(false)]
    pub fn get_wait(&self, now: u64) -> (r: u64)
        requires
            self.wf(),
        ensures
            self.kv().len() == 0 ==> r == u64::MAX,
            self.kv().len() > 0 ==> r == (if seq_min_val(self.kv()) >= now {
                seq_min_val(self.kv()) - now
            } else {
                0
            }),
    {
        let n = self.map.len();
        if n == 0 {
            proof {
                assert(self.kv().len() == 0);
            }
            return u64::MAX;
        }
        let mut best: u64 = self.map[0].1;
        let mut i: usize = 1;
        proof {
            assert(self.kv().take(1).drop_last() =~= Seq::<(Seq<char>, u64)>::empty());
            assert(self.kv().take(1).last() == self.kv()[0]);
            assert(seq_min_val(Seq::<(Seq<char>, u64)>::empty()) == u64::MAX);
            assert(seq_min_val(self.kv().take(1)) == self.kv()[0].1);
        }
        while i < n
            invariant
                1 <= i <= n,
                n == self.map@.len(),
                best == seq_min_val(self.kv().take(i as int)),
            decreases n - i,
        {
            let v = self.map[i].1;
            proof {
                assert(self.kv().take(i + 1).drop_last() =~= self.kv().take(i as int));
                assert(self.kv().take(i + 1).last() == self.kv()[i as int]);
            }
            if v < best {
                best = v;
            }
            i = i + 1;
        }
        proof {
            assert(self.kv().take(n as int) =~= self.kv());
        }
        if best >= now {
            best - now
        } else {
            0
        }
    }
}

} // verus!
