//! The scheduler's decision core: one tick decides which jobs to
//! dispatch, a completion event updates the in-flight record and the
//! run log, and the wait until the next tick is derived from the
//! next-due cache.
//!
//! The surrounding program owns the event loop: it reads the clock,
//! performs the dispatches this module hands out, sleeps for the wait
//! it computes, and feeds completion events back in.

use vstd::prelude::*;
use vstd::string::StringExecFns;
use crate::config::Config;
use crate::config::JobDefinitionId;
use crate::frequency::next_result_ok;
use crate::local_time::LocalDateTime;
use crate::next_run::NextRun;
use crate::next_run::ProvisionalJobRuns;
use crate::notify_definition::NotifyDefinition;
use crate::run_log::RunLog;
use crate::running_jobs::RunningJobs;
use crate::text::dec_rep;
use crate::text::u64_to_string;

verus! {

/// Ceiling on the scheduler's sleep between ticks, in seconds.
pub const CHECK_INTERVAL_SECS: u64 = 60;

/// A worker's report: which job, when it started, and whether it
/// exited cleanly.
#[derive(Debug)]
pub struct JobFinish {
    pub id: JobDefinitionId,
    pub started: u64,
    pub success: bool,
}

impl JobFinish {
    pub fn new(id: JobDefinitionId, started: u64, success: bool) -> (r: Self)
        ensures
            r == (JobFinish { id, started, success }),
    {
        JobFinish { id, started, success }
    }
}

/// A worker to launch: the job, what to run, how to notify, and the
/// dispatch timestamp.
#[derive(Debug)]
pub struct Dispatch {
    pub id: JobDefinitionId,
    pub cmd: String,
    pub notify_definition: NotifyDefinition,
    pub started: u64,
}

/// `d` carries entry `j` of the configuration.
pub open spec fn dispatch_from(cfg: Config, d: Dispatch, j: int) -> bool {
    &&& 0 <= j < cfg.entries_spec().len()
    &&& cfg.entries_spec()[j].0@ == d.id@
    &&& cfg.entries_spec()[j].1.cmd == d.cmd
    &&& cfg.entries_spec()[j].1.notify_definition == d.notify_definition
}

/// `d` carries some configuration entry that was admissible when the
/// tick began: either the job may run in parallel, or it was not
/// running.
pub open spec fn dispatch_admissible(cfg: Config, running0: RunningJobs, d: Dispatch) -> bool {
    exists|j: int|
        #[trigger] dispatch_from(cfg, d, j) && (cfg.entries_spec()[j].1.allow_parallel
            || !running0.running_spec(d.id@))
}

/// Some dispatch in the list is for the job.
pub open spec fn was_dispatched(r: Seq<Dispatch>, id: Seq<char>) -> bool {
    exists|k: int| 0 <= k < r.len() && (#[trigger] r[k]).id@ == id
}

/// The scheduler's state between ticks.
pub struct Scheduler {
    config: Config,
    run_log: RunLog,
    running: RunningJobs,
    next_run: NextRun,
}

impl Scheduler {
    pub closed spec fn cfg_spec(self) -> Config {
        self.config
    }

    pub closed spec fn log_spec(self) -> RunLog {
        self.run_log
    }

    pub closed spec fn runs_spec(self) -> RunningJobs {
        self.running
    }

    pub closed spec fn cache_spec(self) -> NextRun {
        self.next_run
    }

    pub open spec fn wf(self) -> bool {
        &&& self.cfg_spec().wf()
        &&& self.log_spec().wf()
        &&& self.runs_spec().wf()
        &&& self.cache_spec().wf()
    }

    /// The anchor a fresh next-due computation uses for a job: its
    /// latest in-flight start, else its last recorded success.
    pub open spec fn anchor_of(self, id: Seq<char>) -> Option<u64> {
        match self.runs_spec().provisional_latest(id) {
            Some(t) => Some(t),
            None => if self.log_spec()@.contains_key(id) {
                Some(self.log_spec()@[id])
            } else {
                None
            },
        }
    }

    /// Entry `j` of the configuration rightly produced no dispatch
    /// this tick, judged against the starting state and the final
    /// cache: its job is still running and runs alone, or its next due
    /// time is on record and still ahead.
    pub open spec fn tick_excused(self, after: Scheduler, now: LocalDateTime, j: int) -> bool {
        let id = self.cfg_spec().entries_spec()[j].0@;
        let def = self.cfg_spec().entries_spec()[j].1;
        ||| (!def.allow_parallel && self.runs_spec().running_spec(id))
        ||| (after.cache_spec()@.contains_key(id) && after.cache_spec()@[id] > now.unix as u64)
    }

    /// Start from a loaded configuration and run log, with nothing in
    /// flight and nothing cached.
    pub fn new(config: Config, run_log: RunLog) -> (r: Self)
        requires
            config.wf(),
            run_log.wf(),
        ensures
            r.wf(),
            r.cfg_spec() == config,
            r.log_spec() == run_log,
            r.runs_spec()@ == Map::<Seq<char>, Seq<u64>>::empty(),
            r.cache_spec()@ == Map::<Seq<char>, u64>::empty(),
    {
        Scheduler { config, run_log, running: RunningJobs::new(), next_run: NextRun::new() }
    }

    pub fn config(&self) -> (r: &Config)
        ensures
            *r == self.cfg_spec(),
    {
        &self.config
    }

    pub fn run_log(&self) -> (r: &RunLog)
        ensures
            *r == self.log_spec(),
    {
        &self.run_log
    }

    pub fn running(&self) -> (r: &RunningJobs)
        ensures
            *r == self.runs_spec(),
    {
        &self.running
    }

    /// One tick: walk the configured jobs, dispatch each job that is
    /// due and admissible, record its provisional start and re-seed its
    /// next due time from one second past `now`. Per tick a job is
    /// dispatched at most once, and a job that runs alone is never
    /// dispatched while an earlier run is still in flight.
    #[verifier::loop_isolation(false)]
    #[verifier::rlimit(100)]
    #[verifier::spinoff_prover]
    pub fn tick(&mut self, now: &LocalDateTime) -> (r: Vec<Dispatch>)
        requires
            old(self).wf(),
            now.wf(),
        ensures
            final(self).wf(),
            final(self).cfg_spec() == old(self).cfg_spec(),
            final(self).log_spec() == old(self).log_spec(),
            forall|k: int|
                0 <= k < r@.len() ==> (#[trigger] r@[k]).started == now.unix && r@[k].id.wf(),
            forall|k: int|
                0 <= k < r@.len() ==> dispatch_admissible(
                    old(self).cfg_spec(),
                    old(self).runs_spec(),
                    #[trigger] r@[k],
                ),
            forall|k1: int, k2: int|
                0 <= k1 < k2 < r@.len() ==> (#[trigger] r@[k1]).id@ != (#[trigger] r@[k2]).id@,
            forall|k: int|
                0 <= k < r@.len() ==> final(self).runs_spec().running_spec(
                    (#[trigger] r@[k]).id@,
                ),
            forall|key: Seq<char>|
                #![trigger final(self).runs_spec()@.contains_key(key)]
                #![trigger old(self).runs_spec()@.contains_key(key)]
                !was_dispatched(r@, key) ==> (final(self).runs_spec()@.contains_key(key) == old(
                    self,
                ).runs_spec()@.contains_key(key) && (old(self).runs_spec()@.contains_key(key)
                    ==> final(self).runs_spec()@[key] == old(self).runs_spec()@[key])),
            forall|j: int|
                0 <= j < old(self).cfg_spec().entries_spec().len() ==> was_dispatched(
                    r@,
                    (#[trigger] old(self).cfg_spec().entries_spec()[j]).0@,
                ) || old(self).tick_excused(*final(self), *now, j),
            forall|j: int|
                #![trigger old(self).cfg_spec().entries_spec()[j]]
                0 <= j < old(self).cfg_spec().entries_spec().len() && !was_dispatched(
                    r@,
                    old(self).cfg_spec().entries_spec()[j].0@,
                ) ==> {
                    let id = old(self).cfg_spec().entries_spec()[j].0@;
                    if old(self).cache_spec()@.contains_key(id) {
                        final(self).cache_spec()@.contains_key(id) && final(self).cache_spec()@[id]
                            == old(self).cache_spec()@[id]
                    } else {
                        final(self).cache_spec()@.contains_key(id) ==> next_result_ok(
                            old(self).cfg_spec().entries_spec()[j].1.frequency,
                            *now,
                            old(self).anchor_of(id),
                            final(self).cache_spec()@[id],
                        )
                    }
                },
    {
        proof {
            assert(now.unix >= 1);
        }
        let now_unix: u64 = now.unix as u64;
        let mut dispatches: Vec<Dispatch> = Vec::new();
        let ghost mut picks: Seq<int> = Seq::empty();
        let n = self.config.entries().len();
        let mut i: usize = 0;
        while i < n
            invariant
                0 <= i <= n,
                n == self.config.entries_spec().len(),
                self.config == old(self).config,
                self.run_log == old(self).run_log,
                self.wf(),
                picks.len() == dispatches@.len(),
                forall|k: int| 0 <= k < picks.len() ==> 0 <= #[trigger] picks[k] < i,
                forall|k1: int, k2: int| 0 <= k1 < k2 < picks.len() ==> picks[k1] < picks[k2],
                forall|k: int|
                    0 <= k < dispatches@.len() ==> dispatch_from(
                        old(self).cfg_spec(),
                        #[trigger] dispatches@[k],
                        picks[k],
                    ),
                forall|k: int|
                    0 <= k < dispatches@.len() ==> (#[trigger] dispatches@[k]).started == now.unix
                        && dispatches@[k].id.wf(),
                forall|k: int|
                    0 <= k < dispatches@.len() ==> (old(self).cfg_spec().entries_spec()[picks[k]].1.allow_parallel
                        || !old(self).runs_spec().running_spec((#[trigger] dispatches@[k]).id@)),
                forall|k: int|
                    0 <= k < dispatches@.len() ==> self.runs_spec().running_spec(
                        (#[trigger] dispatches@[k]).id@,
                    ),
                forall|key: Seq<char>|
                    #![trigger self.runs_spec()@.contains_key(key)]
                    !was_dispatched(dispatches@, key) ==> (self.runs_spec()@.contains_key(key)
                        == old(self).runs_spec()@.contains_key(key) && (old(
                        self,
                    ).runs_spec()@.contains_key(key) ==> self.runs_spec()@[key] == old(
                        self,
                    ).runs_spec()@[key])),
                forall|j: int|
                    #![trigger old(self).cfg_spec().entries_spec()[j]]
                    i <= j < n ==> (self.cache_spec()@.contains_key(
                        old(self).cfg_spec().entries_spec()[j].0@,
                    ) == old(self).cache_spec()@.contains_key(
                        old(self).cfg_spec().entries_spec()[j].0@,
                    ) && (old(self).cache_spec()@.contains_key(
                        old(self).cfg_spec().entries_spec()[j].0@,
                    ) ==> self.cache_spec()@[old(self).cfg_spec().entries_spec()[j].0@] == old(
                        self,
                    ).cache_spec()@[old(self).cfg_spec().entries_spec()[j].0@])),
                forall|j: int|
                    0 <= j < i ==> was_dispatched(
                        dispatches@,
                        (#[trigger] old(self).cfg_spec().entries_spec()[j]).0@,
                    ) || old(self).tick_excused(*self, *now, j),
                forall|j: int|
                    #![trigger old(self).cfg_spec().entries_spec()[j]]
                    0 <= j < i && !was_dispatched(
                        dispatches@,
                        old(self).cfg_spec().entries_spec()[j].0@,
                    ) ==> {
                        let id = old(self).cfg_spec().entries_spec()[j].0@;
                        if old(self).cache_spec()@.contains_key(id) {
                            self.cache_spec()@.contains_key(id) && self.cache_spec()@[id] == old(
                                self,
                            ).cache_spec()@[id]
                        } else {
                            self.cache_spec()@.contains_key(id) ==> next_result_ok(
                                old(self).cfg_spec().entries_spec()[j].1.frequency,
                                *now,
                                old(self).anchor_of(id),
                                self.cache_spec()@[id],
                            )
                        }
                    },
            decreases n - i,
        {
            let ghost idv = self.config.entries_spec()[i as int].0@;
            let ghost runs_at_head = self.runs_spec();
            let ghost cache_at_head = self.cache_spec();
            let ghost dispatches_at_head = dispatches@;
            proof {
                // Dispatches so far carry ids of earlier entries, all
                // distinct from this entry's id.
                assert forall|k: int|
                    0 <= k < dispatches@.len() implies (#[trigger] dispatches@[k]).id@ != idv by {
                    assert(dispatch_from(old(self).cfg_spec(), dispatches@[k], picks[k]));
                }
                assert(!was_dispatched(dispatches@, idv));
            }
            let entry_id = self.config.entries()[i].0.clone();
            let next = {
                let entries = self.config.entries();
                self.next_run.update_and_get(
                    &entry_id,
                    &entries[i].1.frequency,
                    now,
                    &self.run_log,
                    &self.running,
                )
            };
            if now_unix >= next {
                let allow_parallel = self.config.entries()[i].1.allow_parallel;
                if !allow_parallel && self.running.any_running(&entry_id) {
                    proof {
                        assert(runs_at_head@.contains_key(idv) == old(
                            self,
                        ).runs_spec()@.contains_key(idv));
                        if old(self).runs_spec()@.contains_key(idv) {
                            assert(runs_at_head@[idv] == old(self).runs_spec()@[idv]);
                        }
                        assert(old(self).runs_spec().running_spec(idv));
                        assert(old(self).tick_excused(*self, *now, i as int));
                        assert(cache_at_head@.contains_key(idv) == old(
                            self,
                        ).cache_spec()@.contains_key(idv));
                        if old(self).cache_spec()@.contains_key(idv) {
                            assert(cache_at_head@[idv] == old(self).cache_spec()@[idv]);
                        }
                        assert(runs_at_head.provisional_latest(idv) == old(
                            self,
                        ).runs_spec().provisional_latest(idv));
                    }
                    proof {
                        assert forall|key: Seq<char>|
                            #![trigger self.runs_spec()@.contains_key(key)]
                            !was_dispatched(dispatches@, key) implies (
                        self.runs_spec()@.contains_key(key) == old(
                            self,
                        ).runs_spec()@.contains_key(key) && (old(self).runs_spec()@.contains_key(
                            key,
                        ) ==> self.runs_spec()@[key] == old(self).runs_spec()@[key])) by {
                            assert(runs_at_head@.contains_key(key) == old(
                                self,
                            ).runs_spec()@.contains_key(key));
                            if old(self).runs_spec()@.contains_key(key) {
                                assert(runs_at_head@[key] == old(self).runs_spec()@[key]);
                            }
                            assert(self.runs_spec() == runs_at_head);
                        }
                    }
                } else {
                    proof {
                        // The fresh-computation anchor agrees with the
                        // starting state's anchor for this job: nothing
                        // this tick has touched its in-flight record.
                        assert(!was_dispatched(dispatches@, idv));
                        assert(self.runs_spec()@.contains_key(idv) == old(
                            self,
                        ).runs_spec()@.contains_key(idv));
                        if old(self).runs_spec()@.contains_key(idv) {
                            assert(self.runs_spec()@[idv] == old(self).runs_spec()@[idv]);
                        }
                        assert(self.runs_spec().provisional_latest(idv) == old(
                            self,
                        ).runs_spec().provisional_latest(idv));
                    }
                    self.running.add(entry_id.clone(), now_unix);
                    self.next_run.invalidate(&entry_id);
                    match now.plus_one_second() {
                        Some(later) => {
                            let entries = self.config.entries();
                            let _ = self.next_run.update_and_get(
                                &entry_id,
                                &entries[i].1.frequency,
                                &later,
                                &self.run_log,
                                &self.running,
                            );
                        },
                        None => {},
                    }
                    let d = {
                        let entries = self.config.entries();
                        Dispatch {
                            id: entry_id,
                            cmd: entries[i].1.cmd.clone(),
                            notify_definition: NotifyDefinition::new(
                                entries[i].1.notify_definition.title.clone(),
                                entries[i].1.notify_definition.component.clone(),
                                entries[i].1.notify_definition.report_if_success,
                                entries[i].1.notify_definition.output_format,
                            ),
                            started: now_unix,
                        }
                    };
                    proof {
                        assert(dispatch_from(old(self).cfg_spec(), d, i as int));
                        picks = picks.push(i as int);
                    }
                    dispatches.push(d);
                    proof {
                        assert(dispatches@[dispatches@.len() - 1] == d);
                        assert(d.id@ == idv);
                        assert(was_dispatched(dispatches@, idv));
                        assert(dispatches@.drop_last() =~= dispatches_at_head);
                        assert forall|key: Seq<char>|
                            #![trigger self.runs_spec()@.contains_key(key)]
                            !was_dispatched(dispatches@, key) implies (
                        self.runs_spec()@.contains_key(key) == old(
                            self,
                        ).runs_spec()@.contains_key(key) && (old(self).runs_spec()@.contains_key(
                            key,
                        ) ==> self.runs_spec()@[key] == old(self).runs_spec()@[key])) by {
                            assert(key != idv);
                            assert(!was_dispatched(dispatches_at_head, key)) by {
                                if was_dispatched(dispatches_at_head, key) {
                                    let k = choose|k: int|
                                        0 <= k < dispatches_at_head.len() && (
                                        #[trigger] dispatches_at_head[k]).id@ == key;
                                    assert(dispatches@[k] == dispatches_at_head[k]);
                                }
                            }
                            assert(runs_at_head@.contains_key(key) == old(
                                self,
                            ).runs_spec()@.contains_key(key));
                            assert(self.runs_spec()@.contains_key(key)
                                == runs_at_head@.contains_key(key));
                            if old(self).runs_spec()@.contains_key(key) {
                                assert(runs_at_head@[key] == old(self).runs_spec()@[key]);
                                assert(self.runs_spec()@[key] == runs_at_head@[key]);
                            }
                        }
                        assert forall|k: int|
                            0 <= k < dispatches@.len() implies self.runs_spec().running_spec(
                            (#[trigger] dispatches@[k]).id@,
                        ) by {
                            if k < dispatches@.len() - 1 {
                                assert(dispatches@[k] == dispatches_at_head[k]);
                                assert(runs_at_head.running_spec(dispatches@[k].id@));
                                if dispatches@[k].id@ != idv {
                                    assert(self.runs_spec()@.contains_key(dispatches@[k].id@)
                                        == runs_at_head@.contains_key(dispatches@[k].id@));
                                    assert(self.runs_spec()@[dispatches@[k].id@]
                                        == runs_at_head@[dispatches@[k].id@]);
                                }
                            } else {
                                assert(dispatches@[k] == d);
                            }
                        }
                    }
                }
            } else {
                proof {
                    // The computed next due time is cached and ahead.
                    assert(self.cache_spec()@.contains_key(idv));
                    assert(self.cache_spec()@[idv] == next);
                    assert(old(self).tick_excused(*self, *now, i as int));
                    assert(cache_at_head@.contains_key(idv) == old(
                        self,
                    ).cache_spec()@.contains_key(idv));
                    if old(self).cache_spec()@.contains_key(idv) {
                        assert(cache_at_head@[idv] == old(self).cache_spec()@[idv]);
                    }
                    assert(runs_at_head@.contains_key(idv) == old(
                        self,
                    ).runs_spec()@.contains_key(idv));
                    if old(self).runs_spec()@.contains_key(idv) {
                        assert(runs_at_head@[idv] == old(self).runs_spec()@[idv]);
                    }
                    assert(runs_at_head.provisional_latest(idv) == old(
                        self,
                    ).runs_spec().provisional_latest(idv));
                }
                proof {
                    assert forall|key: Seq<char>|
                        #![trigger self.runs_spec()@.contains_key(key)]
                        !was_dispatched(dispatches@, key) implies (
                    self.runs_spec()@.contains_key(key) == old(
                        self,
                    ).runs_spec()@.contains_key(key) && (old(self).runs_spec()@.contains_key(
                        key,
                    ) ==> self.runs_spec()@[key] == old(self).runs_spec()@[key])) by {
                        assert(runs_at_head@.contains_key(key) == old(
                            self,
                        ).runs_spec()@.contains_key(key));
                        if old(self).runs_spec()@.contains_key(key) {
                            assert(runs_at_head@[key] == old(self).runs_spec()@[key]);
                        }
                        assert(self.runs_spec() == runs_at_head);
                    }
                }
            }
            i = i + 1;
        }
        proof {
            assert forall|k: int|
                0 <= k < dispatches@.len() implies dispatch_admissible(
                old(self).cfg_spec(),
                old(self).runs_spec(),
                #[trigger] dispatches@[k],
            ) by {
                assert(dispatch_from(old(self).cfg_spec(), dispatches@[k], picks[k]));
            }
            assert forall|k1: int, k2: int|
                0 <= k1 < k2 < dispatches@.len() implies (#[trigger] dispatches@[k1]).id@ != (
            #[trigger] dispatches@[k2]).id@ by {
                assert(dispatch_from(old(self).cfg_spec(), dispatches@[k1], picks[k1]));
                assert(dispatch_from(old(self).cfg_spec(), dispatches@[k2], picks[k2]));
                assert(picks[k1] < picks[k2]);
                assert(old(self).cfg_spec().entries_spec()[picks[k1]].0@ != old(
                    self,
                ).cfg_spec().entries_spec()[picks[k2]].0@);
            }
        }
        dispatches
    }

    /// Integrate a worker's report: the run is no longer in flight,
    /// and exactly the successful runs advance the job's recorded last
    /// success. The next-due cache is deliberately left alone: the
    /// dispatch already re-anchored it.
    pub fn on_completion(&mut self, finish: JobFinish)
        requires
            old(self).wf(),
            finish.id.wf(),
        ensures
            final(self).wf(),
            final(self).cfg_spec() == old(self).cfg_spec(),
            final(self).cache_spec() == old(self).cache_spec(),
            old(self).runs_spec()@.contains_key(finish.id@) ==> final(self).runs_spec()@ =~= old(
                self,
            ).runs_spec()@.insert(
                finish.id@,
                old(self).runs_spec()@[finish.id@].filter(|x: u64| x != finish.started),
            ),
            !old(self).runs_spec()@.contains_key(finish.id@) ==> final(self).runs_spec()@ == old(
                self,
            ).runs_spec()@,
            finish.success ==> final(self).log_spec()@ =~= old(self).log_spec()@.insert(
                finish.id@,
                finish.started,
            ),
            !finish.success ==> final(self).log_spec() == old(self).log_spec(),
    {
        self.running.mark_completed(&finish.id, finish.started);
        if finish.success {
            self.run_log.record(finish.id, finish.started);
        }
    }

    /// Seconds to sleep before the next tick: until the earliest
    /// cached due time, at most the check interval.
    pub fn wait_seconds(&self, now_unix: u64) -> (r: u64)
        requires
            self.wf(),
        ensures
            r <= CHECK_INTERVAL_SECS,
            ({
                let w = if self.cache_spec().kv().len() == 0 {
                    u64::MAX
                } else if crate::next_run::seq_min_val(self.cache_spec().kv()) >= now_unix {
                    (crate::next_run::seq_min_val(self.cache_spec().kv()) - now_unix) as u64
                } else {
                    0
                };
                r == if w < CHECK_INTERVAL_SECS {
                    w
                } else {
                    CHECK_INTERVAL_SECS
                }
            }),
    {
        let w = self.next_run.get_wait(now_unix);
        if w < CHECK_INTERVAL_SECS {
            w
        } else {
            CHECK_INTERVAL_SECS
        }
    }
}

/// One shutdown-report fragment: the job and how many of its runs are
/// still in flight.
pub open spec fn summary_part(key: Seq<char>, count: int) -> Seq<char> {
    key + " x"@ + dec_rep(count)
}

/// The fragments of the shutdown report: one per job with runs still
/// in flight, in entry order.
pub open spec fn summary_parts(kv: Seq<(Seq<char>, Seq<u64>)>) -> Seq<Seq<char>>
    decreases kv.len(),
{
    if kv.len() == 0 {
        Seq::empty()
    } else {
        let rest = summary_parts(kv.drop_last());
        if kv.last().1.len() == 0 {
            rest
        } else {
            rest.push(summary_part(kv.last().0, kv.last().1.len() as int))
        }
    }
}

/// Fragments joined by a comma and a space.
pub open spec fn join_parts(parts: Seq<Seq<char>>) -> Seq<char>
    decreases parts.len(),
{
    if parts.len() == 0 {
        Seq::empty()
    } else if parts.len() == 1 {
        parts[0]
    } else {
        join_parts(parts.drop_last()) + ", "@ + parts.last()
    }
}

impl Scheduler {
    /// The shutdown report: each job with runs still in flight, with
    /// its count, joined by commas. Empty when nothing is in flight.
    #[verifier::loop_isolation(false)]
    #[verifier::rlimit(80)]
    pub fn shutdown_summary(&self) -> (r: String)
        requires
            self.wf(),
        ensures
            r@ == join_parts(summary_parts(self.runs_spec().kv())),
    {
        let ghost kv = self.runs_spec().kv();
        let entries = self.running.get_running();
        let n = entries.len();
        let mut out = String::new();
        let mut parts_count: usize = 0;
        let mut i: usize = 0;
        proof {
            assert(kv.take(0) =~= Seq::<(Seq<char>, Seq<u64>)>::empty());
        }
        while i < n
            invariant
                0 <= i <= n,
                n == entries@.len(),
                kv == crate::running_jobs::kv_of_runs(entries@),
                parts_count <= i,
                parts_count == summary_parts(kv.take(i as int)).len(),
                out@ == join_parts(summary_parts(kv.take(i as int))),
            decreases n - i,
        {
            proof {
                assert(kv.take(i + 1).drop_last() =~= kv.take(i as int));
                assert(kv.take(i + 1).last() == kv[i as int]);
            }
            let count = entries[i].1.len();
            if count > 0 {
                let ghost parts0 = summary_parts(kv.take(i as int));
                if parts_count > 0 {
                    out.append(", ");
                }
                out.append(entries[i].0.as_str());
                out.append(" x");
                let digits = u64_to_string(count as u64);
                out.append(digits.as_str());
                parts_count = parts_count + 1;
                proof {
                    reveal_strlit(", ");
                    reveal_strlit(" x");
                    let part = summary_part(kv[i as int].0, kv[i as int].1.len() as int);
                    assert(summary_parts(kv.take(i + 1)) =~= parts0.push(part));
                    assert(parts0.push(part).drop_last() =~= parts0);
                    assert(parts0.push(part).last() == part);
                    if parts0.len() == 0 {
                        assert(out@ =~= part);
                        assert(out@ =~= join_parts(parts0.push(part)));
                    } else {
                        assert(out@ =~= join_parts(parts0) + ", "@ + part);
                        assert(out@ =~= join_parts(parts0.push(part)));
                    }
                }
            } else {
                proof {
                    assert(summary_parts(kv.take(i + 1)) =~= summary_parts(kv.take(i as int)));
                }
            }
            i = i + 1;
        }
        proof {
            assert(kv.take(n as int) =~= kv);
        }
        out
    }
}

/// A job that runs alone and is still in flight is never dispatched:
/// any list of dispatches that a tick can produce excludes it.
pub proof fn lemma_no_parallel_redispatch(
    cfg: Config,
    running0: RunningJobs,
    r: Seq<Dispatch>,
    j0: int,
)
    requires
        cfg.wf(),
        0 <= j0 < cfg.entries_spec().len(),
        !cfg.entries_spec()[j0].1.allow_parallel,
        running0.running_spec(cfg.entries_spec()[j0].0@),
        forall|k: int|
            0 <= k < r.len() ==> dispatch_admissible(cfg, running0, #[trigger] r[k]),
    ensures
        !was_dispatched(r, cfg.entries_spec()[j0].0@),
{
    let id = cfg.entries_spec()[j0].0@;
    assert forall|k: int| 0 <= k < r.len() implies (#[trigger] r[k]).id@ != id by {
        if r[k].id@ == id {
            assert(dispatch_admissible(cfg, running0, r[k]));
            let j = choose|j: int|
                #[trigger] dispatch_from(cfg, r[k], j) && (cfg.entries_spec()[j].1.allow_parallel
                    || !running0.running_spec(r[k].id@));
            assert(cfg.entries_spec()[j].0@ == id);
            if j != j0 {
                if j < j0 {
                    assert(cfg.entries_spec()[j].0@ != cfg.entries_spec()[j0].0@);
                } else {
                    assert(cfg.entries_spec()[j0].0@ != cfg.entries_spec()[j].0@);
                }
            }
        }
    }
}

} // verus!
