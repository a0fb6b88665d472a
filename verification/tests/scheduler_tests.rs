use rnotifyd::action::ProgramOutputFormat;
use rnotifyd::calendar::CivilDate;
use rnotifyd::config::Config;
use rnotifyd::config::JobDefinition;
use rnotifyd::config::JobDefinitionId;
use rnotifyd::frequency::FixedPeriodInner;
use rnotifyd::frequency::Frequency;
use rnotifyd::frequency::TimeOfDay;
use rnotifyd::local_time::LocalDateTime;
use rnotifyd::next_run::NextRun;
use rnotifyd::next_run::ProvisionalJobRuns;
use rnotifyd::run_log::RunLog;
use rnotifyd::running_jobs::RunningJobs;
use rnotifyd::scheduler::JobFinish;
use rnotifyd::scheduler::Scheduler;

fn id(s: &str) -> JobDefinitionId {
    JobDefinitionId::try_new(s.to_string()).expect("valid id")
}

fn ldt(year: i32, month: u8, day: u8, h: u8, mi: u8, s: u8) -> LocalDateTime {
    let date = CivilDate::new(year, month, day).expect("valid date");
    let time = TimeOfDay::from_hms(h, mi, s).expect("valid time");
    LocalDateTime::resolve(date, time.secs).expect("resolvable local datetime")
}

fn job(cmd: &str, allow_parallel: bool, period_secs: u64) -> JobDefinition {
    JobDefinition::new(
        cmd.to_string(),
        allow_parallel,
        Frequency::FixedPeriod(FixedPeriodInner::new(0, 0, period_secs)),
        rnotifyd::notify_definition::NotifyDefinition::new(
            "a title".to_string(),
            "a-component".to_string(),
            false,
            ProgramOutputFormat::SimpleIfSuccess,
        ),
    )
}

#[test]
fn no_parallel_job_is_dispatched_once_until_completion() {
    let slow = id("slow-job");
    let config = Config::new(vec![(id("slow-job"), job("sleep 5", false, 3600))]).unwrap();
    let mut sched = Scheduler::new(config, RunLog::default());
    let now = ldt(2022, 3, 17, 5, 46, 13);

    // Never ran before: due immediately; exactly one dispatch.
    let first = sched.tick(&now);
    assert_eq!(first.len(), 1);
    assert_eq!(first[0].id.as_str(), "slow-job");
    assert_eq!(first[0].cmd, "sleep 5");
    assert!(sched.running().any_running(&slow));

    // Still running: further ticks spawn nothing.
    let second = sched.tick(&now);
    assert_eq!(second.len(), 0);
    let later = now.plus_one_second().unwrap();
    let third = sched.tick(&later);
    assert_eq!(third.len(), 0);

    // After its completion the job is no longer in flight.
    sched.on_completion(JobFinish::new(id("slow-job"), first[0].started, true));
    assert!(!sched.running().any_running(&slow));
}

#[test]
fn parallel_job_may_be_dispatched_again() {
    // With parallelism allowed and the period anchored on a long-gone
    // run, a second tick (after invalidation has expired nothing) still
    // respects the re-seeded cache: the fresh dispatch anchors the next
    // run one period ahead, so the same tick does not double-dispatch.
    let config = Config::new(vec![(id("fast-job"), job("true", true, 3600))]).unwrap();
    let mut sched = Scheduler::new(config, RunLog::default());
    let now = ldt(2022, 3, 17, 5, 46, 13);

    let first = sched.tick(&now);
    assert_eq!(first.len(), 1);

    // Not yet due again: the provisional start pushed the due time out.
    let second = sched.tick(&now);
    assert_eq!(second.len(), 0);
}

#[test]
fn failure_does_not_advance_last_run() {
    let fail = id("failing-job");
    let config = Config::new(vec![(id("failing-job"), job("false", false, 60))]).unwrap();
    let mut sched = Scheduler::new(config, RunLog::default());
    let now = ldt(2022, 3, 17, 5, 46, 13);

    let first = sched.tick(&now);
    assert_eq!(first.len(), 1);
    assert_eq!(sched.run_log().get_last_successful_run_time(&fail), None);

    sched.on_completion(JobFinish::new(id("failing-job"), first[0].started, false));
    assert_eq!(sched.run_log().get_last_successful_run_time(&fail), None);
}

#[test]
fn success_advances_last_run() {
    let ok = id("ok-job");
    let config = Config::new(vec![(id("ok-job"), job("true", false, 60))]).unwrap();
    let mut sched = Scheduler::new(config, RunLog::default());
    let now = ldt(2022, 3, 17, 5, 46, 13);

    let first = sched.tick(&now);
    assert_eq!(first.len(), 1);
    sched.on_completion(JobFinish::new(id("ok-job"), first[0].started, true));
    assert_eq!(
        sched.run_log().get_last_successful_run_time(&ok),
        Some(first[0].started)
    );
}

#[test]
fn dispatch_carries_command_and_start() {
    let config = Config::new(vec![
        (id("job-a"), job("echo a", false, 60)),
        (id("job-b"), job("echo b", false, 60)),
    ])
    .unwrap();
    let mut sched = Scheduler::new(config, RunLog::default());
    let now = ldt(2022, 3, 17, 5, 46, 13);
    let dispatches = sched.tick(&now);
    assert_eq!(dispatches.len(), 2);
    assert_eq!(dispatches[0].id.as_str(), "job-a");
    assert_eq!(dispatches[1].id.as_str(), "job-b");
    assert_eq!(dispatches[0].started, now.unix as u64);
    assert_eq!(dispatches[1].started, now.unix as u64);
}

#[test]
fn duplicate_config_ids_are_rejected() {
    assert!(Config::new(vec![
        (id("job-a"), job("echo a", false, 60)),
        (id("job-a"), job("echo b", false, 60)),
    ])
    .is_none());
}

#[test]
fn shutdown_summary_lists_running_jobs() {
    let config = Config::new(vec![
        (id("job-a"), job("sleep 5", true, 3600)),
        (id("job-b"), job("sleep 5", true, 3600)),
    ])
    .unwrap();
    let mut sched = Scheduler::new(config, RunLog::default());
    let now = ldt(2022, 3, 17, 5, 46, 13);
    let first = sched.tick(&now);
    assert_eq!(first.len(), 2);
    assert_eq!(sched.shutdown_summary(), "job-a x1, job-b x1");

    sched.on_completion(JobFinish::new(id("job-a"), first[0].started, true));
    assert_eq!(sched.shutdown_summary(), "job-b x1");

    sched.on_completion(JobFinish::new(id("job-b"), first[1].started, false));
    assert_eq!(sched.shutdown_summary(), "");
}

#[test]
fn running_jobs_track_starts() {
    let mut running = RunningJobs::new();
    let a = id("job-a");
    assert!(!running.any_running(&a));
    running.add(id("job-a"), 100);
    assert!(running.any_running(&a));
    running.add(id("job-a"), 250);
    assert_eq!(running.get_latest(&a), Some(250));
    running.mark_completed(&a, 250);
    assert!(running.any_running(&a));
    assert_eq!(running.get_latest(&a), Some(100));
    running.mark_completed(&a, 100);
    assert!(!running.any_running(&a));
    assert_eq!(running.get_latest(&a), None);
}

#[test]
fn mark_completed_removes_every_equal_start() {
    let mut running = RunningJobs::new();
    let a = id("job-a");
    running.add(id("job-a"), 100);
    running.add(id("job-a"), 100);
    running.mark_completed(&a, 100);
    assert!(!running.any_running(&a));
}

#[test]
fn mark_completed_of_unknown_job_is_harmless() {
    let mut running = RunningJobs::new();
    running.mark_completed(&id("job-a"), 100);
    assert!(!running.any_running(&id("job-a")));
}

#[test]
fn next_run_caches_and_invalidates() {
    let mut cache = NextRun::new();
    let running = RunningJobs::new();
    let mut log = RunLog::default();
    log.record(id("job-a"), 1_000);
    let now = ldt(2022, 3, 17, 5, 46, 13);
    let freq = Frequency::FixedPeriod(FixedPeriodInner::new(1, 0, 0));

    let first = cache.update_and_get(&id("job-a"), &freq, &now, &log, &running);
    assert_eq!(first, 4_600);

    // The cached value is authoritative even if the log moves on.
    log.record(id("job-a"), 2_000);
    let second = cache.update_and_get(&id("job-a"), &freq, &now, &log, &running);
    assert_eq!(second, 4_600);

    cache.invalidate(&id("job-a"));
    let third = cache.update_and_get(&id("job-a"), &freq, &now, &log, &running);
    assert_eq!(third, 5_600);
}

#[test]
fn provisional_start_outranks_the_log() {
    let mut cache = NextRun::new();
    let mut running = RunningJobs::new();
    let mut log = RunLog::default();
    log.record(id("job-a"), 1_000);
    running.add(id("job-a"), 9_000);
    let now = ldt(2022, 3, 17, 5, 46, 13);
    let freq = Frequency::FixedPeriod(FixedPeriodInner::new(0, 0, 600));

    let next = cache.update_and_get(&id("job-a"), &freq, &now, &log, &running);
    assert_eq!(next, 9_600);
}

#[test]
fn get_wait_clamps_and_signals_empty() {
    let mut cache = NextRun::new();
    assert_eq!(cache.get_wait(50), u64::MAX);

    let running = RunningJobs::new();
    let mut log = RunLog::default();
    log.record(id("job-a"), 100);
    let now = ldt(2022, 3, 17, 5, 46, 13);
    let freq = Frequency::FixedPeriod(FixedPeriodInner::new(0, 0, 50));
    let next = cache.update_and_get(&id("job-a"), &freq, &now, &log, &running);
    assert_eq!(next, 150);
    assert_eq!(cache.get_wait(120), 30);
    assert_eq!(cache.get_wait(150), 0);
    assert_eq!(cache.get_wait(9_999), 0);
}

#[test]
fn wait_seconds_is_capped_by_the_check_interval() {
    let config = Config::new(vec![(id("job-a"), job("true", false, 86_400))]).unwrap();
    let mut sched = Scheduler::new(config, RunLog::default());
    let now = ldt(2022, 3, 17, 5, 46, 13);
    let first = sched.tick(&now);
    assert_eq!(first.len(), 1);
    // The re-seeded next run is a day ahead; the sleep is capped at 60 s.
    assert_eq!(sched.wait_seconds(now.unix as u64), 60);
}
