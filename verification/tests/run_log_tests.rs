use rnotifyd::config::JobDefinitionId;
use rnotifyd::run_log::RunLog;

fn id(s: &str) -> JobDefinitionId {
    JobDefinitionId::try_new(s.to_string()).expect("valid id")
}

#[test]
fn test_read() {
    let s = "hello-world:1670340125\nbeep-boop:1670370255";
    let parsed = RunLog::read_from_string(s).unwrap();
    let mut expected = RunLog::default();
    expected.record(id("hello-world"), 1670340125);
    expected.record(id("beep-boop"), 1670370255);

    assert_eq!(expected, parsed);
}

#[test]
fn round_trip_of_two_entries() {
    let s = "hello-world:1670340125\nbeep-boop:1670370255";
    let parsed = RunLog::read_from_string(s).unwrap();
    assert_eq!(
        parsed.get_last_successful_run_time(&id("hello-world")),
        Some(1670340125)
    );
    assert_eq!(
        parsed.get_last_successful_run_time(&id("beep-boop")),
        Some(1670370255)
    );
    let rewritten = parsed.write_to_string();
    let reparsed = RunLog::read_from_string(&rewritten).unwrap();
    assert_eq!(parsed, reparsed);
}

#[test]
fn write_format_is_one_line_per_entry() {
    let mut log = RunLog::default();
    log.record(id("job-a"), 1);
    log.record(id("job-b"), 22);
    assert_eq!(log.write_to_string(), "job-a:1\njob-b:22\n");
}

#[test]
fn record_overwrites_per_id() {
    let mut log = RunLog::default();
    log.record(id("job-a"), 5);
    log.record(id("job-a"), 9);
    assert_eq!(log.get_last_successful_run_time(&id("job-a")), Some(9));
    assert_eq!(log.write_to_string(), "job-a:9\n");
}

#[test]
fn comments_and_blank_lines_are_skipped() {
    let s = "# a comment\n\njob-a:5\n# another\njob-b:6\n";
    let parsed = RunLog::read_from_string(s).unwrap();
    assert_eq!(parsed.get_last_successful_run_time(&id("job-a")), Some(5));
    assert_eq!(parsed.get_last_successful_run_time(&id("job-b")), Some(6));
    assert_eq!(parsed.get_last_successful_run_time(&id("job-c")), None);
}

#[test]
fn later_entries_overwrite_earlier_ones() {
    let parsed = RunLog::read_from_string("job-a:1\njob-a:2").unwrap();
    assert_eq!(parsed.get_last_successful_run_time(&id("job-a")), Some(2));
}

#[test]
fn text_after_second_colon_is_ignored() {
    let parsed = RunLog::read_from_string("job-a:7:trailing").unwrap();
    assert_eq!(parsed.get_last_successful_run_time(&id("job-a")), Some(7));
}

#[test]
fn invalid_id_is_fatal() {
    assert!(RunLog::read_from_string("BadId:1").is_err());
}

#[test]
fn missing_timestamp_part_is_fatal() {
    assert!(RunLog::read_from_string("job-a").is_err());
}

#[test]
fn empty_timestamp_is_fatal() {
    assert!(RunLog::read_from_string("job-a:").is_err());
}

#[test]
fn non_numeric_timestamp_is_fatal() {
    assert!(RunLog::read_from_string("job-a:12x").is_err());
}

#[test]
fn overflowing_timestamp_is_fatal() {
    assert!(RunLog::read_from_string("job-a:18446744073709551616").is_err());
}

#[test]
fn largest_timestamp_parses() {
    let parsed = RunLog::read_from_string("job-a:18446744073709551615").unwrap();
    assert_eq!(
        parsed.get_last_successful_run_time(&id("job-a")),
        Some(u64::MAX)
    );
}

#[test]
fn empty_text_is_an_empty_log() {
    let parsed = RunLog::read_from_string("").unwrap();
    assert_eq!(parsed, RunLog::default());
}

#[test]
fn kebab_ids_are_enforced() {
    assert!(JobDefinitionId::try_new("job-a".to_string()).is_ok());
    assert!(JobDefinitionId::try_new("a2-b3".to_string()).is_ok());
    assert!(JobDefinitionId::try_new("".to_string()).is_err());
    assert!(JobDefinitionId::try_new("-job".to_string()).is_err());
    assert!(JobDefinitionId::try_new("job-".to_string()).is_err());
    assert!(JobDefinitionId::try_new("job--a".to_string()).is_err());
    assert!(JobDefinitionId::try_new("Job".to_string()).is_err());
    assert!(JobDefinitionId::try_new("job_a".to_string()).is_err());
}
