use rnotifyd::action::ProgramOutputFormat;
use rnotifyd::action::classify_output;
use rnotifyd::action::spawn_failure_result;
use rnotifyd::config::JobDefinitionId;
use rnotifyd::job_result::JobResult;
use rnotifyd::list_output::to_detail_from_list;
use rnotifyd::message::DetailElement;
use rnotifyd::message::Level;
use rnotifyd::message::MessageDetail;
use rnotifyd::message::Style;
use rnotifyd::notify_definition::NotifyDefinition;
use rnotifyd::program_output::ProgramOutput;
use rnotifyd::text::parse_u64;
use rnotifyd::text::u64_to_string;

fn output(out: &str, err: &str, code: i32) -> ProgramOutput {
    ProgramOutput::new(out.to_string(), err.to_string(), code)
}

#[test]
fn trim_leaves_short_strings_alone() {
    let mut o = output("hello", "world", 0);
    o.trim_to(500);
    assert_eq!(o.get_stdout(), "hello");
    assert_eq!(o.get_stderr(), "world");
}

#[test]
fn trim_keeps_a_bounded_suffix_behind_a_marker() {
    let long: String = "a".repeat(600);
    let mut o = output(&long, "", 10);
    o.trim_to(500);
    let expected = format!("...{}", "a".repeat(499));
    assert_eq!(o.get_stdout(), expected.as_str());
    assert_eq!(o.get_exit_code(), 10);
}

#[test]
fn trim_respects_character_boundaries() {
    // Two-byte characters: 300 of them make 600 bytes; the suffix must
    // begin at a character boundary, so the result stays valid UTF-8.
    let long: String = "\u{e9}".repeat(300);
    let mut o = output(&long, "", 0);
    o.trim_to(500);
    let s = o.get_stdout().to_string();
    assert!(std::str::from_utf8(s.as_bytes()).is_ok());
    assert!(s.starts_with("..."));
    // 102 bytes are dropped (51 characters), 249 characters stay.
    assert_eq!(s, format!("...{}", "\u{e9}".repeat(249)));
    assert_eq!(s.len(), 3 + 498);
}

#[test]
fn trim_with_oversized_final_character_leaves_text_alone() {
    // No character-aligned suffix fits under 2 bytes: unchanged.
    let mut o = output("\u{1F600}", "", 0);
    o.trim_to(2);
    assert_eq!(o.get_stdout(), "\u{1F600}");
}

#[test]
fn simple_format_reports_bare_success() {
    let detail = output("out", "err", 0).to_detail(&ProgramOutputFormat::SimpleIfSuccess);
    match detail {
        MessageDetail::Raw(s) => assert_eq!(s, "Program Succeeded"),
        _ => panic!("expected a raw detail"),
    }
}

#[test]
fn simple_format_reports_failure_verbosely() {
    let detail = output("out", "err", 3).to_detail(&ProgramOutputFormat::SimpleIfSuccess);
    match detail {
        MessageDetail::Formatted { raw, elements } => {
            assert_eq!(
                raw.unwrap(),
                "ProgramOutput { std_out: \"out\", std_err: \"err\", exit_code: 3 }"
            );
            assert_eq!(elements.len(), 3);
            match &elements[0] {
                DetailElement::Text(parts) => {
                    assert_eq!(parts.len(), 1);
                    assert_eq!(parts[0].text, "Program failed with exit code 3");
                    assert_eq!(parts[0].style, Style::Plain);
                },
                _ => panic!("expected a headline"),
            }
            match &elements[1] {
                DetailElement::Section { title, parts } => {
                    assert_eq!(title, "Stderr");
                    assert_eq!(parts[0].text, "err");
                    assert_eq!(parts[0].style, Style::Monospace);
                },
                _ => panic!("expected a stderr section"),
            }
            match &elements[2] {
                DetailElement::Section { title, parts } => {
                    assert_eq!(title, "Stdout");
                    assert_eq!(parts[0].text, "out");
                },
                _ => panic!("expected a stdout section"),
            }
        },
        _ => panic!("expected a formatted detail"),
    }
}

#[test]
fn negative_exit_code_renders_with_sign() {
    let detail = output("", "", -1).to_detail(&ProgramOutputFormat::AlwaysDetailed);
    match detail {
        MessageDetail::Formatted { raw, .. } => {
            assert_eq!(
                raw.unwrap(),
                "ProgramOutput { std_out: \"\", std_err: \"\", exit_code: -1 }"
            );
        },
        _ => panic!("expected a formatted detail"),
    }
}

#[test]
fn stdout_format_forwards_stdout_on_success() {
    let detail = output("all good", "noise", 0).to_detail(&ProgramOutputFormat::StdoutIfSuccess);
    match detail {
        MessageDetail::Formatted { raw, elements } => {
            assert!(raw.is_none());
            assert_eq!(elements.len(), 2);
            match &elements[1] {
                DetailElement::Section { title, parts } => {
                    assert_eq!(title, "Stdout");
                    assert_eq!(parts[0].text, "all good");
                    assert_eq!(parts[0].style, Style::Monospace);
                },
                _ => panic!("expected a stdout section"),
            }
        },
        _ => panic!("expected a formatted detail"),
    }
}

#[test]
fn classification_follows_the_exit_code() {
    assert!(matches!(
        classify_output(output("", "", 0), &ProgramOutputFormat::SimpleIfSuccess),
        JobResult::Succeeded(_)
    ));
    assert!(matches!(
        classify_output(output("", "", 1), &ProgramOutputFormat::SimpleIfSuccess),
        JobResult::Failed(_)
    ));
}

#[test]
fn spawn_failure_is_invalid_with_the_command_named() {
    let r = spawn_failure_result("ping host", "no such file");
    match r {
        JobResult::Invalid(MessageDetail::Raw(s)) => {
            assert_eq!(s, "Failed to run command: 'ping host'\nError: no such file");
        },
        _ => panic!("expected an invalid outcome with a raw detail"),
    }
}

#[test]
fn outcome_kind_names() {
    let d = MessageDetail::Raw("x".to_string());
    assert_eq!(JobResult::Succeeded(d.clone()).type_str(), "ok");
    assert_eq!(JobResult::Invalid(d.clone()).type_str(), "invalid");
    assert_eq!(JobResult::Failed(d).type_str(), "failed");
}

#[test]
fn quiet_success_sends_no_message() {
    let nd = NotifyDefinition::new(
        "Ping".to_string(),
        "ping".to_string(),
        false,
        ProgramOutputFormat::SimpleIfSuccess,
    );
    let jid = JobDefinitionId::try_new("check-devices".to_string()).unwrap();
    let ok = JobResult::Succeeded(MessageDetail::Raw("fine".to_string()));
    assert!(nd.create_message(&jid, ok).is_none());
}

#[test]
fn failure_message_carries_severity_title_and_author() {
    let nd = NotifyDefinition::new(
        "Ping".to_string(),
        "ping".to_string(),
        false,
        ProgramOutputFormat::SimpleIfSuccess,
    );
    let jid = JobDefinitionId::try_new("check-devices".to_string()).unwrap();
    let failed = JobResult::Failed(MessageDetail::Raw("broken".to_string()));
    let m = nd.create_message(&jid, failed).unwrap();
    assert_eq!(m.level, Level::Error);
    assert_eq!(m.title.unwrap(), "Ping");
    assert_eq!(m.component.unwrap(), "ping");
    assert_eq!(m.author, "rnotifyd/check-devices");
    assert!(m.timestamp_millis > 1_000_000_000_000);
    match m.detail {
        MessageDetail::Raw(s) => assert_eq!(s, "broken"),
        _ => panic!("expected the carried detail"),
    }
}

#[test]
fn invalid_outcome_maps_to_self_error_and_always_reports() {
    let nd = NotifyDefinition::new(
        "Ping".to_string(),
        "ping".to_string(),
        false,
        ProgramOutputFormat::SimpleIfSuccess,
    );
    let jid = JobDefinitionId::try_new("check-devices".to_string()).unwrap();
    let invalid = JobResult::Invalid(MessageDetail::Raw("nope".to_string()));
    let m = nd.create_message(&jid, invalid).unwrap();
    assert_eq!(m.level, Level::SelfError);
}

#[test]
fn reported_success_maps_to_info() {
    let nd = NotifyDefinition::new(
        "Ping".to_string(),
        "ping".to_string(),
        true,
        ProgramOutputFormat::SimpleIfSuccess,
    );
    let jid = JobDefinitionId::try_new("check-devices".to_string()).unwrap();
    let ok = JobResult::Succeeded(MessageDetail::Raw("fine".to_string()));
    let m = nd.create_message(&jid, ok).unwrap();
    assert_eq!(m.level, Level::Info);
}

#[test]
fn list_output_collects_failures_and_successes() {
    let o = output("db:success\nweb:failure:timeout\ncache:success", "warn", 0);
    let detail = to_detail_from_list(&o);
    match detail {
        MessageDetail::Formatted { raw, elements } => {
            assert_eq!(raw.unwrap(), "db:success\nweb:failure:timeout\ncache:success");
            assert_eq!(elements.len(), 3);
            match &elements[0] {
                DetailElement::Section { title, parts } => {
                    assert_eq!(title, "Failed components");
                    assert_eq!(parts.len(), 2);
                    assert_eq!(parts[0].text, "- web ");
                    assert_eq!(parts[0].style, Style::Plain);
                    assert_eq!(parts[1].text, "timeout");
                    assert_eq!(parts[1].style, Style::Monospace);
                },
                _ => panic!("expected the failed section"),
            }
            match &elements[1] {
                DetailElement::Section { title, parts } => {
                    assert_eq!(title, "Successful components");
                    assert_eq!(parts.len(), 3);
                    assert_eq!(parts[0].text, "- db");
                    assert_eq!(parts[1].text, "\n");
                    assert_eq!(parts[2].text, "- cache");
                },
                _ => panic!("expected the successful section"),
            }
            match &elements[2] {
                DetailElement::Section { title, parts } => {
                    assert_eq!(title, "Stderr");
                    assert_eq!(parts[0].text, "warn");
                },
                _ => panic!("expected the stderr section"),
            }
        },
        _ => panic!("expected a formatted detail"),
    }
}

#[test]
fn list_output_defaults_missing_reason() {
    let o = output("web:failure", "", 0);
    let detail = to_detail_from_list(&o);
    match detail {
        MessageDetail::Formatted { elements, .. } => {
            assert_eq!(elements.len(), 2);
            match &elements[0] {
                DetailElement::Section { parts, .. } => {
                    assert_eq!(parts[1].text, "No reason provided");
                },
                _ => panic!("expected the failed section"),
            }
        },
        _ => panic!("expected a formatted detail"),
    }
}

#[test]
fn list_output_reports_empty_sections() {
    let o = output("", "", 0);
    let detail = to_detail_from_list(&o);
    match detail {
        MessageDetail::Formatted { elements, .. } => {
            assert_eq!(elements.len(), 2);
            match &elements[0] {
                DetailElement::Section { parts, .. } => {
                    assert_eq!(parts.len(), 1);
                    assert_eq!(parts[0].text, "None");
                },
                _ => panic!("expected the failed section"),
            }
        },
        _ => panic!("expected a formatted detail"),
    }
}

#[test]
fn list_output_names_the_first_bad_line() {
    let o = output("db:success\nnot a list line\nweb:success", "errs", 0);
    let detail = to_detail_from_list(&o);
    match detail {
        MessageDetail::Formatted { raw, elements } => {
            assert_eq!(
                raw.unwrap(),
                "Output from program did not conform to output format. Encountered first issue on line 2"
            );
            assert_eq!(elements.len(), 2);
            match &elements[0] {
                DetailElement::Section { title, parts } => {
                    assert_eq!(title, "Received stdout");
                    assert_eq!(parts[0].text, "db:success\nnot a list line\nweb:success");
                },
                _ => panic!("expected the stdout section"),
            }
            match &elements[1] {
                DetailElement::Section { title, parts } => {
                    assert_eq!(title, "Stderr (Not parsed)");
                    assert_eq!(parts[0].text, "errs");
                },
                _ => panic!("expected the stderr section"),
            }
        },
        _ => panic!("expected a formatted detail"),
    }
}

#[test]
fn decimal_rendering_and_parsing_round_trip() {
    assert_eq!(u64_to_string(0), "0");
    assert_eq!(u64_to_string(90125), "90125");
    assert_eq!(u64_to_string(u64::MAX), "18446744073709551615");
    assert_eq!(parse_u64("0"), Some(0));
    assert_eq!(parse_u64("90125"), Some(90125));
    assert_eq!(parse_u64("18446744073709551615"), Some(u64::MAX));
    assert_eq!(parse_u64("18446744073709551616"), None);
    assert_eq!(parse_u64(""), None);
    assert_eq!(parse_u64("12a"), None);
    assert_eq!(parse_u64(&u64_to_string(1670340125)), Some(1670340125));
}
