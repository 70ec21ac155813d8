use std::time::Duration;

use bughunter::finder::position_at;
use bughunter::mutant::splice;
use bughunter::options::{
    is_relative_selector, parse_line_range, parse_operators, parse_positive_u64,
    parse_positive_usize, parse_run_arguments, LineRange,
};
use bughunter::report::{operator_occurrence_index, status_id, surviving_operators};
use bughunter::runner::{
    after_cleanup, count_status, error_result, judge_outcome, replace_mutant, sorted_results,
    text_precedes, timeout_detail, unrunnable_results, CommandOutcome,
};
use bughunter::{
    apply, killed_count, Mutant, MutantResult, MutantStatus, Operator, ParseFailure, Runner,
    RunnerConfig,
};

fn mutant(span_start: u32) -> Mutant {
    Mutant {
        line: 1,
        column: span_start + 1,
        operator: Operator::LogicalAndToOr,
        span_start,
        span_end: span_start + 1,
        replacement: "x".to_owned(),
    }
}

fn result(status: MutantStatus) -> MutantResult {
    MutantResult {
        mutant: mutant(0),
        status,
        detail: None,
    }
}

fn arguments(extra: &[&str]) -> Vec<String> {
    let mut all = vec![
        "run", "--repo", "fixture", "--file", "source.ts", "--operators", "logical-and-to-or",
        "--test", "true", "--json",
    ];
    all.extend_from_slice(extra);
    all.into_iter().map(str::to_owned).collect()
}

#[test]
fn a_passing_command_survives_and_a_failing_one_kills() {
    let survived = judge_outcome(
        mutant(0),
        CommandOutcome::Exited {
            success: true,
            code: Some(0),
        },
    );
    assert_eq!(survived.status, MutantStatus::Survived);
    assert_eq!(survived.detail, None);
    let killed = judge_outcome(
        mutant(0),
        CommandOutcome::Exited {
            success: false,
            code: Some(1),
        },
    );
    assert_eq!(killed.status, MutantStatus::Killed);
    let signalled = judge_outcome(
        mutant(0),
        CommandOutcome::Exited {
            success: false,
            code: None,
        },
    );
    assert_eq!(signalled.status, MutantStatus::Killed);
}

#[test]
fn a_missing_command_is_an_error_not_a_kill() {
    let missing = judge_outcome(
        mutant(0),
        CommandOutcome::Exited {
            success: false,
            code: Some(127),
        },
    );
    assert_eq!(missing.status, MutantStatus::Error);
    assert_eq!(missing.detail, Some("test command could not be executed".to_owned()));
    let unstarted = judge_outcome(
        mutant(0),
        CommandOutcome::SpawnFailed {
            error: "permission denied".to_owned(),
        },
    );
    assert_eq!(unstarted.status, MutantStatus::Error);
    assert_eq!(unstarted.detail, Some("permission denied".to_owned()));
    let anonymous = judge_outcome(mutant(0), CommandOutcome::MissingProcessId);
    assert_eq!(
        anonymous.detail,
        Some("spawned command has no process identifier".to_owned())
    );
}

#[test]
fn a_timed_out_command_is_a_timeout_with_its_cleanup_notes() {
    let clean = judge_outcome(
        mutant(0),
        CommandOutcome::TimedOut {
            kill_error: None,
            wait_error: None,
        },
    );
    assert_eq!(clean.status, MutantStatus::Timeout);
    assert_eq!(clean.detail, None);
    assert_eq!(
        timeout_detail(Some("denied".to_owned()), Some("gone".to_owned())),
        Some("process-group cleanup failed: denied; child reap failed: gone".to_owned())
    );
    assert_eq!(
        timeout_detail(None, Some("gone".to_owned())),
        Some("child reap failed: gone".to_owned())
    );
}

#[test]
fn failed_cleanup_is_noted_on_errors_only() {
    let error = error_result(mutant(0), "disk full");
    let noted = after_cleanup(error, Some("busy".to_owned()));
    assert_eq!(
        noted.detail,
        Some("disk full; failed to remove materialized tree: busy".to_owned())
    );
    let survived = after_cleanup(result(MutantStatus::Survived), Some("busy".to_owned()));
    assert_eq!(survived.detail, None);
    assert_eq!(survived.status, MutantStatus::Survived);
}

#[test]
fn replacing_a_mutant_splices_its_byte_span() {
    let mut first = mutant(1);
    first.replacement = "XY".to_owned();
    assert_eq!(replace_mutant("abcdef", &first), Ok("aXYcdef".to_owned()));
    let outside = mutant(10);
    assert_eq!(
        replace_mutant("abcdef", &outside),
        Err("mutant byte span is outside source text or splits UTF-8".to_owned())
    );
    let inside_a_character = mutant(1);
    assert!(replace_mutant("é", &inside_a_character).is_err());
}

#[test]
fn apply_leaves_the_source_alone_for_an_invalid_span() {
    assert_eq!(apply("abc", &mutant(7)), "abc");
    assert_eq!(apply("abc", &mutant(1)), "axc");
    assert_eq!(splice("héllo", 1, 3, "e"), Some("hello".to_owned()));
    assert_eq!(splice("héllo", 1, 2, "e"), None);
}

#[test]
fn results_are_listed_by_span_operator_and_replacement() {
    let mut late = mutant(5);
    late.replacement = "b".to_owned();
    let mut early_b = mutant(2);
    early_b.replacement = "b".to_owned();
    let mut early_a = mutant(2);
    early_a.replacement = "a".to_owned();
    let listed = sorted_results(vec![
        error_result(late, "x"),
        error_result(early_b, "y"),
        error_result(early_a, "z"),
    ]);
    let order = listed
        .iter()
        .map(|result| (result.mutant.span_start, result.mutant.replacement.clone()))
        .collect::<Vec<_>>();
    assert_eq!(
        order,
        vec![(2, "a".to_owned()), (2, "b".to_owned()), (5, "b".to_owned())]
    );
}

#[test]
fn zero_concurrency_makes_every_mutant_an_error() {
    let results = unrunnable_results(&[mutant(4), mutant(1)]);
    assert_eq!(results.len(), 2);
    assert_eq!(results[0].mutant.span_start, 1);
    for result in &results {
        assert_eq!(result.status, MutantStatus::Error);
        assert_eq!(
            result.detail,
            Some("concurrency must be greater than zero".to_owned())
        );
    }
}

#[test]
fn killed_count_counts_only_killed_results() {
    let results = [
        result(MutantStatus::Killed),
        result(MutantStatus::Survived),
        result(MutantStatus::Killed),
        result(MutantStatus::Error),
    ];
    assert_eq!(killed_count(&results), 2);
    assert_eq!(count_status(&results, MutantStatus::Error), 1);
    assert_eq!(killed_count(&[]), 0);
}

#[test]
fn a_runner_keeps_its_configuration() {
    let runner = Runner::new(RunnerConfig::new(
        "/repo",
        "src/a.ts",
        "(npm test) 1>&2",
        Duration::from_millis(250),
        3,
    ));
    let configuration = runner.configuration_ref();
    assert_eq!(configuration.repository, "/repo");
    assert_eq!(configuration.source_file, "src/a.ts");
    assert_eq!(configuration.test_command, "(npm test) 1>&2");
    assert_eq!(configuration.timeout, Duration::from_millis(250));
    assert_eq!(configuration.concurrency, 3);
}

#[test]
fn operator_ids_round_trip() {
    for operator in Operator::ALL {
        assert_eq!(Operator::from_id(operator.id()), Some(operator));
    }
    assert_eq!(Operator::from_id("logical-and-to-or"), Some(Operator::LogicalAndToOr));
    assert_eq!(Operator::from_id("not-an-operator"), None);
    assert_eq!(Operator::CondBoundaryGt.target(), ">");
    assert_eq!(Operator::CondBoundaryGt.replacement(), ">=");
    assert!(Operator::CondBoundaryGt.precedes(Operator::ReturnFalseToTrue));
    assert!(!Operator::ReturnFalseToTrue.precedes(Operator::CondBoundaryGt));
}

#[test]
fn positions_count_lines_and_characters() {
    assert_eq!(position_at("a\nbc".as_bytes(), 3), (2, 2));
    assert_eq!(position_at("é = x".as_bytes(), 3), (1, 3));
    assert_eq!(position_at("".as_bytes(), 0), (1, 1));
}

#[test]
fn parse_failures_name_the_file_and_every_diagnostic() {
    let failure = ParseFailure {
        path: "a.ts".to_owned(),
        diagnostics: vec!["first".to_owned(), "second".to_owned()],
    };
    assert_eq!(
        failure.message(),
        "failed to parse a.ts as TypeScript: first; second"
    );
}

#[test]
fn positive_numbers_reject_zero_and_text() {
    assert_eq!(parse_positive_u64("250", "--timeout-ms"), Ok(250));
    assert_eq!(parse_positive_u64("+5", "--timeout-ms"), Ok(5));
    assert_eq!(
        parse_positive_u64("0", "--timeout-ms"),
        Err("--timeout-ms must be a positive integer".to_owned())
    );
    assert_eq!(
        parse_positive_u64("18446744073709551616", "--timeout-ms"),
        Err("--timeout-ms must be a positive integer".to_owned())
    );
    assert_eq!(
        parse_positive_usize("two", "--concurrency"),
        Err("--concurrency must be a positive integer".to_owned())
    );
}

#[test]
fn line_ranges_parse_inclusive_bounds() {
    assert_eq!(parse_line_range("3-7"), Ok(LineRange { start: 3, end: 7 }));
    assert_eq!(parse_line_range("4-4"), Ok(LineRange { start: 4, end: 4 }));
    assert_eq!(
        parse_line_range("x"),
        Err("invalid line range \"x\"; expected START-END".to_owned())
    );
    assert_eq!(
        parse_line_range("0-1"),
        Err("invalid line range \"0-1\"; expected 1 <= START <= END".to_owned())
    );
    assert_eq!(
        parse_line_range("1-9007199254740992"),
        Err("invalid line range \"1-9007199254740992\"; expected 1 <= START <= END".to_owned())
    );
}

#[test]
fn operator_lists_stop_at_the_first_unknown_id() {
    assert_eq!(
        parse_operators("logical-and-to-or,cond-boundary-gt"),
        Ok(vec![Operator::LogicalAndToOr, Operator::CondBoundaryGt])
    );
    assert_eq!(
        parse_operators("logical-and-to-or,,x"),
        Err("unknown operator ".to_owned())
    );
}

#[test]
fn selectors_must_be_relative_without_parent_pieces() {
    assert!(is_relative_selector("src/a.ts"));
    assert!(is_relative_selector("src/**/*.ts"));
    assert!(!is_relative_selector(""));
    assert!(!is_relative_selector("/abs/a.ts"));
    assert!(!is_relative_selector("src/../a.ts"));
}

#[test]
fn run_arguments_report_what_is_missing_or_unknown() {
    let without_json = arguments(&[])
        .into_iter()
        .filter(|argument| argument != "--json")
        .collect::<Vec<_>>();
    assert_eq!(parse_run_arguments(without_json).unwrap_err(), "--json is required");
    assert_eq!(
        parse_run_arguments(arguments(&["--bogus"])).unwrap_err(),
        "unknown argument --bogus"
    );
    assert_eq!(
        parse_run_arguments(arguments(&["--timeout-ms"])).unwrap_err(),
        "--timeout-ms requires a non-empty value"
    );
    assert_eq!(
        parse_run_arguments(vec!["walk".to_owned()]).unwrap_err(),
        "expected the run command; try bughunter --help"
    );
    let parsed = parse_run_arguments(arguments(&[
        "--timeout-ms",
        "250",
        "--concurrency",
        "2",
        "--line-range",
        "1-3",
        "--fail-on-survivors",
    ]))
    .unwrap();
    assert_eq!(parsed.timeout_ms, 250);
    assert_eq!(parsed.concurrency, 2);
    assert_eq!(parsed.line_range, Some(LineRange { start: 1, end: 3 }));
    assert!(parsed.fail_on_survivors);
    let defaults = parse_run_arguments(arguments(&[])).unwrap();
    assert_eq!(defaults.timeout_ms, 30000);
    assert_eq!(defaults.concurrency, 4);
}

#[test]
fn report_helpers_name_statuses_and_survivors() {
    assert_eq!(status_id(MutantStatus::Killed), "killed");
    assert_eq!(status_id(MutantStatus::Timeout), "timeout");
    let mut other = result(MutantStatus::Survived);
    other.mutant.operator = Operator::CondBoundaryLt;
    let results = [
        result(MutantStatus::Survived),
        result(MutantStatus::Killed),
        other,
        result(MutantStatus::Survived),
    ];
    assert_eq!(
        surviving_operators(&results),
        vec![Operator::LogicalAndToOr, Operator::CondBoundaryLt]
    );
    let generated = [mutant(0), mutant(3), mutant(6)];
    assert_eq!(operator_occurrence_index(&generated, &mutant(3)), 2);
    assert_eq!(operator_occurrence_index(&generated, &mutant(9)), 0);
}
