use bughunter::options::{
    exit_code_for_results, parse_line_range, parse_run_arguments, select_line_range, LineRange, USAGE,
};
use bughunter::{mutants, Mutant, MutantResult, MutantStatus, Operator};

#[test]
fn unknown_operator_is_an_error() {
    let result = parse_run_arguments(vec![
        "run".to_owned(),
        "--repo".to_owned(),
        "fixture".to_owned(),
        "--file".to_owned(),
        "source.ts".to_owned(),
        "--operators".to_owned(),
        "not-an-operator".to_owned(),
        "--test".to_owned(),
        "true".to_owned(),
        "--json".to_owned(),
    ]);
    assert!(matches!(
        result,
        Err(message) if message == "unknown operator not-an-operator"
    ));
}

#[test]
fn line_range_keeps_both_inclusive_boundaries() {
    let source = "\nconst lower = left && right;\nconst upper = left && right;\n";
    let selected = select_line_range(
        mutants(source, "fixture.ts", &[Operator::LogicalAndToOr]),
        Some(LineRange { start: 2, end: 3 }),
    );
    assert_eq!(
        selected
            .iter()
            .map(|mutant| mutant.line)
            .collect::<Vec<_>>(),
        vec![2, 3]
    );
}

#[test]
fn line_range_drops_mutants_outside_the_boundaries() {
    let source = "const before = left && right;\nconst inside = left && right;\nconst after = left && right;\n";
    let selected = select_line_range(
        mutants(source, "fixture.ts", &[Operator::LogicalAndToOr]),
        Some(LineRange { start: 2, end: 2 }),
    );
    assert_eq!(
        selected
            .iter()
            .map(|mutant| mutant.line)
            .collect::<Vec<_>>(),
        vec![2]
    );
}

#[test]
fn usage_lists_every_operator_and_status() {
    for operator in Operator::ALL {
        assert!(USAGE.contains(operator.id()), "{}", operator.id());
    }
    for status in ["killed", "survived", "timeout", "error"] {
        assert!(USAGE.contains(status), "{status}");
    }
}

#[test]
fn skip_baseline_defaults_to_off_and_is_opt_in() {
    let base = vec![
        "run".to_owned(),
        "--repo".to_owned(),
        "fixture".to_owned(),
        "--file".to_owned(),
        "source.ts".to_owned(),
        "--operators".to_owned(),
        "logical-and-to-or".to_owned(),
        "--test".to_owned(),
        "true".to_owned(),
        "--json".to_owned(),
    ];
    assert!(!parse_run_arguments(base.clone()).unwrap().skip_baseline);
    let mut opted_in = base;
    opted_in.push("--skip-baseline".to_owned());
    assert!(parse_run_arguments(opted_in).unwrap().skip_baseline);
}

#[test]
fn malformed_line_ranges_are_errors() {
    for value in ["not-a-range", "0-1", "4-3"] {
        assert!(parse_line_range(value).is_err(), "{value}");
    }
}

#[test]
fn sarif_and_json_options_compose() {
    let result = parse_run_arguments(vec![
        "run".to_owned(),
        "--repo".to_owned(),
        "fixture".to_owned(),
        "--file".to_owned(),
        "source.ts".to_owned(),
        "--operators".to_owned(),
        "logical-and-to-or".to_owned(),
        "--test".to_owned(),
        "true".to_owned(),
        "--json".to_owned(),
        "--sarif".to_owned(),
        "results.sarif".to_owned(),
    ])
    .unwrap();

    assert_eq!(result.sarif, Some("results.sarif".to_owned()));
}

#[test]
fn survivors_with_the_flag_exit_two() {
    assert_eq!(
        exit_code_for_results(true, &[result(MutantStatus::Survived, None)]),
        2
    );
}

#[test]
fn survivors_without_the_flag_exit_zero() {
    assert_eq!(
        exit_code_for_results(false, &[result(MutantStatus::Survived, None)]),
        0
    );
}

#[test]
fn all_errors_with_the_flag_exit_three() {
    assert_eq!(
        exit_code_for_results(
            true,
            &[
                result(MutantStatus::Error, Some("command unavailable")),
                result(MutantStatus::Error, Some("disk full")),
            ],
        ),
        3
    );
}

#[test]
fn all_timeouts_with_the_flag_exit_three() {
    assert_eq!(
        exit_code_for_results(
            true,
            &[
                result(MutantStatus::Timeout, None),
                result(MutantStatus::Timeout, None),
            ],
        ),
        3
    );
}

#[test]
fn survivor_takes_precedence_over_an_error() {
    assert_eq!(
        exit_code_for_results(
            true,
            &[
                result(MutantStatus::Survived, None),
                result(MutantStatus::Error, Some("command unavailable")),
            ],
        ),
        2
    );
}

#[test]
fn all_errors_without_the_flag_exit_zero() {
    assert_eq!(
        exit_code_for_results(
            false,
            &[result(MutantStatus::Error, Some("command unavailable"))],
        ),
        0
    );
}

#[test]
fn no_survivors_with_the_flag_exit_zero() {
    assert_eq!(
        exit_code_for_results(true, &[result(MutantStatus::Killed, None)]),
        0
    );
}

fn result(status: MutantStatus, detail: Option<&str>) -> MutantResult {
    MutantResult {
        mutant: Mutant {
            line: 1,
            column: 1,
            operator: Operator::LogicalAndToOr,
            span_start: 0,
            span_end: 2,
            replacement: "||".to_owned(),
        },
        status,
        detail: detail.map(str::to_owned),
    }
}
