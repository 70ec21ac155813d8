use bughunter::document::{
    score_field, write_json_to, write_multi_json_to, write_multi_sarif_to, write_sarif_to,
};
use bughunter::report::{stable_mutant_id, FileRun, ResultSummary};
use bughunter::{mutants, try_mutants, Mutant, MutantResult, MutantStatus, Operator};

fn result(status: MutantStatus, detail: Option<&str>) -> MutantResult {
    MutantResult {
        mutant: Mutant {
            line: 1,
            column: 1,
            operator: Operator::LogicalAndToOr,
            span_start: 0,
            span_end: 2,
            replacement: "||".to_owned(),
        },
        status,
        detail: detail.map(str::to_owned),
    }
}

fn score_of(summary: &ResultSummary) -> Option<f64> {
    if summary.evaluated == 0 {
        None
    } else {
        Some(summary.killed as f64 / summary.evaluated as f64)
    }
}

fn ratio_text(summary: &ResultSummary) -> String {
    format!("{}", summary.killed as f64 / summary.evaluated as f64)
}

fn json_of(file: &str, source: &str, results: &[MutantResult]) -> String {
    let summary = ResultSummary::from_results(results);
    let mut output = String::new();
    write_json_to(file, source, results, &ratio_text(&summary), &mut output);
    output
}

fn survivor(mutant: Mutant) -> MutantResult {
    MutantResult {
        mutant,
        status: MutantStatus::Survived,
        detail: None,
    }
}

#[test]
fn unparseable_source_is_an_error_not_an_empty_result() {
    let broken = "export function f(a: number) {\n  if (a > 1) return true;\n";
    let failure = try_mutants(broken, "broken.ts", &Operator::ALL)
        .expect_err("a truncated file must not parse");
    assert!(failure.message().contains("failed to parse broken.ts"));
    assert!(!failure.diagnostics.is_empty());
}

#[test]
fn json_serialization_includes_details_only_when_present() {
    let results = [
        result(
            MutantStatus::Error,
            Some("could not execute: \"missing\"\n"),
        ),
        result(MutantStatus::Killed, None),
    ];

    let output = json_of("fixture.ts", "&&", &results);

    assert!(output.starts_with("{\"schema_version\":2,"));
    assert!(output.contains("\"id\":\""));
    assert!(output.contains("\"detail\":\"could not execute: \\\"missing\\\"\\n\""));
    assert_eq!(output.matches("\"detail\":").count(), 1);
}

#[test]
fn result_summary_reports_counts_and_score_for_mixed_statuses() {
    let results = [
        result(MutantStatus::Killed, None),
        result(MutantStatus::Killed, None),
        result(MutantStatus::Survived, None),
        result(MutantStatus::Timeout, None),
        result(MutantStatus::Error, Some("disk full")),
    ];
    let summary = ResultSummary::from_results(&results);

    assert_eq!(summary.total, 5);
    assert_eq!(summary.killed, 2);
    assert_eq!(summary.survived, 1);
    assert_eq!(summary.timeout, 1);
    assert_eq!(summary.error, 1);
    assert_eq!(summary.evaluated, 3);
    assert_eq!(score_of(&summary), Some(2.0 / 3.0));
    assert_eq!(
        summary.total,
        summary.killed + summary.survived + summary.timeout + summary.error
    );
    assert!(json_of("fixture.ts", "&&", &results).starts_with(
        "{\"schema_version\":2,\"total\":5,\"killed\":2,\"survived\":1,\"timeout\":1,\"error\":1,\"evaluated\":3,\"score\":0.6666666666666666,"
    ));
}

#[test]
fn result_summary_uses_null_score_when_no_mutants_were_evaluated() {
    let results = [
        result(MutantStatus::Timeout, None),
        result(MutantStatus::Error, Some("disk full")),
    ];
    let summary = ResultSummary::from_results(&results);

    let output = json_of("fixture.ts", "&&", &results);

    assert_eq!(summary.evaluated, 0);
    assert_eq!(score_of(&summary), None);
    assert!(output.contains("\"evaluated\":0,\"score\":null"));
}

#[test]
fn sarif_serialization_emits_one_result_for_a_surviving_mutant() {
    let source = "const ready = left && right;\n";
    let mutant = mutants(source, "src/ready.ts", &[Operator::LogicalAndToOr]).remove(0);
    let results = [survivor(mutant)];
    let mut output = String::new();

    write_sarif_to("src/ready.ts", source, &results, "0.1.0", &mut output);

    assert_eq!(output.matches("\"partialFingerprints\":").count(), 1);
    assert!(output.contains("\"ruleId\":\"logical-and-to-or\""));
    assert!(output.contains("\"bughunterMutantId/v1\":\""));
}

#[test]
fn sarif_serialization_omits_killed_mutants() {
    let source = "const ready = left && right;\n";
    let mutant = mutants(source, "src/ready.ts", &[Operator::LogicalAndToOr]).remove(0);
    let results = [MutantResult {
        mutant,
        status: MutantStatus::Killed,
        detail: None,
    }];
    let mut output = String::new();

    write_sarif_to("src/ready.ts", source, &results, "0.1.0", &mut output);

    assert!(output.contains("\"version\":\"2.1.0\""));
    assert!(output.contains("\"$schema\":\""));
    assert!(output.contains("\"rules\":[]"));
    assert!(output.contains("\"results\":[]"));
}

#[test]
fn same_operator_survivors_have_distinct_sarif_fingerprints() {
    let source = "const first = left && right;\nconst second = top && bottom;\n";
    let results = mutants(source, "src/ready.ts", &[Operator::LogicalAndToOr])
        .into_iter()
        .map(survivor)
        .collect::<Vec<_>>();
    let mut output = String::new();

    write_sarif_to("src/ready.ts", source, &results, "0.1.0", &mut output);

    let fingerprints = output
        .split("\"bughunterMutantId/v1\":\"")
        .skip(1)
        .map(|entry| entry.split('\"').next().unwrap())
        .collect::<Vec<_>>();
    assert_eq!(fingerprints.len(), 2);
    assert_ne!(fingerprints[0], fingerprints[1]);
}

#[test]
fn sarif_artifact_uris_are_relative() {
    let source = "const ready = left && right;\n";
    let mutant = mutants(source, "src/ready.ts", &[Operator::LogicalAndToOr]).remove(0);
    let results = [survivor(mutant)];
    let mut output = String::new();

    write_sarif_to("src/ready.ts", source, &results, "0.1.0", &mut output);

    assert!(output.contains("\"uri\":\"src/ready.ts\""));
    assert!(!output.contains("\"uri\":\"/"));
    assert!(!output.contains("Users"));
}

#[test]
fn same_operator_mutants_have_distinct_json_ids() {
    let source = "const first = left === right;\nconst second = top === bottom;\n";
    let results = mutants(
        source,
        "src/ready.ts",
        &[Operator::EqualityStrictToLooseNeg],
    )
    .into_iter()
    .map(|mutant| MutantResult {
        mutant,
        status: MutantStatus::Killed,
        detail: None,
    })
    .collect::<Vec<_>>();

    let output = json_of("src/ready.ts", source, &results);

    let ids = output
        .split("\"id\":\"")
        .skip(1)
        .map(|entry| entry.split('\"').next().unwrap())
        .collect::<Vec<_>>();
    assert_eq!(ids.len(), 2);
    assert_ne!(ids[0], ids[1]);
}

#[test]
fn stable_mutant_id_survives_a_line_shift() {
    let source = "const ready = left && right;\n";
    let shifted_source = "\n\nconst ready = left && right;\n";
    let original = mutants(source, "src/ready.ts", &[Operator::LogicalAndToOr]);
    let shifted = mutants(shifted_source, "src/ready.ts", &[Operator::LogicalAndToOr]);

    assert_ne!(original[0].line, shifted[0].line);
    assert_eq!(
        stable_mutant_id("src/ready.ts", source, &original[0], 1),
        stable_mutant_id("src/ready.ts", shifted_source, &shifted[0], 1)
    );
}

#[test]
fn different_operators_at_the_same_location_have_different_ids() {
    let source = "const ready = left && right;\n";
    let original = mutants(source, "src/ready.ts", &[Operator::LogicalAndToOr]);
    let same_location_different_operator = Mutant {
        operator: Operator::LogicalOrToAnd,
        replacement: "&&".to_owned(),
        ..original[0].clone()
    };

    assert_eq!(
        original[0].span_start,
        same_location_different_operator.span_start
    );
    assert_eq!(
        original[0].span_end,
        same_location_different_operator.span_end
    );
    assert_ne!(
        stable_mutant_id("src/ready.ts", source, &original[0], 1),
        stable_mutant_id(
            "src/ready.ts",
            source,
            &same_location_different_operator,
            1
        )
    );
}

#[test]
fn per_file_roll_up_counts_sum_to_the_overall_totals() {
    let file_runs = vec![
        FileRun {
            file: "src/first.ts".to_owned(),
            source: "const first = left && right;\n".to_owned(),
            results: vec![
                result(MutantStatus::Killed, None),
                result(MutantStatus::Survived, None),
            ],
        },
        FileRun {
            file: "src/second.ts".to_owned(),
            source: "const second = left && right;\n".to_owned(),
            results: vec![
                result(MutantStatus::Timeout, None),
                result(MutantStatus::Error, Some("disk full")),
            ],
        },
    ];
    let overall = ResultSummary::from_file_runs(&file_runs);
    let per_file = file_runs
        .iter()
        .map(|file_run| ResultSummary::from_results(&file_run.results))
        .collect::<Vec<_>>();

    assert_eq!(
        overall.total,
        per_file.iter().map(|summary| summary.total).sum::<usize>()
    );
    assert_eq!(
        overall.killed,
        per_file.iter().map(|summary| summary.killed).sum::<usize>()
    );
    assert_eq!(
        overall.survived,
        per_file.iter().map(|summary| summary.survived).sum::<usize>()
    );
    assert_eq!(
        overall.timeout,
        per_file.iter().map(|summary| summary.timeout).sum::<usize>()
    );
    assert_eq!(
        overall.error,
        per_file.iter().map(|summary| summary.error).sum::<usize>()
    );
    assert_eq!(
        overall.evaluated,
        per_file.iter().map(|summary| summary.evaluated).sum::<usize>()
    );
}

#[test]
fn multi_file_sarif_uses_relative_artifact_uris() {
    let first_source = "const first = left && right;\n";
    let second_source = "const second = top && bottom;\n";
    let first_mutant =
        mutants(first_source, "src/first.ts", &[Operator::LogicalAndToOr]).remove(0);
    let second_mutant =
        mutants(second_source, "src/second.ts", &[Operator::LogicalAndToOr]).remove(0);
    let file_runs = vec![
        FileRun {
            file: "src/first.ts".to_owned(),
            source: first_source.to_owned(),
            results: vec![survivor(first_mutant)],
        },
        FileRun {
            file: "src/second.ts".to_owned(),
            source: second_source.to_owned(),
            results: vec![survivor(second_mutant)],
        },
    ];
    let mut output = String::new();

    write_multi_sarif_to(&file_runs, "0.1.0", &mut output);

    assert!(output.contains("\"uri\":\"src/first.ts\""));
    assert!(output.contains("\"uri\":\"src/second.ts\""));
    assert!(!output.contains("\"uri\":\"/"));
}

#[test]
fn multi_file_json_lists_each_file_with_its_own_counts() {
    let file_runs = vec![
        FileRun {
            file: "src/first.ts".to_owned(),
            source: "const first = left && right;\n".to_owned(),
            results: vec![result(MutantStatus::Killed, None)],
        },
        FileRun {
            file: "src/second.ts".to_owned(),
            source: "const second = left && right;\n".to_owned(),
            results: vec![result(MutantStatus::Survived, None)],
        },
    ];
    let file_scores = vec!["1".to_owned(), "0".to_owned()];
    let mut output = String::new();

    write_multi_json_to(&file_runs, "0.5", &file_scores, &mut output);

    assert!(output.starts_with(
        "{\"schema_version\":2,\"total\":2,\"killed\":1,\"survived\":1,\"timeout\":0,\"error\":0,\"evaluated\":2,\"score\":0.5,\"files\":["
    ));
    assert!(output.contains("{\"file\":\"src/first.ts\",\"total\":1,\"killed\":1,"));
    assert!(output.contains("{\"file\":\"src/second.ts\",\"total\":1,\"killed\":0,"));
    assert!(output.ends_with("]}\n"));
}

#[test]
fn json_strings_escape_quotes_backslashes_and_control_characters() {
    let results = [result(MutantStatus::Error, Some("a\"b\\c\u{8}d\u{c}e\rf\tg"))];

    let output = json_of("fixture.ts", "&&", &results);

    assert!(output.contains("\"detail\":\"a\\\"b\\\\c\\bd\\fe\\rf\\tg\""));
}

#[test]
fn the_score_is_null_exactly_when_nothing_was_evaluated() {
    let unevaluated = ResultSummary::from_results(&[result(MutantStatus::Timeout, None)]);
    assert_eq!(score_field(&unevaluated, "NaN"), "null");
    let evaluated = ResultSummary::from_results(&[result(MutantStatus::Killed, None)]);
    assert_eq!(score_field(&evaluated, "1"), "1");

    let file_runs = vec![
        FileRun {
            file: "src/first.ts".to_owned(),
            source: "const first = left && right;\n".to_owned(),
            results: vec![result(MutantStatus::Error, Some("disk full"))],
        },
        FileRun {
            file: "src/second.ts".to_owned(),
            source: "const second = left && right;\n".to_owned(),
            results: vec![result(MutantStatus::Killed, None)],
        },
    ];
    let mut output = String::new();
    write_multi_json_to(&file_runs, "1", &["NaN".to_owned(), "1".to_owned()], &mut output);
    assert!(output.contains("\"evaluated\":1,\"score\":1,\"files\":["));
    assert!(output.contains("\"file\":\"src/first.ts\",\"total\":1,\"killed\":0,\"survived\":0,\"timeout\":0,\"error\":1,\"evaluated\":0,\"score\":null,"));
    assert!(output.contains("\"file\":\"src/second.ts\",\"total\":1,\"killed\":1,\"survived\":0,\"timeout\":0,\"error\":0,\"evaluated\":1,\"score\":1,"));
}
