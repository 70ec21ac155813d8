use bughunter::document::{
    write_json_file_entry, write_json_report_to, write_json_to, write_multi_sarif_to,
    write_sarif_report_to, write_sarif_to,
};
use bughunter::options::{command_request, CommandRequest};
use bughunter::report::{all_file_results, FileRun, ResultSummary};
use bughunter::{apply, mutants, try_mutants, Mutant, MutantResult, MutantStatus, Operator};

fn inverse_of(source: &str, mutant: &Mutant) -> Mutant {
    let start = mutant.span_start as usize;
    let end = mutant.span_end as usize;
    Mutant {
        span_end: mutant.span_start + mutant.replacement.len() as u32,
        replacement: source[start..end].to_owned(),
        ..mutant.clone()
    }
}

fn run_of(file: &str, source: &str, statuses: &[MutantStatus]) -> FileRun {
    let found = mutants(source, file, &[Operator::LogicalAndToOr]);
    FileRun {
        file: file.to_owned(),
        source: source.to_owned(),
        results: statuses
            .iter()
            .zip(found)
            .map(|(status, mutant)| MutantResult {
                mutant,
                status: *status,
                detail: None,
            })
            .collect(),
    }
}

#[test]
fn applying_the_inverse_restores_the_source() {
    let source = "const é = ready === done && « ok »;\n";
    for mutant in mutants(source, "fixture.ts", &Operator::ALL) {
        let mutated = apply(source, &mutant);
        assert_ne!(mutated, source);
        assert_eq!(apply(&mutated, &inverse_of(source, &mutant)), source);
    }
}

#[test]
fn choosing_operators_filters_the_mutants_of_all_operators() {
    let source = "function f(a, b) { if (a > b && a !== 1 || b < 2) { return true; } return false; }\n";
    let all = try_mutants(source, "fixture.ts", &Operator::ALL).unwrap();
    for chosen in [
        vec![Operator::LogicalAndToOr],
        vec![Operator::ReturnFalseToTrue, Operator::CondBoundaryGt],
        vec![],
    ] {
        let expected = all
            .iter()
            .filter(|mutant| chosen.contains(&mutant.operator))
            .cloned()
            .collect::<Vec<_>>();
        assert_eq!(try_mutants(source, "fixture.ts", &chosen).unwrap(), expected);
    }
}

#[test]
fn a_file_entry_is_the_one_file_document_under_the_file_name() {
    let run = run_of(
        "src/a.ts",
        "const a = x && y;\nconst b = x && y;\n",
        &[MutantStatus::Killed, MutantStatus::Timeout],
    );
    let mut document = String::new();
    write_json_to(&run.file, &run.source, &run.results, "1", &mut document);
    let mut entry = String::new();
    write_json_file_entry(&mut entry, &run, "1");
    let body = document
        .strip_prefix("{\"schema_version\":2,")
        .unwrap()
        .strip_suffix('\n')
        .unwrap();
    assert_eq!(entry, format!("{{\"file\":\"src/a.ts\",{body}"));
}

#[test]
fn roll_up_equals_the_summary_of_all_results() {
    let runs = vec![
        run_of("src/a.ts", "const a = x && y;\n", &[MutantStatus::Killed]),
        run_of(
            "src/b.ts",
            "const a = x && y;\nconst b = x && y;\n",
            &[MutantStatus::Survived, MutantStatus::Error],
        ),
    ];
    let flattened = all_file_results(&runs);
    assert_eq!(flattened.len(), 3);
    assert_eq!(
        ResultSummary::from_file_runs(&runs),
        ResultSummary::from_results(&flattened)
    );
}

#[test]
fn one_file_runs_report_the_one_file_documents() {
    let runs = vec![run_of("src/a.ts", "const a = x && y;\n", &[MutantStatus::Survived])];
    let mut report = String::new();
    write_json_report_to(&runs, "0", &["0".to_owned()], &mut report);
    let mut single = String::new();
    write_json_to(&runs[0].file, &runs[0].source, &runs[0].results, "0", &mut single);
    assert_eq!(report, single);
    let mut sarif = String::new();
    write_sarif_report_to(&runs, "0.1.0", &mut sarif);
    let mut single_sarif = String::new();
    write_sarif_to(&runs[0].file, &runs[0].source, &runs[0].results, "0.1.0", &mut single_sarif);
    assert_eq!(sarif, single_sarif);
}

#[test]
fn several_file_runs_report_the_several_file_documents() {
    let runs = vec![
        run_of("src/a.ts", "const a = x && y;\n", &[MutantStatus::Survived]),
        run_of("src/b.ts", "const b = x && y;\n", &[MutantStatus::Killed]),
    ];
    let mut report = String::new();
    write_json_report_to(&runs, "0.5", &["0".to_owned(), "1".to_owned()], &mut report);
    assert!(report.contains("\"files\":["));
    let mut sarif = String::new();
    write_sarif_report_to(&runs, "0.1.0", &mut sarif);
    let mut multi = String::new();
    write_multi_sarif_to(&runs, "0.1.0", &mut multi);
    assert_eq!(sarif, multi);
}

#[test]
fn help_comes_before_version_and_run() {
    let arguments = |items: &[&str]| items.iter().map(|item| item.to_string()).collect::<Vec<_>>();
    assert_eq!(command_request(&arguments(&["run", "--version", "-h"])), CommandRequest::Help);
    assert_eq!(command_request(&arguments(&["help"])), CommandRequest::Help);
    assert_eq!(command_request(&arguments(&["run", "--version"])), CommandRequest::Version);
    assert_eq!(command_request(&arguments(&["run", "--json"])), CommandRequest::Run);
    assert_eq!(command_request(&arguments(&[])), CommandRequest::Run);
}
