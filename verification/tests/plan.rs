use bughunter::copying::{
    dependency_entry_action, is_node_modules_container, repository_entry_action, symlink_target,
    CopyAction, EntryKind,
};
use bughunter::options::{LineRange, RunOptions};
use bughunter::plan::{
    baseline_timeout_error, baseline_verdict, plan_mutants, report_order, wrapped_test_command,
    BaselineOutcome,
};
use bughunter::{Mutant, MutantResult, MutantStatus, Operator};

fn options() -> RunOptions {
    RunOptions {
        repository: "/work/repo".to_owned(),
        file: "src/ready.ts".to_owned(),
        operators: vec![Operator::LogicalAndToOr],
        test_command: "npm test".to_owned(),
        timeout_ms: 1500,
        concurrency: 1,
        line_range: None,
        sarif: None,
        skip_baseline: false,
        fail_on_survivors: false,
    }
}

fn result_at(span_start: u32, operator: Operator, status: MutantStatus) -> MutantResult {
    MutantResult {
        mutant: Mutant {
            line: 1,
            column: span_start + 1,
            operator,
            span_start,
            span_end: span_start + 2,
            replacement: operator.replacement().to_owned(),
        },
        status,
        detail: None,
    }
}

#[test]
fn planned_mutants_respect_the_line_range() {
    let source = "const a = x && y;\nconst b = x && y;\nconst c = x && y;\n";
    let planned = plan_mutants(
        source,
        "src/ready.ts",
        &[Operator::LogicalAndToOr],
        Some(LineRange { start: 2, end: 2 }),
    )
    .unwrap();
    assert_eq!(planned.len(), 1);
    assert_eq!(planned[0].line, 2);
    let all = plan_mutants(source, "src/ready.ts", &[Operator::LogicalAndToOr], None).unwrap();
    assert_eq!(all.len(), 3);
}

#[test]
fn an_unparseable_plan_reports_the_parse_failure() {
    let error = plan_mutants(
        "export function f(a: number) {\n",
        "broken.ts",
        &Operator::ALL,
        None,
    )
    .unwrap_err();
    assert!(error.starts_with("failed to parse broken.ts as TypeScript: "));
}

#[test]
fn test_commands_write_their_output_to_standard_error() {
    assert_eq!(wrapped_test_command("npm test"), "(npm test) 1>&2");
}

#[test]
fn a_passing_baseline_lets_the_mutants_run() {
    assert_eq!(
        baseline_verdict(
            &options(),
            BaselineOutcome::Exited {
                success: true,
                status: "exit status: 0".to_owned()
            }
        ),
        Ok(())
    );
}

#[test]
fn a_failing_baseline_stops_the_run() {
    assert_eq!(
        baseline_verdict(
            &options(),
            BaselineOutcome::Exited {
                success: false,
                status: "exit status: 1".to_owned()
            }
        ),
        Err("baseline test command failed with exit status: 1 in /work/repo; mutation results would be meaningless because every mutant would be reported killed. Fix the suite, or pass --skip-baseline to override".to_owned())
    );
}

#[test]
fn a_baseline_that_cannot_run_is_an_error() {
    assert_eq!(
        baseline_verdict(
            &options(),
            BaselineOutcome::SpawnFailed {
                error: "No such file or directory (os error 2)".to_owned()
            }
        ),
        Err("failed to run the baseline test command: No such file or directory (os error 2)".to_owned())
    );
    assert_eq!(
        baseline_verdict(&options(), BaselineOutcome::MissingProcessId),
        Err("failed to run the baseline test command: spawned command has no process identifier".to_owned())
    );
    assert_eq!(
        baseline_verdict(
            &options(),
            BaselineOutcome::WaitFailed {
                error: "interrupted".to_owned()
            }
        ),
        Err("failed to run the baseline test command: interrupted".to_owned())
    );
}

#[test]
fn a_hanging_baseline_names_the_timeout_and_both_overrides() {
    let error = baseline_verdict(
        &options(),
        BaselineOutcome::TimedOut {
            kill_error: None,
            wait_error: None,
        },
    )
    .unwrap_err();
    assert_eq!(
        error,
        "baseline test command timed out after 1500 ms in /work/repo; increase --timeout-ms or pass --skip-baseline to override"
    );
    assert!(error.contains("timed out"));
    assert!(error.contains("--timeout-ms"));
    assert!(error.contains("--skip-baseline"));
}

#[test]
fn baseline_timeouts_note_failed_cleanup() {
    assert_eq!(
        baseline_timeout_error(&options(), Some("denied".to_owned()), None),
        "baseline test command timed out after 1500 ms in /work/repo; increase --timeout-ms or pass --skip-baseline to override; process-group cleanup failed: denied"
    );
    assert_eq!(
        baseline_timeout_error(&options(), None, Some("gone".to_owned())),
        "baseline test command timed out after 1500 ms in /work/repo; increase --timeout-ms or pass --skip-baseline to override; child reap failed: gone"
    );
    assert_eq!(
        baseline_timeout_error(&options(), Some("denied".to_owned()), Some("gone".to_owned())),
        "baseline test command timed out after 1500 ms in /work/repo; increase --timeout-ms or pass --skip-baseline to override; process-group cleanup failed: denied; child reap failed: gone"
    );
}

#[test]
fn reports_list_results_by_span_start_then_operator() {
    let results = vec![
        result_at(9, Operator::LogicalAndToOr, MutantStatus::Killed),
        result_at(3, Operator::LogicalOrToAnd, MutantStatus::Survived),
        result_at(3, Operator::CondBoundaryGt, MutantStatus::Timeout),
        result_at(3, Operator::LogicalOrToAnd, MutantStatus::Error),
    ];
    let ordered = report_order(results);
    let keys = ordered
        .iter()
        .map(|result| (result.mutant.span_start, result.mutant.operator, result.status))
        .collect::<Vec<_>>();
    assert_eq!(
        keys,
        vec![
            (3, Operator::CondBoundaryGt, MutantStatus::Timeout),
            (3, Operator::LogicalOrToAnd, MutantStatus::Survived),
            (3, Operator::LogicalOrToAnd, MutantStatus::Error),
            (9, Operator::LogicalAndToOr, MutantStatus::Killed),
        ]
    );
}

#[test]
fn repository_entries_are_copied_except_git() {
    assert_eq!(repository_entry_action(".git", EntryKind::Directory), CopyAction::Skip);
    assert_eq!(repository_entry_action(".git", EntryKind::File), CopyAction::Skip);
    assert_eq!(
        repository_entry_action("node_modules", EntryKind::Directory),
        CopyAction::CopyDependencies
    );
    assert_eq!(repository_entry_action("src", EntryKind::Directory), CopyAction::CopyDirectory);
    assert_eq!(repository_entry_action("link", EntryKind::Symlink), CopyAction::CopySymlink);
    assert_eq!(repository_entry_action("a.ts", EntryKind::File), CopyAction::CopyFile);
    assert_eq!(repository_entry_action("fifo", EntryKind::Other), CopyAction::Skip);
}

#[test]
fn dependencies_are_linked_not_copied() {
    assert_eq!(dependency_entry_action("index.js", EntryKind::File, false), CopyAction::LinkOriginal);
    assert_eq!(dependency_entry_action("left-pad", EntryKind::Directory, false), CopyAction::LinkOriginal);
    assert_eq!(dependency_entry_action("@scope", EntryKind::Directory, false), CopyAction::CopyDependencies);
    assert_eq!(dependency_entry_action(".pnpm", EntryKind::Directory, false), CopyAction::CopyDependencies);
    assert_eq!(dependency_entry_action("pkg", EntryKind::Directory, true), CopyAction::CopyDependencies);
    assert_eq!(dependency_entry_action("name", EntryKind::Symlink, false), CopyAction::CopySymlink);
    assert!(is_node_modules_container("node_modules", false));
    assert!(!is_node_modules_container("lodash", false));
}

#[test]
fn links_into_the_repository_point_into_the_copy() {
    assert_eq!(
        symlink_target("/work/repo/packages/workspace", "/work/repo", "/tmp/copy"),
        "/tmp/copy/packages/workspace"
    );
    assert_eq!(
        symlink_target("/work/external", "/work/repo", "/tmp/copy"),
        "/work/external"
    );
    assert_eq!(
        symlink_target("/work/repository", "/work/repo", "/tmp/copy"),
        "/work/repository"
    );
    assert_eq!(symlink_target("/work/repo", "/work/repo", "/tmp/copy"), "/tmp/copy/");
}
