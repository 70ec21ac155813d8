//! What a run does around the mutants of each file: the mutants it plans,
//! the shell command it runs, what the baseline run of the test command
//! says, and the order in which a file's results are reported.

use vstd::prelude::*;
use vstd::utf8::*;

use crate::finder::{mutants_of, try_mutants};
use crate::mutant::{parse_failure_message, text_views, Mutant, MutantView};
use crate::operator::operator_rank;
use crate::operator::Operator;
use crate::options::{select_line_range, within_lines, LineRange, RunOptions};
use crate::order::{
    insert_ordered, is_key_order, is_ordered, lemma_insert_at, lemma_sort_ordered_is_ordered,
    lemma_sort_ordered_multiset, sort_ordered,
};
use crate::runner::{optional_text, timeout_detail, timeout_note, MutantResult, ResultView};
use crate::syntax::typescript_scan;
use crate::text::{decimal, decimal_text, joined2, joined3};

verus! {

/// The mutants planned for a file: those of the enabled operators on lines
/// within the range, or the parse failure's message when the source does not
/// parse.
pub open spec fn planned_mutants(
    source: Seq<char>,
    file: Seq<char>,
    operators: Seq<Operator>,
    line_range: Option<LineRange>,
) -> Result<Seq<MutantView>, Seq<char>> {
    let scan = typescript_scan(source, file);
    if scan.diagnostics.len() == 0 {
        Ok(
            within_lines(
                mutants_of(encode_utf8(source), scan.tokens, scan.sites, operators),
                line_range,
            ),
        )
    } else {
        Err(parse_failure_message(file, scan.diagnostics))
    }
}

/// The mutants to run for a file's source.
pub fn plan_mutants(
    source: &str,
    file: &str,
    operators: &[Operator],
    line_range: Option<LineRange>,
) -> (planned: Result<Vec<Mutant>, String>)
    ensures
        planned matches Ok(found) ==> planned_mutants(source@, file@, operators@, line_range)
            == Ok::<Seq<MutantView>, Seq<char>>(found.deep_view()),
        planned matches Err(message) ==> planned_mutants(source@, file@, operators@, line_range)
            == Err::<Seq<MutantView>, Seq<char>>(message@),
{
    match try_mutants(source, file, operators) {
        Ok(found) => Ok(select_line_range(found, line_range)),
        Err(failure) => {
            let message = failure.message();
            proof {
                assert(text_views(failure.diagnostics@) =~= failure.diagnostics.deep_view());
            }
            Err(message)
        },
    }
}

/// The shell command run for each mutant and for the baseline: the test
/// command in a subshell whose standard output goes to standard error, so
/// that standard output carries only the report.
pub open spec fn wrapped_command(test_command: Seq<char>) -> Seq<char> {
    "("@ + test_command + ") 1>&2"@
}

/// The shell command run for a test command.
pub fn wrapped_test_command(test_command: &str) -> (command: String)
    ensures
        command@ == wrapped_command(test_command@),
{
    joined3("(", test_command, ") 1>&2")
}

/// How the baseline run of the test command ended.
pub enum BaselineOutcome {
    /// The command could not be started.
    SpawnFailed { error: String },
    /// The started command had no process identifier.
    MissingProcessId,
    /// The command exited: whether it succeeded, and its exit status as
    /// rendered.
    Exited { success: bool, status: String },
    /// Waiting for the command failed.
    WaitFailed { error: String },
    /// The command ran past the timeout; its process group was killed. What
    /// went wrong in killing and reaping it, if anything.
    TimedOut { kill_error: Option<String>, wait_error: Option<String> },
}

/// A baseline outcome with its texts as character sequences.
pub enum BaselineView {
    SpawnFailed { error: Seq<char> },
    MissingProcessId,
    Exited { success: bool, status: Seq<char> },
    WaitFailed { error: Seq<char> },
    TimedOut { kill_error: Option<Seq<char>>, wait_error: Option<Seq<char>> },
}

impl View for BaselineOutcome {
    type V = BaselineView;

    open spec fn view(&self) -> BaselineView {
        match self {
            BaselineOutcome::SpawnFailed { error } => BaselineView::SpawnFailed { error: error@ },
            BaselineOutcome::MissingProcessId => BaselineView::MissingProcessId,
            BaselineOutcome::Exited { success, status } => BaselineView::Exited {
                success: *success,
                status: status@,
            },
            BaselineOutcome::WaitFailed { error } => BaselineView::WaitFailed { error: error@ },
            BaselineOutcome::TimedOut { kill_error, wait_error } => BaselineView::TimedOut {
                kill_error: optional_text(*kill_error),
                wait_error: optional_text(*wait_error),
            },
        }
    }
}

/// The message of a baseline run that did not finish in time.
pub open spec fn baseline_timeout_message(
    repository: Seq<char>,
    timeout_ms: u64,
    kill_error: Option<Seq<char>>,
    wait_error: Option<Seq<char>>,
) -> Seq<char> {
    "baseline test command timed out after "@ + decimal(timeout_ms as nat) + " ms in "@
        + repository + "; increase --timeout-ms or pass --skip-baseline to override"@
        + match timeout_note(kill_error, wait_error) {
        Some(note) => "; "@ + note,
        None => Seq::<char>::empty(),
    }
}

/// The message of a baseline run that did not finish in time, with what
/// went wrong in killing and reaping it.
pub fn baseline_timeout_error(
    options: &RunOptions,
    cleanup_detail: Option<String>,
    wait_detail: Option<String>,
) -> (message: String)
    ensures
        message@ == baseline_timeout_message(
            options.repository@,
            options.timeout_ms,
            optional_text(cleanup_detail),
            optional_text(wait_detail),
        ),
{
    let milliseconds = decimal_text(options.timeout_ms);
    let mut message = joined2("baseline test command timed out after ", milliseconds.as_str());
    message.append(" ms in ");
    message.append(options.repository.as_str());
    message.append("; increase --timeout-ms or pass --skip-baseline to override");
    match timeout_detail(cleanup_detail, wait_detail) {
        Some(note) => {
            message.append("; ");
            message.append(note.as_str());
        },
        None => {},
    }
    message
}

/// The message of a baseline run that could not be started or waited for.
pub open spec fn baseline_not_run_message(error: Seq<char>) -> Seq<char> {
    "failed to run the baseline test command: "@ + error
}

/// The message of a baseline run that failed.
pub open spec fn baseline_failed_message(status: Seq<char>, repository: Seq<char>) -> Seq<char> {
    "baseline test command failed with "@ + status + " in "@ + repository
        + "; mutation results would be meaningless because every mutant would be reported killed. Fix the suite, or pass --skip-baseline to override"@
}

/// What the baseline check answers: nothing when the test command passed
/// on the unmutated repository, else the message that stops the run.
pub open spec fn baseline_judged(
    repository: Seq<char>,
    timeout_ms: u64,
    outcome: BaselineView,
) -> Option<Seq<char>> {
    match outcome {
        BaselineView::SpawnFailed { error } => Some(baseline_not_run_message(error)),
        BaselineView::MissingProcessId => Some(
            baseline_not_run_message("spawned command has no process identifier"@),
        ),
        BaselineView::Exited { success, status } => if success {
            None
        } else {
            Some(baseline_failed_message(status, repository))
        },
        BaselineView::WaitFailed { error } => Some(baseline_not_run_message(error)),
        BaselineView::TimedOut { kill_error, wait_error } => Some(
            baseline_timeout_message(repository, timeout_ms, kill_error, wait_error),
        ),
    }
}

/// The baseline lets the mutants run exactly when the test command exited
/// successfully; a failure, a timeout, or a command that could not be
/// started or waited for stops the run.
pub proof fn lemma_baseline_passes_only_on_success(
    repository: Seq<char>,
    timeout_ms: u64,
    outcome: BaselineView,
)
    ensures
        baseline_judged(repository, timeout_ms, outcome) is None <==> (outcome matches BaselineView::Exited {
            success,
            ..
        } && success),
{
}

/// Whether the baseline run lets the mutants run, and if not, why.
pub fn baseline_verdict(options: &RunOptions, outcome: BaselineOutcome) -> (verdict: Result<
    (),
    String,
>)
    ensures
        verdict is Ok <==> baseline_judged(options.repository@, options.timeout_ms, outcome@)
            is None,
        verdict matches Err(message) ==> baseline_judged(
            options.repository@,
            options.timeout_ms,
            outcome@,
        ) == Some(message@),
{
    match outcome {
        BaselineOutcome::SpawnFailed { error } => Err(
            joined2("failed to run the baseline test command: ", error.as_str()),
        ),
        BaselineOutcome::MissingProcessId => Err(
            joined2(
                "failed to run the baseline test command: ",
                "spawned command has no process identifier",
            ),
        ),
        BaselineOutcome::Exited { success, status } => {
            if success {
                Ok(())
            } else {
                let mut message = joined3(
                    "baseline test command failed with ",
                    status.as_str(),
                    " in ",
                );
                message.append(options.repository.as_str());
                message.append(
                    "; mutation results would be meaningless because every mutant would be reported killed. Fix the suite, or pass --skip-baseline to override",
                );
                Err(message)
            }
        },
        BaselineOutcome::WaitFailed { error } => Err(
            joined2("failed to run the baseline test command: ", error.as_str()),
        ),
        BaselineOutcome::TimedOut { kill_error, wait_error } => Err(
            baseline_timeout_error(options, kill_error, wait_error),
        ),
    }
}

/// Whether `first` is reported before `second`: by span start, then
/// operator.
pub open spec fn reported_before(first: ResultView, second: ResultView) -> bool {
    ||| first.mutant.span_start < second.mutant.span_start
    ||| first.mutant.span_start == second.mutant.span_start && operator_rank(first.mutant.operator)
        < operator_rank(second.mutant.operator)
}

/// The report order of a file's results.
pub open spec fn by_report() -> spec_fn(ResultView, ResultView) -> bool {
    |first: ResultView, second: ResultView| reported_before(first, second)
}

/// The report order compares keys.
pub proof fn lemma_by_report_is_key_order()
    ensures
        is_key_order(by_report()),
{
}

fn insert_by_report(listed: &mut Vec<MutantResult>, result: MutantResult)
    ensures
        final(listed).deep_view() == insert_ordered(old(listed).deep_view(), result@, by_report()),
{
    let ghost before = listed.deep_view();
    let mut position = listed.len();
    while position > 0 && (result.mutant.span_start < listed[position - 1].mutant.span_start || (
    result.mutant.span_start == listed[position - 1].mutant.span_start
        && result.mutant.operator.precedes(listed[position - 1].mutant.operator)))
        invariant
            position <= listed.len(),
            before == listed.deep_view(),
            forall|j: int|
                position <= j < before.len() ==> reported_before(result@, #[trigger] before[j]),
        decreases position,
    {
        proof {
            assert(before[position - 1] == listed@[position - 1]@);
        }
        position -= 1;
    }
    proof {
        if position > 0 {
            assert(before[position - 1] == listed@[position - 1]@);
        }
        lemma_insert_at(before, result@, by_report(), position as int);
    }
    let ghost view = result@;
    listed.insert(position, result);
    assert(listed.deep_view() =~= before.insert(position as int, view));
}

/// A file's results in report order: by span start, then operator, ties
/// keeping their order.
pub fn report_order(results: Vec<MutantResult>) -> (ordered: Vec<MutantResult>)
    ensures
        ordered.deep_view() == sort_ordered(results.deep_view(), by_report()),
        is_ordered(ordered.deep_view(), by_report()),
        ordered.deep_view().to_multiset() == results.deep_view().to_multiset(),
{
    let ghost views = results.deep_view();
    let mut ordered: Vec<MutantResult> = Vec::new();
    let mut index: usize = 0;
    while index < results.len()
        invariant
            views == results.deep_view(),
            index <= results@.len(),
            ordered.deep_view() == sort_ordered(views.take(index as int), by_report()),
        decreases results.len() - index,
    {
        proof {
            assert(views.take(index + 1).drop_last() =~= views.take(index as int));
            assert(views.take(index + 1).last() == results@[index as int]@);
        }
        insert_by_report(&mut ordered, results[index].duplicate());
        index += 1;
    }
    proof {
        assert(views.take(results.len() as int) =~= views);
        lemma_by_report_is_key_order();
        lemma_sort_ordered_is_ordered(views, by_report());
        lemma_sort_ordered_multiset(views, by_report());
    }
    ordered
}

} // verus!
