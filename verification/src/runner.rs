//! Judging mutants: what a run of the test command says of a mutant, how
//! results are listed and counted, and what a mutated copy of the repository
//! holds. The runs themselves, and the copies, are made by the caller.

use vstd::prelude::*;
use vstd::utf8::*;

use core::time::Duration;

use crate::mutant::{applied, splice, spliced, Mutant, MutantView};
use crate::operator::operator_rank;
use crate::order::{
    insert_ordered, is_key_order, lemma_insert_at, lemma_sort_ordered_is_ordered,
    lemma_sort_ordered_multiset, sort_ordered, is_ordered,
};
use crate::text::{joined2, owned};

verus! {

/// What became of a mutant.
#[derive(Clone, Copy, Debug, PartialEq, Eq, Structural)]
pub enum MutantStatus {
    /// The test command failed: a test detects the change.
    Killed,
    /// The test command passed: no test detects the change.
    Survived,
    /// The test command did not finish in time.
    Timeout,
    /// The mutant could not be evaluated.
    Error,
}

/// A mutant, its status and what went wrong, if anything.
#[derive(Clone, Debug, PartialEq, Eq)]
pub struct MutantResult {
    pub mutant: Mutant,
    pub status: MutantStatus,
    pub detail: Option<String>,
}

/// A result with its texts as character sequences.
pub struct ResultView {
    pub mutant: MutantView,
    pub status: MutantStatus,
    pub detail: Option<Seq<char>>,
}

/// The view of an optional string.
pub open spec fn optional_text(text: Option<String>) -> Option<Seq<char>> {
    match text {
        Some(text) => Some(text@),
        None => None,
    }
}

impl View for MutantResult {
    type V = ResultView;

    open spec fn view(&self) -> ResultView {
        ResultView { mutant: self.mutant@, status: self.status, detail: optional_text(self.detail) }
    }
}

impl DeepView for MutantResult {
    type V = ResultView;

    open spec fn deep_view(&self) -> ResultView {
        self@
    }
}

impl MutantResult {
    /// A copy of this result.
    pub fn duplicate(&self) -> (copy: MutantResult)
        ensures
            copy@ == self@,
    {
        MutantResult {
            mutant: self.mutant.duplicate(),
            status: self.status,
            detail: match &self.detail {
                Some(detail) => Some(detail.clone()),
                None => None,
            },
        }
    }
}

/// Where and how the test command runs for each mutant.
pub struct RunnerConfig {
    pub repository: String,
    pub source_file: String,
    pub test_command: String,
    pub timeout: Duration,
    pub concurrency: usize,
}

impl RunnerConfig {
    /// A configuration from its parts.
    pub fn new(
        repository: &str,
        source_file: &str,
        test_command: &str,
        timeout: Duration,
        concurrency: usize,
    ) -> (configuration: RunnerConfig)
        ensures
            configuration.repository@ == repository@,
            configuration.source_file@ == source_file@,
            configuration.test_command@ == test_command@,
            configuration.timeout == timeout,
            configuration.concurrency == concurrency,
    {
        RunnerConfig {
            repository: owned(repository),
            source_file: owned(source_file),
            test_command: owned(test_command),
            timeout,
            concurrency,
        }
    }
}

/// Runs the test command once per mutant, as its configuration says.
pub struct Runner {
    configuration: RunnerConfig,
}

impl Runner {
    /// A runner with the given configuration.
    pub fn new(configuration: RunnerConfig) -> (runner: Runner)
        ensures
            runner.configuration() == configuration,
    {
        Runner { configuration }
    }

    /// The configuration this runner was made with.
    pub closed spec fn configuration(&self) -> RunnerConfig {
        self.configuration
    }

    /// The configuration this runner was made with.
    pub fn configuration_ref(&self) -> (configuration: &RunnerConfig)
        ensures
            *configuration == self.configuration(),
    {
        &self.configuration
    }
}

/// The number of results with the given status.
pub open spec fn status_count(results: Seq<ResultView>, status: MutantStatus) -> nat
    decreases results.len(),
{
    if results.len() == 0 {
        0
    } else {
        status_count(results.drop_last(), status) + if results.last().status == status {
            1nat
        } else {
            0nat
        }
    }
}

/// There are never more results of one status than results.
pub proof fn lemma_status_count_bound(results: Seq<ResultView>, status: MutantStatus)
    ensures
        status_count(results, status) <= results.len(),
    decreases results.len(),
{
    if results.len() > 0 {
        lemma_status_count_bound(results.drop_last(), status);
    }
}

/// Some result has a status exactly when that status is counted at least
/// once.
pub proof fn lemma_status_count_positive(results: Seq<ResultView>, status: MutantStatus)
    ensures
        status_count(results, status) > 0 <==> exists|i: int|
            0 <= i < results.len() && (#[trigger] results[i]).status == status,
    decreases results.len(),
{
    if results.len() > 0 {
        let rest = results.drop_last();
        lemma_status_count_positive(rest, status);
        if exists|i: int| 0 <= i < results.len() && (#[trigger] results[i]).status == status {
            let i = choose|i: int| 0 <= i < results.len() && (#[trigger] results[i]).status == status;
            if i < rest.len() {
                assert(rest[i] == results[i]);
            }
        }
        if exists|i: int| 0 <= i < rest.len() && (#[trigger] rest[i]).status == status {
            let i = choose|i: int| 0 <= i < rest.len() && (#[trigger] rest[i]).status == status;
            assert(results[i] == rest[i]);
        }
        if results.last().status == status {
            assert(results[results.len() - 1] == results.last());
        }
    }
}

/// The number of results with the given status.
pub fn count_status(results: &[MutantResult], status: MutantStatus) -> (count: usize)
    ensures
        count as nat == status_count(results.deep_view(), status),
{
    let ghost views = results.deep_view();
    let mut count: usize = 0;
    let mut index: usize = 0;
    while index < results.len()
        invariant
            views == results.deep_view(),
            index <= results@.len(),
            count <= index,
            count as nat == status_count(views.take(index as int), status),
        decreases results.len() - index,
    {
        proof {
            assert(views.take(index + 1).drop_last() =~= views.take(index as int));
            assert(views.take(index + 1).last() == results@[index as int]@);
        }
        if results[index].status == status {
            count += 1;
        }
        index += 1;
    }
    assert(views.take(results.len() as int) =~= views);
    count
}

/// The number of killed mutants. Timeouts and errors are never counted as
/// killed.
pub fn killed_count(results: &[MutantResult]) -> (killed: usize)
    ensures
        killed as nat == status_count(results.deep_view(), MutantStatus::Killed),
        killed <= results.len(),
{
    proof {
        lemma_status_count_bound(results.deep_view(), MutantStatus::Killed);
    }
    count_status(results, MutantStatus::Killed)
}

/// A result that says the mutant could not be evaluated, and why.
pub open spec fn error_view(mutant: MutantView, detail: Seq<char>) -> ResultView {
    ResultView { mutant, status: MutantStatus::Error, detail: Some(detail) }
}

/// A result that says the mutant could not be evaluated, and why.
pub fn error_result(mutant: Mutant, detail: &str) -> (result: MutantResult)
    ensures
        result@ == error_view(mutant@, detail@),
{
    MutantResult { mutant, status: MutantStatus::Error, detail: Some(owned(detail)) }
}

/// What went wrong in cleaning up after a timeout, if anything.
pub open spec fn timeout_note(kill_error: Option<Seq<char>>, wait_error: Option<Seq<char>>) -> Option<
    Seq<char>,
> {
    match (kill_error, wait_error) {
        (None, None) => None,
        (Some(kill), None) => Some("process-group cleanup failed: "@ + kill),
        (None, Some(wait)) => Some("child reap failed: "@ + wait),
        (Some(kill), Some(wait)) => Some(
            "process-group cleanup failed: "@ + kill + "; child reap failed: "@ + wait,
        ),
    }
}

/// What went wrong in cleaning up after a timeout: killing the process group
/// and reaping the child.
pub fn timeout_detail(kill_error: Option<String>, wait_error: Option<String>) -> (detail: Option<
    String,
>)
    ensures
        optional_text(detail) == timeout_note(optional_text(kill_error), optional_text(wait_error)),
{
    match (kill_error, wait_error) {
        (None, None) => None,
        (Some(kill), None) => Some(joined2("process-group cleanup failed: ", kill.as_str())),
        (None, Some(wait)) => Some(joined2("child reap failed: ", wait.as_str())),
        (Some(kill), Some(wait)) => {
            let mut detail = joined2("process-group cleanup failed: ", kill.as_str());
            detail.append("; child reap failed: ");
            detail.append(wait.as_str());
            Some(detail)
        },
    }
}

/// What a run of the test command for one mutant came to.
pub enum CommandOutcome {
    /// The command could not be started.
    SpawnFailed { error: String },
    /// The started command had no process identifier.
    MissingProcessId,
    /// The command exited: whether it succeeded, and its exit code if it has
    /// one.
    Exited { success: bool, code: Option<i32> },
    /// Waiting for the command failed.
    WaitFailed { error: String },
    /// The command ran past the timeout; its process group was killed. What
    /// went wrong in killing and reaping it, if anything.
    TimedOut { kill_error: Option<String>, wait_error: Option<String> },
}

/// A command outcome with its texts as character sequences.
pub enum OutcomeView {
    SpawnFailed { error: Seq<char> },
    MissingProcessId,
    Exited { success: bool, code: Option<i32> },
    WaitFailed { error: Seq<char> },
    TimedOut { kill_error: Option<Seq<char>>, wait_error: Option<Seq<char>> },
}

impl View for CommandOutcome {
    type V = OutcomeView;

    open spec fn view(&self) -> OutcomeView {
        match self {
            CommandOutcome::SpawnFailed { error } => OutcomeView::SpawnFailed { error: error@ },
            CommandOutcome::MissingProcessId => OutcomeView::MissingProcessId,
            CommandOutcome::Exited { success, code } => OutcomeView::Exited {
                success: *success,
                code: *code,
            },
            CommandOutcome::WaitFailed { error } => OutcomeView::WaitFailed { error: error@ },
            CommandOutcome::TimedOut { kill_error, wait_error } => OutcomeView::TimedOut {
                kill_error: optional_text(*kill_error),
                wait_error: optional_text(*wait_error),
            },
        }
    }
}

/// The exit code of a shell that could not find the command.
pub open spec fn command_not_found_code() -> i32 {
    127
}

/// The result a run gives: success survives, exit code 127 (command not
/// found) is an error, another failure kills, a timeout is a timeout, and a
/// run that could not be started or waited for is an error.
pub open spec fn judged(mutant: MutantView, outcome: OutcomeView) -> ResultView {
    match outcome {
        OutcomeView::SpawnFailed { error } => error_view(mutant, error),
        OutcomeView::MissingProcessId => error_view(
            mutant,
            "spawned command has no process identifier"@,
        ),
        OutcomeView::Exited { success, code } => if success {
            ResultView { mutant, status: MutantStatus::Survived, detail: None }
        } else if code == Some(command_not_found_code()) {
            error_view(mutant, "test command could not be executed"@)
        } else {
            ResultView { mutant, status: MutantStatus::Killed, detail: None }
        },
        OutcomeView::WaitFailed { error } => error_view(mutant, error),
        OutcomeView::TimedOut { kill_error, wait_error } => ResultView {
            mutant,
            status: MutantStatus::Timeout,
            detail: timeout_note(kill_error, wait_error),
        },
    }
}

/// A mutant is killed only by a test command that exited unsuccessfully
/// with an exit code other than 127: a timeout or a run that could not be
/// started or waited for is never counted as killed.
pub proof fn lemma_only_failures_kill(mutant: MutantView, outcome: OutcomeView)
    ensures
        judged(mutant, outcome).status == MutantStatus::Killed <==> (outcome matches OutcomeView::Exited {
            success,
            code,
        } && !success && code != Some(127i32)),
        judged(mutant, outcome).status == MutantStatus::Timeout <==> outcome is TimedOut,
        judged(mutant, outcome).mutant == mutant,
{
}

/// The result a run of the test command gives for a mutant.
pub fn judge_outcome(mutant: Mutant, outcome: CommandOutcome) -> (result: MutantResult)
    ensures
        result@ == judged(mutant@, outcome@),
{
    match outcome {
        CommandOutcome::SpawnFailed { error } => error_result(mutant, error.as_str()),
        CommandOutcome::MissingProcessId => error_result(
            mutant,
            "spawned command has no process identifier",
        ),
        CommandOutcome::Exited { success, code } => {
            if success {
                MutantResult { mutant, status: MutantStatus::Survived, detail: None }
            } else if code == Some(127i32) {
                error_result(mutant, "test command could not be executed")
            } else {
                MutantResult { mutant, status: MutantStatus::Killed, detail: None }
            }
        },
        CommandOutcome::WaitFailed { error } => error_result(mutant, error.as_str()),
        CommandOutcome::TimedOut { kill_error, wait_error } => MutantResult {
            mutant,
            status: MutantStatus::Timeout,
            detail: timeout_detail(kill_error, wait_error),
        },
    }
}

/// A result after removing the mutated copy: a failed removal is noted on an
/// error result, and ignored otherwise.
pub open spec fn cleaned_up(result: ResultView, removal_error: Option<Seq<char>>) -> ResultView {
    match removal_error {
        Some(error) => if result.status == MutantStatus::Error {
            ResultView {
                detail: Some(
                    match result.detail {
                        Some(detail) => detail,
                        None => Seq::<char>::empty(),
                    } + "; failed to remove materialized tree: "@ + error,
                ),
                ..result
            }
        } else {
            result
        },
        None => result,
    }
}

/// The result of a mutant once its mutated copy has been removed, or failed
/// to be.
pub fn after_cleanup(result: MutantResult, removal_error: Option<String>) -> (final_result:
    MutantResult)
    ensures
        final_result@ == cleaned_up(result@, optional_text(removal_error)),
{
    match removal_error {
        Some(error) => {
            if result.status == MutantStatus::Error {
                let mut detail = match result.detail {
                    Some(detail) => detail,
                    None => String::new(),
                };
                detail.append("; failed to remove materialized tree: ");
                detail.append(error.as_str());
                MutantResult { mutant: result.mutant, status: result.status, detail: Some(detail) }
            } else {
                result
            }
        },
        None => result,
    }
}

/// The source with a mutant applied, or an error when the mutant's span lies
/// outside the source or splits a character.
pub fn replace_mutant(source: &str, mutant: &Mutant) -> (mutated: Result<String, String>)
    ensures
        match mutated {
            Ok(text) => spliced(
                source@,
                mutant.span_start as int,
                mutant.span_end as int,
                mutant.replacement@,
            ) == Some(text@),
            Err(message) => spliced(
                source@,
                mutant.span_start as int,
                mutant.span_end as int,
                mutant.replacement@,
            ) is None && message@ == "mutant byte span is outside source text or splits UTF-8"@,
        },
{
    match splice(source, mutant.span_start, mutant.span_end, mutant.replacement.as_str()) {
        Some(text) => Ok(text),
        None => Err(owned("mutant byte span is outside source text or splits UTF-8")),
    }
}

/// Whether `first` comes before `second` in code point order.
pub open spec fn text_less(first: Seq<char>, second: Seq<char>) -> bool
    decreases first.len(),
{
    if first.len() == 0 {
        second.len() > 0
    } else if second.len() == 0 {
        false
    } else if first[0] != second[0] {
        first[0] < second[0]
    } else {
        text_less(first.drop_first(), second.drop_first())
    }
}

/// Code point order on texts is a strict total order: asymmetric,
/// transitive, and two texts that neither precedes are equal.
pub proof fn lemma_text_less_order(first: Seq<char>, second: Seq<char>, third: Seq<char>)
    ensures
        text_less(first, second) ==> !text_less(second, first),
        !text_less(first, second) && !text_less(second, first) ==> first == second,
        text_less(first, second) && text_less(second, third) ==> text_less(first, third),
    decreases first.len(),
{
    if first.len() > 0 && second.len() > 0 && third.len() > 0 {
        lemma_text_less_order(first.drop_first(), second.drop_first(), third.drop_first());
        if !text_less(first, second) && !text_less(second, first) {
            assert(first =~= seq![first[0]] + first.drop_first());
            assert(second =~= seq![second[0]] + second.drop_first());
        }
    } else if first.len() > 0 && second.len() > 0 {
        lemma_text_less_order(first.drop_first(), second.drop_first(), second.drop_first());
        if !text_less(first, second) && !text_less(second, first) {
            assert(first =~= seq![first[0]] + first.drop_first());
            assert(second =~= seq![second[0]] + second.drop_first());
        }
    } else if first.len() == 0 && second.len() == 0 {
        assert(first =~= second);
    }
}

/// Whether `first` is listed before `second`: by span start, span end,
/// operator, then replacement text.
pub open spec fn result_before(first: ResultView, second: ResultView) -> bool {
    let (a, b) = (first.mutant, second.mutant);
    ||| a.span_start < b.span_start
    ||| a.span_start == b.span_start && a.span_end < b.span_end
    ||| a.span_start == b.span_start && a.span_end == b.span_end && operator_rank(a.operator)
        < operator_rank(b.operator)
    ||| a.span_start == b.span_start && a.span_end == b.span_end && a.operator == b.operator
        && text_less(a.replacement, b.replacement)
}

/// The listing order of results.
pub open spec fn by_mutant() -> spec_fn(ResultView, ResultView) -> bool {
    |first: ResultView, second: ResultView| result_before(first, second)
}

/// The listing order of results compares keys.
pub proof fn lemma_by_mutant_is_key_order()
    ensures
        is_key_order(by_mutant()),
{
    assert forall|a: ResultView, b: ResultView| #[trigger] by_mutant()(a, b) implies !by_mutant()(
        b,
        a,
    ) by {
        lemma_text_less_order(a.mutant.replacement, b.mutant.replacement, a.mutant.replacement);
    }
    assert forall|a: ResultView, b: ResultView, c: ResultView|
        #![trigger by_mutant()(a, b), by_mutant()(b, c)]
        !by_mutant()(a, b) && !by_mutant()(b, c) implies !by_mutant()(a, c) by {
        let (x, y, z) = (a.mutant.replacement, b.mutant.replacement, c.mutant.replacement);
        lemma_text_less_order(x, y, z);
        lemma_text_less_order(y, z, x);
        lemma_text_less_order(z, x, y);
        lemma_text_less_order(y, x, z);
        lemma_text_less_order(x, z, y);
        lemma_text_less_order(z, y, x);
    }
}

/// Whether `first` comes before `second` in code point order.
pub fn text_precedes(first: &str, second: &str) -> (less: bool)
    ensures
        less == text_less(first@, second@),
{
    let first_length = first.unicode_len();
    let second_length = second.unicode_len();
    let mut index: usize = 0;
    assert(first@.skip(0) =~= first@);
    assert(second@.skip(0) =~= second@);
    while index < first_length && index < second_length
        invariant
            first_length == first@.len(),
            second_length == second@.len(),
            index <= first_length,
            index <= second_length,
            text_less(first@, second@) == text_less(first@.skip(index as int), second@.skip(
                index as int,
            )),
        decreases first_length - index,
    {
        let (a, b) = (first.get_char(index), second.get_char(index));
        proof {
            assert(first@.skip(index as int)[0] == a);
            assert(second@.skip(index as int)[0] == b);
            assert(first@.skip(index as int).drop_first() =~= first@.skip(index + 1));
            assert(second@.skip(index as int).drop_first() =~= second@.skip(index + 1));
        }
        if a != b {
            return a < b;
        }
        index += 1;
    }
    index == first_length && index < second_length
}

fn result_precedes(first: &MutantResult, second: &MutantResult) -> (before: bool)
    ensures
        before == result_before(first@, second@),
{
    let (a, b) = (&first.mutant, &second.mutant);
    if a.span_start != b.span_start {
        return a.span_start < b.span_start;
    }
    if a.span_end != b.span_end {
        return a.span_end < b.span_end;
    }
    if a.operator != b.operator {
        return a.operator.precedes(b.operator);
    }
    text_precedes(a.replacement.as_str(), b.replacement.as_str())
}

fn insert_by_mutant(listed: &mut Vec<MutantResult>, result: MutantResult)
    ensures
        final(listed).deep_view() == insert_ordered(old(listed).deep_view(), result@, by_mutant()),
{
    let ghost before = listed.deep_view();
    let mut position = listed.len();
    while position > 0 && result_precedes(&result, &listed[position - 1])
        invariant
            position <= listed.len(),
            before == listed.deep_view(),
            forall|j: int| position <= j < before.len() ==> result_before(result@, #[trigger] before[j]),
        decreases position,
    {
        proof {
            assert(before[position - 1] == listed@[position - 1]@);
        }
        position -= 1;
    }
    proof {
        if position > 0 {
            assert(before[position - 1] == listed@[position - 1]@);
        }
        lemma_insert_at(before, result@, by_mutant(), position as int);
    }
    let ghost view = result@;
    listed.insert(position, result);
    assert(listed.deep_view() =~= before.insert(position as int, view));
}

/// The results listed by mutant (span start, span end, operator,
/// replacement), ties keeping their order.
pub fn sorted_results(results: Vec<MutantResult>) -> (sorted: Vec<MutantResult>)
    ensures
        sorted.deep_view() == sort_ordered(results.deep_view(), by_mutant()),
        is_ordered(sorted.deep_view(), by_mutant()),
        sorted.deep_view().to_multiset() == results.deep_view().to_multiset(),
{
    let ghost views = results.deep_view();
    let mut sorted: Vec<MutantResult> = Vec::new();
    let mut index: usize = 0;
    while index < results.len()
        invariant
            views == results.deep_view(),
            index <= results@.len(),
            sorted.deep_view() == sort_ordered(views.take(index as int), by_mutant()),
        decreases results.len() - index,
    {
        proof {
            assert(views.take(index + 1).drop_last() =~= views.take(index as int));
            assert(views.take(index + 1).last() == results@[index as int]@);
        }
        insert_by_mutant(&mut sorted, results[index].duplicate());
        index += 1;
    }
    proof {
        assert(views.take(results.len() as int) =~= views);
        lemma_by_mutant_is_key_order();
        lemma_sort_ordered_is_ordered(views, by_mutant());
        lemma_sort_ordered_multiset(views, by_mutant());
    }
    sorted
}

/// The results when no mutant can run because the concurrency is zero: each
/// mutant is an error, listed by mutant.
pub fn unrunnable_results(mutants: &[Mutant]) -> (results: Vec<MutantResult>)
    ensures
        results.deep_view() == sort_ordered(
            Seq::new(
                mutants@.len(),
                |i: int| error_view(mutants@[i]@, "concurrency must be greater than zero"@),
            ),
            by_mutant(),
        ),
{
    let mut errors: Vec<MutantResult> = Vec::new();
    let mut index: usize = 0;
    while index < mutants.len()
        invariant
            index <= mutants@.len(),
            errors.deep_view() =~= Seq::new(
                index as nat,
                |i: int| error_view(mutants@[i]@, "concurrency must be greater than zero"@),
            ),
        decreases mutants.len() - index,
    {
        let result = error_result(mutants[index].duplicate(), "concurrency must be greater than zero");
        let ghost before = errors.deep_view();
        let ghost view = result@;
        errors.push(result);
        assert(errors.deep_view() =~= before.push(view));
        index += 1;
    }
    sorted_results(errors)
}

} // verus!
