//! The command line of a run: its options, the line range and operator list
//! they hold, the exit code a run ends with, and the messages of the baseline
//! check that precedes the mutants.

use vstd::prelude::*;

use crate::mutant::{Mutant, MutantView};
use crate::operator::{operator_named, Operator};
use crate::order::kept_items;
use crate::runner::{lemma_status_count_positive, optional_text, status_count, MutantResult, MutantStatus, ResultView};
use crate::text::{
    all_digits, digits_value, find_char, first_index_of, is_all_digits,
    joined2, joined3, owned, parse_unsigned, slice_chars, split_on, split_text, text_equals,
    unsigned_number, contains_char,
};

verus! {

/// The text `--help` prints.
pub const USAGE: &'static str = "bughunter - mutation testing for TypeScript

USAGE:
  bughunter run --repo <DIR> --file <RELATIVE.ts|DIR|GLOB> --operators <IDS> --test <CMD> --json [OPTIONS]

REQUIRED:
  --repo <DIR>          repository root; the test command runs here
  --file <PATH>         source file, directory, or glob to mutate, relative to --repo
  --operators <IDS>     comma-separated operator ids (see below)
  --test <CMD>          test command, run once per mutant
  --json                emit JSON on stdout
  --sarif <PATH>        write SARIF 2.1.0 output to PATH

OPTIONS:
  --line-range S-E      only mutate lines S..E inclusive, 1-based
  --timeout-ms N        per-mutant timeout, default 30000
  --concurrency N       mutants in flight, default 4
  --skip-baseline       do not verify the suite passes before mutating
  --fail-on-survivors   gate on survivors and unevaluated mutants
  --version             print the bughunter version

OPERATORS:
  cond-boundary-gt              >   ->  >=
  cond-boundary-lt              <   ->  <=
  logical-and-to-or             &&  ->  ||
  logical-or-to-and             ||  ->  &&
  equality-strict-to-loose-neg  === ->  !==
  inequality-to-equality        !== ->  ===
  return-true-to-false          return true;  ->  return false;
  return-false-to-true          return false; ->  return true;

STATUSES:
  killed     the suite failed, so a test detects this change
  survived   the suite passed, so no test detects it: a test gap
  timeout    the suite hung and its process group was killed
  error      the mutant could not be evaluated

EXIT CODES:
  0  the run completed and JSON was written without a selected gate failure
  1  a usage, parse, or baseline error occurred
  2  --fail-on-survivors found one or more surviving mutants; takes precedence over exit 3
  3  --fail-on-survivors found one or more timed-out or errored mutants and no survivors

A surviving mutant is a fact about your tests, not a proven bug.
";

/// The per-mutant timeout when none is given, in milliseconds.
pub const DEFAULT_TIMEOUT_MS: u64 = 30000;

/// The number of mutants in flight when none is given.
pub const DEFAULT_CONCURRENCY: usize = 4;

/// The largest integer that JavaScript represents exactly.
pub const MAX_SAFE_INTEGER: u64 = 9007199254740991;

/// An inclusive range of 1-based lines.
#[derive(Clone, Copy, Debug, PartialEq, Eq, Structural)]
pub struct LineRange {
    pub start: u64,
    pub end: u64,
}

/// The options of a run.
#[derive(Clone, Debug, PartialEq, Eq)]
pub struct RunOptions {
    pub repository: String,
    pub file: String,
    pub operators: Vec<Operator>,
    pub test_command: String,
    pub timeout_ms: u64,
    pub concurrency: usize,
    pub line_range: Option<LineRange>,
    pub sarif: Option<String>,
    pub skip_baseline: bool,
    pub fail_on_survivors: bool,
}

/// The options of a run with their texts as character sequences.
pub struct OptionsView {
    pub repository: Seq<char>,
    pub file: Seq<char>,
    pub operators: Seq<Operator>,
    pub test_command: Seq<char>,
    pub timeout_ms: u64,
    pub concurrency: usize,
    pub line_range: Option<LineRange>,
    pub sarif: Option<Seq<char>>,
    pub skip_baseline: bool,
    pub fail_on_survivors: bool,
}

impl View for RunOptions {
    type V = OptionsView;

    open spec fn view(&self) -> OptionsView {
        OptionsView {
            repository: self.repository@,
            file: self.file@,
            operators: self.operators@,
            test_command: self.test_command@,
            timeout_ms: self.timeout_ms,
            concurrency: self.concurrency,
            line_range: self.line_range,
            sarif: optional_text(self.sarif),
            skip_baseline: self.skip_baseline,
            fail_on_survivors: self.fail_on_survivors,
        }
    }
}

/// The `Debug` rendering of a string: quoted, with special characters
/// escaped.
pub uninterp spec fn debug_quoted(text: Seq<char>) -> Seq<char>;

/// Renders a string with `Debug` (`format!("{:?}", text)`). The result is
/// named `debug_quoted` of the text; which characters are escaped, and how,
/// is not stated.
#[verifier::external_body]
pub fn debug_quote(text: &str) -> (quoted: String)
    ensures
        quoted@ == debug_quoted(text@),
{
    format!("{:?}", text)
}

/// The message of a line range that is not `START-END`.
pub open spec fn malformed_range_message(value: Seq<char>) -> Seq<char> {
    "invalid line range "@ + debug_quoted(value) + "; expected START-END"@
}

/// The message of a line range whose bounds are out of order or range.
pub open spec fn bad_bounds_message(value: Seq<char>) -> Seq<char> {
    "invalid line range "@ + debug_quoted(value) + "; expected 1 <= START <= END"@
}

/// What `--line-range` accepts: `START-END`, two runs of ASCII digits around
/// the first `-`, with `1 <= START <= END <= MAX_SAFE_INTEGER`.
pub open spec fn line_range_of(value: Seq<char>) -> Result<LineRange, Seq<char>> {
    match first_index_of(value, '-') {
        None => Err(malformed_range_message(value)),
        Some(dash) => {
            let start = value.take(dash);
            let end = value.skip(dash + 1);
            if start.len() == 0 || end.len() == 0 || !all_digits(start) || !all_digits(end) {
                Err(malformed_range_message(value))
            } else if digits_value(start) > u64::MAX || digits_value(end) > u64::MAX {
                Err(bad_bounds_message(value))
            } else if digits_value(start) > MAX_SAFE_INTEGER || digits_value(end) > MAX_SAFE_INTEGER
                || digits_value(start) < 1 || digits_value(start) > digits_value(end) {
                Err(bad_bounds_message(value))
            } else {
                Ok(LineRange { start: digits_value(start) as u64, end: digits_value(end) as u64 })
            }
        },
    }
}

/// Reads a `--line-range` value.
pub fn parse_line_range(value: &str) -> (range: Result<LineRange, String>)
    ensures
        match range {
            Ok(range) => line_range_of(value@) == Ok::<LineRange, Seq<char>>(range),
            Err(message) => line_range_of(value@) == Err::<LineRange, Seq<char>>(message@),
        },
{
    let dash = match find_char(value, '-') {
        Some(dash) => dash,
        None => return Err(malformed_range(value)),
    };
    let length = value.unicode_len();
    let start = slice_chars(value, 0, dash);
    let end = slice_chars(value, dash + 1, length);
    proof {
        assert(start@ =~= value@.take(dash as int));
        assert(end@ =~= value@.skip(dash + 1));
    }
    if start.unicode_len() == 0 || end.unicode_len() == 0 || !is_all_digits(start.as_str())
        || !is_all_digits(end.as_str()) || contains_char(end.as_str(), '-') {
        proof {
            if end@.contains('-') {
                let k = choose|k: int| 0 <= k < end@.len() && end@[k] == '-';
                assert(!crate::text::is_digit(end@[k]));
            }
        }
        return Err(malformed_range(value));
    }
    let first = parse_unsigned(start.as_str(), u64::MAX);
    let last = parse_unsigned(end.as_str(), u64::MAX);
    proof {
        assert(start@.len() == 0 || start@[0] != '+') by {
            if start@.len() > 0 {
                assert(crate::text::is_digit(start@[0]));
            }
        }
        assert(end@.len() == 0 || end@[0] != '+') by {
            if end@.len() > 0 {
                assert(crate::text::is_digit(end@[0]));
            }
        }
    }
    match (first, last) {
        (Some(first), Some(last)) => {
            if first > MAX_SAFE_INTEGER || last > MAX_SAFE_INTEGER || first < 1 || first > last {
                Err(bad_bounds(value))
            } else {
                Ok(LineRange { start: first, end: last })
            }
        },
        _ => Err(bad_bounds(value)),
    }
}

fn malformed_range(value: &str) -> (message: String)
    ensures
        message@ == malformed_range_message(value@),
{
    let quoted = debug_quote(value);
    joined3("invalid line range ", quoted.as_str(), "; expected START-END")
}

fn bad_bounds(value: &str) -> (message: String)
    ensures
        message@ == bad_bounds_message(value@),
{
    let quoted = debug_quote(value);
    joined3("invalid line range ", quoted.as_str(), "; expected 1 <= START <= END")
}

/// Whether a line lies in a range, both ends included.
pub open spec fn in_range(line: u32, range: LineRange) -> bool {
    range.start <= line && line <= range.end
}

/// The mutants on lines within the range, in their order; all of them when
/// there is no range.
pub open spec fn within_lines(mutants: Seq<MutantView>, range: Option<LineRange>) -> Seq<MutantView>
    decreases mutants.len(),
{
    match range {
        None => mutants,
        Some(range) => if mutants.len() == 0 {
            seq![]
        } else if in_range(mutants.last().line, range) {
            within_lines(mutants.drop_last(), Some(range)).push(mutants.last())
        } else {
            within_lines(mutants.drop_last(), Some(range))
        },
    }
}

/// Keeps the mutants on lines within the range, both ends included.
pub fn select_line_range(mutants: Vec<Mutant>, line_range: Option<LineRange>) -> (selected: Vec<
    Mutant,
>)
    ensures
        selected.deep_view() == within_lines(mutants.deep_view(), line_range),
{
    let range = match line_range {
        None => return mutants,
        Some(range) => range,
    };
    let ghost views = mutants.deep_view();
    let mut selected: Vec<Mutant> = Vec::new();
    let mut index: usize = 0;
    while index < mutants.len()
        invariant
            views == mutants.deep_view(),
            line_range == Some(range),
            index <= mutants@.len(),
            selected.deep_view() == within_lines(views.take(index as int), line_range),
        decreases mutants.len() - index,
    {
        proof {
            assert(views.take(index + 1).drop_last() =~= views.take(index as int));
            assert(views.take(index + 1).last() == mutants@[index as int]@);
        }
        let line = mutants[index].line as u64;
        if range.start <= line && line <= range.end {
            let ghost before = selected.deep_view();
            let copy = mutants[index].duplicate();
            selected.push(copy);
            assert(selected.deep_view() =~= before.push(mutants@[index as int]@));
        }
        index += 1;
    }
    assert(views.take(mutants.len() as int) =~= views);
    selected
}

/// The operators named by the identifiers, in order, or the message for the
/// first identifier that names none.
pub open spec fn operators_named(ids: Seq<Seq<char>>) -> Result<Seq<Operator>, Seq<char>>
    decreases ids.len(),
{
    if ids.len() == 0 {
        Ok(seq![])
    } else {
        match operators_named(ids.drop_last()) {
            Err(message) => Err(message),
            Ok(operators) => match operator_named(ids.last()) {
                Some(operator) => Ok(operators.push(operator)),
                None => Err("unknown operator "@ + ids.last()),
            },
        }
    }
}

/// What `--operators` accepts: operator identifiers separated by commas.
pub open spec fn operator_list(value: Seq<char>) -> Result<Seq<Operator>, Seq<char>> {
    operators_named(split_on(value, ','))
}

/// Reads an `--operators` value.
pub fn parse_operators(value: &str) -> (operators: Result<Vec<Operator>, String>)
    ensures
        match operators {
            Ok(list) => operator_list(value@) == Ok::<Seq<Operator>, Seq<char>>(list@),
            Err(message) => operator_list(value@) == Err::<Seq<Operator>, Seq<char>>(message@),
        },
{
    let ids = split_text(value, ',');
    let ghost id_views = ids.deep_view();
    let mut operators: Vec<Operator> = Vec::new();
    let mut index: usize = 0;
    while index < ids.len()
        invariant
            id_views == ids.deep_view(),
            id_views == split_on(value@, ','),
            index <= ids@.len(),
            operators_named(id_views.take(index as int)) == Ok::<Seq<Operator>, Seq<char>>(
                operators@,
            ),
        decreases ids.len() - index,
    {
        proof {
            assert(id_views.take(index + 1).drop_last() =~= id_views.take(index as int));
            assert(id_views.take(index + 1).last() == ids@[index as int]@);
        }
        match Operator::from_id(ids[index].as_str()) {
            Some(operator) => operators.push(operator),
            None => {
                proof {
                    lemma_operators_named_error(id_views, index as int);
                }
                return Err(joined2("unknown operator ", ids[index].as_str()));
            },
        }
        index += 1;
    }
    assert(id_views.take(ids.len() as int) =~= id_views);
    Ok(operators)
}

proof fn lemma_operators_named_error(ids: Seq<Seq<char>>, index: int)
    requires
        0 <= index < ids.len(),
        operators_named(ids.take(index)) is Ok,
        operator_named(ids[index]) is None,
    ensures
        operators_named(ids) == Err::<Seq<Operator>, Seq<char>>("unknown operator "@ + ids[index]),
    decreases ids.len() - index,
{
    assert(ids.take(index + 1).drop_last() =~= ids.take(index));
    if index + 1 < ids.len() {
        lemma_operators_named_error_extends(ids, index + 1, "unknown operator "@ + ids[index]);
    } else {
        assert(ids.take(index + 1) =~= ids);
    }
}

proof fn lemma_operators_named_error_extends(ids: Seq<Seq<char>>, index: int, message: Seq<char>)
    requires
        0 < index <= ids.len(),
        operators_named(ids.take(index)) == Err::<Seq<Operator>, Seq<char>>(message),
    ensures
        operators_named(ids) == Err::<Seq<Operator>, Seq<char>>(message),
    decreases ids.len() - index,
{
    if index < ids.len() {
        assert(ids.take(index + 1).drop_last() =~= ids.take(index));
        lemma_operators_named_error_extends(ids, index + 1, message);
    } else {
        assert(ids.take(index) =~= ids);
    }
}

/// The message of an option whose value is not a positive integer.
pub open spec fn not_positive_message(option: Seq<char>) -> Seq<char> {
    option + " must be a positive integer"@
}

/// What a positive-integer option accepts: what `from_str` for an unsigned
/// integer type with largest value `limit` accepts, other than zero.
pub open spec fn positive_number(value: Seq<char>, option: Seq<char>, limit: nat) -> Result<
    nat,
    Seq<char>,
> {
    match unsigned_number(value, limit) {
        Some(number) => if number == 0 {
            Err(not_positive_message(option))
        } else {
            Ok(number)
        },
        None => Err(not_positive_message(option)),
    }
}

/// Reads a positive `u64` option value.
pub fn parse_positive_u64(value: &str, option: &str) -> (number: Result<u64, String>)
    ensures
        match number {
            Ok(n) => positive_number(value@, option@, u64::MAX as nat) == Ok::<nat, Seq<char>>(
                n as nat,
            ),
            Err(message) => positive_number(value@, option@, u64::MAX as nat) == Err::<
                nat,
                Seq<char>,
            >(message@),
        },
{
    match parse_unsigned(value, u64::MAX) {
        Some(n) => {
            if n == 0 {
                Err(joined2(option, " must be a positive integer"))
            } else {
                Ok(n)
            }
        },
        None => Err(joined2(option, " must be a positive integer")),
    }
}

/// Reads a positive `usize` option value.
pub fn parse_positive_usize(value: &str, option: &str) -> (number: Result<usize, String>)
    ensures
        match number {
            Ok(n) => positive_number(value@, option@, usize::MAX as nat) == Ok::<nat, Seq<char>>(
                n as nat,
            ),
            Err(message) => positive_number(value@, option@, usize::MAX as nat) == Err::<
                nat,
                Seq<char>,
            >(message@),
        },
{
    match parse_unsigned(value, usize::MAX as u64) {
        Some(n) => {
            if n == 0 {
                Err(joined2(option, " must be a positive integer"))
            } else {
                Ok(n as usize)
            }
        },
        None => Err(joined2(option, " must be a positive integer")),
    }
}

/// Whether a `--file` selector is a relative path without parent
/// components: not empty, not starting at the root, no `..` piece.
pub open spec fn relative_selector(path: Seq<char>) -> bool {
    &&& path.len() > 0
    &&& path[0] != '/'
    &&& forall|i: int| 0 <= i < split_on(path, '/').len() ==> #[trigger] split_on(path, '/')[i] != ".."@
}

/// Whether a `--file` selector is a relative path without parent
/// components.
pub fn is_relative_selector(path: &str) -> (relative: bool)
    ensures
        relative == relative_selector(path@),
{
    if path.unicode_len() == 0 || path.get_char(0) == '/' {
        return false;
    }
    let pieces = split_text(path, '/');
    let ghost views = pieces.deep_view();
    let mut index: usize = 0;
    while index < pieces.len()
        invariant
            views == pieces.deep_view(),
            views == split_on(path@, '/'),
            index <= pieces@.len(),
            forall|j: int| 0 <= j < index ==> #[trigger] views[j] != ".."@,
        decreases pieces.len() - index,
    {
        proof {
            assert(views[index as int] == pieces@[index as int]@);
        }
        if text_equals(pieces[index].as_str(), "..") {
            return false;
        }
        index += 1;
    }
    true
}

/// The exit code of a finished run: with `--fail-on-survivors`, 2 when a
/// mutant survived, else 3 when one timed out or failed to run, else 0;
/// without it, 0.
pub open spec fn exit_code_of(fail_on_survivors: bool, results: Seq<ResultView>) -> i32 {
    if !fail_on_survivors {
        0
    } else if status_count(results, MutantStatus::Survived) > 0 {
        2
    } else if status_count(results, MutantStatus::Timeout) > 0 || status_count(
        results,
        MutantStatus::Error,
    ) > 0 {
        3
    } else {
        0
    }
}

/// The exit code of a finished run.
pub fn exit_code_for_results(fail_on_survivors: bool, results: &[MutantResult]) -> (code: i32)
    ensures
        code == exit_code_of(fail_on_survivors, results.deep_view()),
{
    if !fail_on_survivors {
        return 0;
    }
    if crate::runner::count_status(results, MutantStatus::Survived) > 0 {
        return 2;
    }
    if crate::runner::count_status(results, MutantStatus::Timeout) > 0
        || crate::runner::count_status(results, MutantStatus::Error) > 0 {
        return 3;
    }
    0
}

/// The exit code depends on which statuses occur and on nothing else.
/// Without `--fail-on-survivors` every run exits with 0. With it, a surviving mutant gives 2 whatever else
/// happened; with no survivor, a single mutant that timed out or could not
/// be evaluated gives 3 on its own, whatever the other results are (killed
/// ones included); a run whose mutants were all killed gives 0.
pub proof fn lemma_exit_code_by_statuses(fail_on_survivors: bool, results: Seq<ResultView>)
    ensures
        !fail_on_survivors ==> exit_code_of(fail_on_survivors, results) == 0,
        fail_on_survivors && (exists|i: int|
            0 <= i < results.len() && (#[trigger] results[i]).status == MutantStatus::Survived)
            ==> exit_code_of(fail_on_survivors, results) == 2,
        fail_on_survivors && (forall|i: int|
            0 <= i < results.len() ==> (#[trigger] results[i]).status != MutantStatus::Survived)
            && (exists|i: int|
            0 <= i < results.len() && ((#[trigger] results[i]).status == MutantStatus::Timeout
                || results[i].status == MutantStatus::Error)) ==> exit_code_of(
            fail_on_survivors,
            results,
        ) == 3,
        (forall|i: int|
            0 <= i < results.len() ==> (#[trigger] results[i]).status == MutantStatus::Killed)
            ==> exit_code_of(fail_on_survivors, results) == 0,
{
    lemma_status_count_positive(results, MutantStatus::Survived);
    lemma_status_count_positive(results, MutantStatus::Timeout);
    lemma_status_count_positive(results, MutantStatus::Error);
    if exists|i: int|
        0 <= i < results.len() && ((#[trigger] results[i]).status == MutantStatus::Timeout
            || results[i].status == MutantStatus::Error) {
        let i = choose|i: int|
            0 <= i < results.len() && ((#[trigger] results[i]).status == MutantStatus::Timeout
                || results[i].status == MutantStatus::Error);
        assert(results[i].status == MutantStatus::Timeout || results[i].status
            == MutantStatus::Error);
    }
}

/// A survivor decides the exit code over timeouts and errors, and without
/// `--fail-on-survivors` every run exits with 0.
pub proof fn lemma_survivor_precedence(fail_on_survivors: bool, results: Seq<ResultView>)
    ensures
        !fail_on_survivors ==> exit_code_of(fail_on_survivors, results) == 0,
        fail_on_survivors && status_count(results, MutantStatus::Survived) > 0 ==> exit_code_of(
            fail_on_survivors,
            results,
        ) == 2,
{
}

/// The options read so far from the command line.
pub struct ArgumentsView {
    pub repository: Option<Seq<char>>,
    pub file: Option<Seq<char>>,
    pub operators: Option<Seq<Operator>>,
    pub test_command: Option<Seq<char>>,
    pub timeout_ms: u64,
    pub concurrency: usize,
    pub line_range: Option<LineRange>,
    pub sarif: Option<Seq<char>>,
    pub json: bool,
    pub skip_baseline: bool,
    pub fail_on_survivors: bool,
}

/// Nothing read yet: the defaults.
pub open spec fn no_arguments() -> ArgumentsView {
    ArgumentsView {
        repository: None,
        file: None,
        operators: None,
        test_command: None,
        timeout_ms: DEFAULT_TIMEOUT_MS,
        concurrency: DEFAULT_CONCURRENCY,
        line_range: None,
        sarif: None,
        json: false,
        skip_baseline: false,
        fail_on_survivors: false,
    }
}

/// The value that follows an option: the next argument if it is not empty.
pub open spec fn option_value(rest: Seq<Seq<char>>, option: Seq<char>) -> Result<
    Seq<char>,
    Seq<char>,
> {
    if rest.len() > 0 && rest[0].len() > 0 {
        Ok(rest[0])
    } else {
        Err(option + " requires a non-empty value"@)
    }
}

/// Reads the arguments after `run` from left to right, a later occurrence of
/// an option overriding an earlier one; the first malformed argument gives
/// its message.
pub open spec fn scan_arguments(arguments: Seq<Seq<char>>, read: ArgumentsView) -> Result<
    ArgumentsView,
    Seq<char>,
>
    decreases arguments.len(),
{
    if arguments.len() == 0 {
        Ok(read)
    } else {
        let argument = arguments[0];
        let rest = arguments.drop_first();
        if argument == "--repo"@ {
            match option_value(rest, "--repo"@) {
                Err(message) => Err(message),
                Ok(value) => scan_arguments(
                    rest.drop_first(),
                    ArgumentsView { repository: Some(value), ..read },
                ),
            }
        } else if argument == "--file"@ {
            match option_value(rest, "--file"@) {
                Err(message) => Err(message),
                Ok(value) => scan_arguments(rest.drop_first(), ArgumentsView { file: Some(value), ..read }),
            }
        } else if argument == "--operators"@ {
            match option_value(rest, "--operators"@) {
                Err(message) => Err(message),
                Ok(value) => match operator_list(value) {
                    Err(message) => Err(message),
                    Ok(operators) => scan_arguments(
                        rest.drop_first(),
                        ArgumentsView { operators: Some(operators), ..read },
                    ),
                },
            }
        } else if argument == "--test"@ {
            match option_value(rest, "--test"@) {
                Err(message) => Err(message),
                Ok(value) => scan_arguments(
                    rest.drop_first(),
                    ArgumentsView { test_command: Some(value), ..read },
                ),
            }
        } else if argument == "--timeout-ms"@ {
            match option_value(rest, "--timeout-ms"@) {
                Err(message) => Err(message),
                Ok(value) => match positive_number(value, "--timeout-ms"@, u64::MAX as nat) {
                    Err(message) => Err(message),
                    Ok(number) => scan_arguments(
                        rest.drop_first(),
                        ArgumentsView { timeout_ms: number as u64, ..read },
                    ),
                },
            }
        } else if argument == "--concurrency"@ {
            match option_value(rest, "--concurrency"@) {
                Err(message) => Err(message),
                Ok(value) => match positive_number(value, "--concurrency"@, usize::MAX as nat) {
                    Err(message) => Err(message),
                    Ok(number) => scan_arguments(
                        rest.drop_first(),
                        ArgumentsView { concurrency: number as usize, ..read },
                    ),
                },
            }
        } else if argument == "--line-range"@ {
            match option_value(rest, "--line-range"@) {
                Err(message) => Err(message),
                Ok(value) => match line_range_of(value) {
                    Err(message) => Err(message),
                    Ok(range) => scan_arguments(
                        rest.drop_first(),
                        ArgumentsView { line_range: Some(range), ..read },
                    ),
                },
            }
        } else if argument == "--json"@ {
            scan_arguments(rest, ArgumentsView { json: true, ..read })
        } else if argument == "--sarif"@ {
            match option_value(rest, "--sarif"@) {
                Err(message) => Err(message),
                Ok(value) => scan_arguments(rest.drop_first(), ArgumentsView { sarif: Some(value), ..read }),
            }
        } else if argument == "--skip-baseline"@ {
            scan_arguments(rest, ArgumentsView { skip_baseline: true, ..read })
        } else if argument == "--fail-on-survivors"@ {
            scan_arguments(rest, ArgumentsView { fail_on_survivors: true, ..read })
        } else {
            Err("unknown argument "@ + argument)
        }
    }
}

/// The options of a command line `run ARGS...`, or the message of what is
/// wrong with it: a malformed argument, a missing `--json`, `--repo`,
/// `--file`, `--operators` or `--test` (checked in that order), or a
/// `--file` that is not a relative selector.
pub open spec fn run_arguments(arguments: Seq<Seq<char>>) -> Result<OptionsView, Seq<char>> {
    if arguments.len() == 0 || arguments[0] != "run"@ {
        Err("expected the run command; try bughunter --help"@)
    } else {
        match scan_arguments(arguments.drop_first(), no_arguments()) {
            Err(message) => Err(message),
            Ok(read) => if !read.json {
                Err("--json is required"@)
            } else {
                match (read.repository, read.file) {
                    (None, _) => Err("--repo is required"@),
                    (Some(_), None) => Err("--file is required"@),
                    (Some(repository), Some(file)) => if !relative_selector(file) {
                        Err(
                            "--file must be a non-empty relative path or glob without parent components"@,
                        )
                    } else {
                        match (read.operators, read.test_command) {
                            (None, _) => Err("--operators is required"@),
                            (Some(_), None) => Err("--test is required"@),
                            (Some(operators), Some(test_command)) => Ok(
                                OptionsView {
                                    repository,
                                    file,
                                    operators,
                                    test_command,
                                    timeout_ms: read.timeout_ms,
                                    concurrency: read.concurrency,
                                    line_range: read.line_range,
                                    sarif: read.sarif,
                                    skip_baseline: read.skip_baseline,
                                    fail_on_survivors: read.fail_on_survivors,
                                },
                            ),
                        }
                    },
                }
            },
        }
    }
}

struct ArgumentsRead {
    repository: Option<String>,
    file: Option<String>,
    operators: Option<Vec<Operator>>,
    test_command: Option<String>,
    timeout_ms: u64,
    concurrency: usize,
    line_range: Option<LineRange>,
    sarif: Option<String>,
    json: bool,
    skip_baseline: bool,
    fail_on_survivors: bool,
}

impl View for ArgumentsRead {
    type V = ArgumentsView;

    closed spec fn view(&self) -> ArgumentsView {
        ArgumentsView {
            repository: optional_text(self.repository),
            file: optional_text(self.file),
            operators: match self.operators {
                Some(operators) => Some(operators@),
                None => None,
            },
            test_command: optional_text(self.test_command),
            timeout_ms: self.timeout_ms,
            concurrency: self.concurrency,
            line_range: self.line_range,
            sarif: optional_text(self.sarif),
            json: self.json,
            skip_baseline: self.skip_baseline,
            fail_on_survivors: self.fail_on_survivors,
        }
    }
}

fn next_value(arguments: &Vec<String>, index: usize, option: &str) -> (value: Result<String, String>)
    requires
        index <= arguments@.len(),
    ensures
        match value {
            Ok(text) => option_value(arguments.deep_view().skip(index as int), option@) == Ok::<
                Seq<char>,
                Seq<char>,
            >(text@),
            Err(message) => option_value(arguments.deep_view().skip(index as int), option@)
                == Err::<Seq<char>, Seq<char>>(message@),
        },
{
    if index < arguments.len() && arguments[index].unicode_len() > 0 {
        proof {
            assert(arguments.deep_view().skip(index as int)[0] == arguments@[index as int]@);
        }
        Ok(arguments[index].clone())
    } else {
        proof {
            if index < arguments.len() {
                assert(arguments.deep_view().skip(index as int)[0] == arguments@[index as int]@);
            }
        }
        Err(joined2(option, " requires a non-empty value"))
    }
}

/// Reads the command line of a run: `run` followed by options.
pub fn parse_run_arguments(arguments: Vec<String>) -> (options: Result<RunOptions, String>)
    ensures
        match options {
            Ok(options) => run_arguments(arguments.deep_view()) == Ok::<OptionsView, Seq<char>>(
                options@,
            ),
            Err(message) => run_arguments(arguments.deep_view()) == Err::<OptionsView, Seq<char>>(
                message@,
            ),
        },
{
    let ghost all = arguments.deep_view();
    if arguments.len() == 0 || !text_equals(arguments[0].as_str(), "run") {
        proof {
            if arguments.len() > 0 {
                assert(all[0] == arguments@[0]@);
            }
        }
        return Err(owned("expected the run command; try bughunter --help"));
    }
    proof {
        assert(all[0] == arguments@[0]@);
        assert(all.skip(1) =~= all.drop_first());
    }
    let mut read = ArgumentsRead {
        repository: None,
        file: None,
        operators: None,
        test_command: None,
        timeout_ms: DEFAULT_TIMEOUT_MS,
        concurrency: DEFAULT_CONCURRENCY,
        line_range: None,
        sarif: None,
        json: false,
        skip_baseline: false,
        fail_on_survivors: false,
    };
    let mut index: usize = 1;
    while index < arguments.len()
        invariant
            all == arguments.deep_view(),
            all.len() > 0 && all[0] == "run"@,
            1 <= index <= arguments@.len(),
            scan_arguments(all.skip(index as int), read@) == scan_arguments(
                all.drop_first(),
                no_arguments(),
            ),
        decreases arguments.len() - index,
    {
        let ghost here = all.skip(index as int);
        proof {
            assert(here[0] == arguments@[index as int]@);
            assert(here.drop_first() =~= all.skip(index + 1));
            if index + 1 < all.len() {
                assert(all.skip(index + 1).drop_first() =~= all.skip(index + 2));
            }
        }
        let argument = arguments[index].as_str();
        if text_equals(argument, "--repo") {
            match next_value(&arguments, index + 1, "--repo") {
                Ok(value) => {
                    read.repository = Some(value);
                },
                Err(message) => return Err(message),
            }
            index += 2;
        } else if text_equals(argument, "--file") {
            match next_value(&arguments, index + 1, "--file") {
                Ok(value) => {
                    read.file = Some(value);
                },
                Err(message) => return Err(message),
            }
            index += 2;
        } else if text_equals(argument, "--operators") {
            match next_value(&arguments, index + 1, "--operators") {
                Ok(value) => match parse_operators(value.as_str()) {
                    Ok(operators) => {
                        read.operators = Some(operators);
                    },
                    Err(message) => return Err(message),
                },
                Err(message) => return Err(message),
            }
            index += 2;
        } else if text_equals(argument, "--test") {
            match next_value(&arguments, index + 1, "--test") {
                Ok(value) => {
                    read.test_command = Some(value);
                },
                Err(message) => return Err(message),
            }
            index += 2;
        } else if text_equals(argument, "--timeout-ms") {
            match next_value(&arguments, index + 1, "--timeout-ms") {
                Ok(value) => match parse_positive_u64(value.as_str(), "--timeout-ms") {
                    Ok(number) => {
                        read.timeout_ms = number;
                    },
                    Err(message) => return Err(message),
                },
                Err(message) => return Err(message),
            }
            index += 2;
        } else if text_equals(argument, "--concurrency") {
            match next_value(&arguments, index + 1, "--concurrency") {
                Ok(value) => match parse_positive_usize(value.as_str(), "--concurrency") {
                    Ok(number) => {
                        read.concurrency = number;
                    },
                    Err(message) => return Err(message),
                },
                Err(message) => return Err(message),
            }
            index += 2;
        } else if text_equals(argument, "--line-range") {
            match next_value(&arguments, index + 1, "--line-range") {
                Ok(value) => match parse_line_range(value.as_str()) {
                    Ok(range) => {
                        read.line_range = Some(range);
                    },
                    Err(message) => return Err(message),
                },
                Err(message) => return Err(message),
            }
            index += 2;
        } else if text_equals(argument, "--json") {
            read.json = true;
            index += 1;
        } else if text_equals(argument, "--sarif") {
            match next_value(&arguments, index + 1, "--sarif") {
                Ok(value) => {
                    read.sarif = Some(value);
                },
                Err(message) => return Err(message),
            }
            index += 2;
        } else if text_equals(argument, "--skip-baseline") {
            read.skip_baseline = true;
            index += 1;
        } else if text_equals(argument, "--fail-on-survivors") {
            read.fail_on_survivors = true;
            index += 1;
        } else {
            return Err(joined2("unknown argument ", argument));
        }
    }
    proof {
        assert(all.skip(index as int) =~= Seq::<Seq<char>>::empty());
    }
    if !read.json {
        return Err(owned("--json is required"));
    }
    let repository = match read.repository {
        Some(repository) => repository,
        None => return Err(owned("--repo is required")),
    };
    let file = match read.file {
        Some(file) => file,
        None => return Err(owned("--file is required")),
    };
    if !is_relative_selector(file.as_str()) {
        return Err(
            owned("--file must be a non-empty relative path or glob without parent components"),
        );
    }
    let operators = match read.operators {
        Some(operators) => operators,
        None => return Err(owned("--operators is required")),
    };
    let test_command = match read.test_command {
        Some(test_command) => test_command,
        None => return Err(owned("--test is required")),
    };
    Ok(
        RunOptions {
            repository,
            file,
            operators,
            test_command,
            timeout_ms: read.timeout_ms,
            concurrency: read.concurrency,
            line_range: read.line_range,
            sarif: read.sarif,
            skip_baseline: read.skip_baseline,
            fail_on_survivors: read.fail_on_survivors,
        },
    )
}

/// What the command line asks for before any option is read.
#[derive(Clone, Copy, Debug, PartialEq, Eq, Structural)]
pub enum CommandRequest {
    /// Print the usage text.
    Help,
    /// Print the version.
    Version,
    /// Parse the options and run.
    Run,
}

/// Whether an argument asks for the usage text.
pub open spec fn asks_for_help(argument: Seq<char>) -> bool {
    argument == "--help"@ || argument == "-h"@ || argument == "help"@
}

/// What the command line asks for: the usage text when any argument is
/// `--help`, `-h` or `help`; else the version when any argument is
/// `--version`; else a run.
pub open spec fn requested(arguments: Seq<Seq<char>>) -> CommandRequest {
    if exists|i: int| 0 <= i < arguments.len() && asks_for_help(#[trigger] arguments[i]) {
        CommandRequest::Help
    } else if exists|i: int| 0 <= i < arguments.len() && #[trigger] arguments[i] == "--version"@ {
        CommandRequest::Version
    } else {
        CommandRequest::Run
    }
}

/// What the command line asks for.
pub fn command_request(arguments: &Vec<String>) -> (request: CommandRequest)
    ensures
        request == requested(arguments.deep_view()),
{
    let ghost views = arguments.deep_view();
    let mut index: usize = 0;
    while index < arguments.len()
        invariant
            views == arguments.deep_view(),
            index <= arguments@.len(),
            forall|j: int| 0 <= j < index ==> !asks_for_help(#[trigger] views[j]),
        decreases arguments.len() - index,
    {
        let argument = arguments[index].as_str();
        proof {
            assert(views[index as int] == arguments@[index as int]@);
        }
        if text_equals(argument, "--help") || text_equals(argument, "-h") || text_equals(
            argument,
            "help",
        ) {
            return CommandRequest::Help;
        }
        index += 1;
    }
    let mut index: usize = 0;
    while index < arguments.len()
        invariant
            views == arguments.deep_view(),
            index <= arguments@.len(),
            forall|j: int| 0 <= j < arguments@.len() ==> !asks_for_help(#[trigger] views[j]),
            forall|j: int| 0 <= j < index ==> #[trigger] views[j] != "--version"@,
        decreases arguments.len() - index,
    {
        proof {
            assert(views[index as int] == arguments@[index as int]@);
        }
        if text_equals(arguments[index].as_str(), "--version") {
            return CommandRequest::Version;
        }
        index += 1;
    }
    CommandRequest::Run
}

proof fn lemma_flag_names_differ()
    ensures
        "--json"@ != "--repo"@,
        "--json"@ != "--file"@,
        "--json"@ != "--operators"@,
        "--json"@ != "--test"@,
        "--json"@ != "--timeout-ms"@,
        "--json"@ != "--concurrency"@,
        "--json"@ != "--line-range"@,
        "--json"@ != "--sarif"@,
        "--json"@ != "--skip-baseline"@,
        "--json"@ != "--fail-on-survivors"@,
        "--skip-baseline"@ != "--repo"@,
        "--skip-baseline"@ != "--file"@,
        "--skip-baseline"@ != "--operators"@,
        "--skip-baseline"@ != "--test"@,
        "--skip-baseline"@ != "--timeout-ms"@,
        "--skip-baseline"@ != "--concurrency"@,
        "--skip-baseline"@ != "--line-range"@,
        "--skip-baseline"@ != "--json"@,
        "--skip-baseline"@ != "--sarif"@,
        "--skip-baseline"@ != "--fail-on-survivors"@,
        "--fail-on-survivors"@ != "--repo"@,
        "--fail-on-survivors"@ != "--file"@,
        "--fail-on-survivors"@ != "--operators"@,
        "--fail-on-survivors"@ != "--test"@,
        "--fail-on-survivors"@ != "--timeout-ms"@,
        "--fail-on-survivors"@ != "--concurrency"@,
        "--fail-on-survivors"@ != "--line-range"@,
        "--fail-on-survivors"@ != "--json"@,
        "--fail-on-survivors"@ != "--sarif"@,
        "--fail-on-survivors"@ != "--skip-baseline"@,
{
    reveal_strlit("--repo");
    reveal_strlit("--file");
    reveal_strlit("--operators");
    reveal_strlit("--test");
    reveal_strlit("--timeout-ms");
    reveal_strlit("--concurrency");
    reveal_strlit("--line-range");
    reveal_strlit("--json");
    reveal_strlit("--sarif");
    reveal_strlit("--skip-baseline");
    reveal_strlit("--fail-on-survivors");
    assert("--repo"@.len() == 6 && "--repo"@[2] == 'r');
    assert("--file"@.len() == 6 && "--file"@[2] == 'f');
    assert("--operators"@.len() == 11 && "--operators"@[2] == 'o');
    assert("--test"@.len() == 6 && "--test"@[2] == 't');
    assert("--timeout-ms"@.len() == 12 && "--timeout-ms"@[2] == 't');
    assert("--concurrency"@.len() == 13 && "--concurrency"@[2] == 'c');
    assert("--line-range"@.len() == 12 && "--line-range"@[2] == 'l');
    assert("--json"@.len() == 6 && "--json"@[2] == 'j');
    assert("--sarif"@.len() == 7 && "--sarif"@[2] == 's');
    assert("--skip-baseline"@.len() == 15 && "--skip-baseline"@[2] == 's');
    assert("--fail-on-survivors"@.len() == 19 && "--fail-on-survivors"@[2] == 'f');
}

/// One step of the scan: the first argument, with its value when it takes
/// one, is read, and the scan goes on after them from the options read so
/// far; arguments after the line do not change that step.
proof fn lemma_scan_step(
    arguments: Seq<Seq<char>>,
    extra: Seq<Seq<char>>,
    read: ArgumentsView,
) -> (step: (int, ArgumentsView))
    requires
        arguments.len() > 0,
        scan_arguments(arguments, read) is Ok,
    ensures
        step.0 == 1 || step.0 == 2,
        step.0 <= arguments.len(),
        scan_arguments(arguments, read) == scan_arguments(arguments.skip(step.0), step.1),
        scan_arguments(arguments + extra, read) == scan_arguments(
            arguments.skip(step.0) + extra,
            step.1,
        ),
        step.1.fail_on_survivors == (read.fail_on_survivors || arguments[0]
            == "--fail-on-survivors"@),
        step.1.skip_baseline == (read.skip_baseline || arguments[0] == "--skip-baseline"@),
{
    reveal_strlit("--fail-on-survivors");
    reveal_strlit("--skip-baseline");
    reveal_strlit("--repo");
    reveal_strlit("--file");
    reveal_strlit("--operators");
    reveal_strlit("--test");
    reveal_strlit("--timeout-ms");
    reveal_strlit("--concurrency");
    reveal_strlit("--line-range");
    reveal_strlit("--json");
    reveal_strlit("--sarif");
    let argument = arguments[0];
    let rest = arguments.drop_first();
    let longer = arguments + extra;
    assert(longer[0] == argument);
    assert(longer.drop_first() =~= rest + extra);
    assert(arguments.skip(1) =~= rest);
    if rest.len() > 0 {
        assert((rest + extra)[0] == rest[0]);
        assert((rest + extra).drop_first() =~= rest.drop_first() + extra);
        assert(arguments.skip(2) =~= rest.drop_first());
    }
    let next = if argument == "--repo"@ {
        ArgumentsView { repository: Some(rest[0]), ..read }
    } else if argument == "--file"@ {
        ArgumentsView { file: Some(rest[0]), ..read }
    } else if argument == "--operators"@ {
        ArgumentsView { operators: Some(operator_list(rest[0])->Ok_0), ..read }
    } else if argument == "--test"@ {
        ArgumentsView { test_command: Some(rest[0]), ..read }
    } else if argument == "--timeout-ms"@ {
        ArgumentsView {
            timeout_ms: positive_number(rest[0], "--timeout-ms"@, u64::MAX as nat)->Ok_0 as u64,
            ..read
        }
    } else if argument == "--concurrency"@ {
        ArgumentsView {
            concurrency: positive_number(rest[0], "--concurrency"@, usize::MAX as nat)->Ok_0 as usize,
            ..read
        }
    } else if argument == "--line-range"@ {
        ArgumentsView { line_range: Some(line_range_of(rest[0])->Ok_0), ..read }
    } else if argument == "--json"@ {
        ArgumentsView { json: true, ..read }
    } else if argument == "--sarif"@ {
        ArgumentsView { sarif: Some(rest[0]), ..read }
    } else if argument == "--skip-baseline"@ {
        ArgumentsView { skip_baseline: true, ..read }
    } else {
        ArgumentsView { fail_on_survivors: true, ..read }
    };
    lemma_flag_names_differ();
    let count: int = if argument == "--json"@ || argument == "--skip-baseline"@ || argument
        == "--fail-on-survivors"@ {
        1
    } else {
        2
    };
    if count == 1 {
        assert(scan_arguments(arguments, read) == scan_arguments(rest, next));
        assert(scan_arguments(longer, read) == scan_arguments(rest + extra, next));
    } else {
        assert(rest.len() > 0);
        assert(scan_arguments(arguments, read) == scan_arguments(rest.drop_first(), next));
        assert(scan_arguments(longer, read) == scan_arguments(rest.drop_first() + extra, next));
    }
    (count, next)
}

proof fn lemma_absent_after(arguments: Seq<Seq<char>>, flag: Seq<char>, count: int)
    requires
        0 <= count <= arguments.len(),
        !arguments.contains(flag),
    ensures
        !arguments.skip(count).contains(flag),
{
    if arguments.skip(count).contains(flag) {
        let i = choose|i: int|
            0 <= i < arguments.skip(count).len() && arguments.skip(count)[i] == flag;
        assert(arguments[i + count] == flag);
    }
}

proof fn lemma_scan_keeps_flags(arguments: Seq<Seq<char>>, read: ArgumentsView)
    ensures
        !arguments.contains("--fail-on-survivors"@) ==> (scan_arguments(arguments, read) matches Ok(
            found,
        ) ==> found.fail_on_survivors == read.fail_on_survivors),
        !arguments.contains("--skip-baseline"@) ==> (scan_arguments(arguments, read) matches Ok(
            found,
        ) ==> found.skip_baseline == read.skip_baseline),
    decreases arguments.len(),
{
    if arguments.len() > 0 && scan_arguments(arguments, read) is Ok {
        let step = lemma_scan_step(arguments, Seq::<Seq<char>>::empty(), read);
        lemma_scan_keeps_flags(arguments.skip(step.0), step.1);
        if !arguments.contains("--fail-on-survivors"@) {
            lemma_absent_after(arguments, "--fail-on-survivors"@, step.0);
            assert(arguments[0] != "--fail-on-survivors"@);
        }
        if !arguments.contains("--skip-baseline"@) {
            lemma_absent_after(arguments, "--skip-baseline"@, step.0);
            assert(arguments[0] != "--skip-baseline"@);
        }
    }
}

/// A run gates on survivors only when `--fail-on-survivors` is among its
/// arguments, and skips the baseline only when `--skip-baseline` is: both
/// are off unless asked for.
pub proof fn lemma_flags_are_opt_in(arguments: Seq<Seq<char>>)
    ensures
        run_arguments(arguments) matches Ok(options) && options.fail_on_survivors
            ==> arguments.drop_first().contains("--fail-on-survivors"@),
        run_arguments(arguments) matches Ok(options) && options.skip_baseline
            ==> arguments.drop_first().contains("--skip-baseline"@),
{
    if arguments.len() > 0 {
        lemma_scan_keeps_flags(arguments.drop_first(), no_arguments());
    }
}

proof fn lemma_scan_appended_flag(arguments: Seq<Seq<char>>, read: ArgumentsView, flag: Seq<char>)
    requires
        flag == "--fail-on-survivors"@ || flag == "--skip-baseline"@,
    ensures
        scan_arguments(arguments, read) matches Ok(found) ==> scan_arguments(
            arguments.push(flag),
            read,
        ) == Ok::<ArgumentsView, Seq<char>>(
            if flag == "--fail-on-survivors"@ {
                ArgumentsView { fail_on_survivors: true, ..found }
            } else {
                ArgumentsView { skip_baseline: true, ..found }
            },
        ),
    decreases arguments.len(),
{
    reveal_strlit("--fail-on-survivors");
    reveal_strlit("--skip-baseline");
    reveal_strlit("--repo");
    reveal_strlit("--file");
    reveal_strlit("--operators");
    reveal_strlit("--test");
    reveal_strlit("--timeout-ms");
    reveal_strlit("--concurrency");
    reveal_strlit("--line-range");
    reveal_strlit("--json");
    reveal_strlit("--sarif");
    let single = seq![flag];
    lemma_flag_names_differ();
    if arguments.len() == 0 {
        assert(arguments.push(flag) =~= single);
        assert(single[0] == flag);
        assert(single.drop_first() =~= Seq::<Seq<char>>::empty());
        assert(scan_arguments(single.drop_first(), read) == Ok::<ArgumentsView, Seq<char>>(read));
        if flag == "--fail-on-survivors"@ {
            assert(scan_arguments(single, read) == scan_arguments(
                single.drop_first(),
                ArgumentsView { fail_on_survivors: true, ..read },
            ));
        } else {
            assert(scan_arguments(single, read) == scan_arguments(
                single.drop_first(),
                ArgumentsView { skip_baseline: true, ..read },
            ));
        }
    } else if scan_arguments(arguments, read) is Ok {
        let step = lemma_scan_step(arguments, single, read);
        lemma_scan_appended_flag(arguments.skip(step.0), step.1, flag);
        assert(arguments + single =~= arguments.push(flag));
        assert(arguments.skip(step.0) + single =~= arguments.skip(step.0).push(flag));
    }
}

/// Adding `--fail-on-survivors` (or `--skip-baseline`) at the end of a
/// command line that parses turns that gate on and changes nothing else.
pub proof fn lemma_appended_flag_turns_it_on(arguments: Seq<Seq<char>>, flag: Seq<char>)
    requires
        flag == "--fail-on-survivors"@ || flag == "--skip-baseline"@,
    ensures
        run_arguments(arguments) matches Ok(options) ==> run_arguments(arguments.push(flag))
            == Ok::<OptionsView, Seq<char>>(
            if flag == "--fail-on-survivors"@ {
                OptionsView { fail_on_survivors: true, ..options }
            } else {
                OptionsView { skip_baseline: true, ..options }
            },
        ),
{
    if arguments.len() > 0 {
        lemma_scan_appended_flag(arguments.drop_first(), no_arguments(), flag);
        assert(arguments.push(flag)[0] == arguments[0]);
        assert(arguments.push(flag).drop_first() =~= arguments.drop_first().push(flag));
    }
}

/// A line range that parses is a range of 1-based lines whose ends are in
/// order and that JavaScript numbers represent exactly.
pub proof fn lemma_line_ranges_are_ordered(value: Seq<char>)
    ensures
        line_range_of(value) matches Ok(range) ==> 1 <= range.start <= range.end
            <= 9007199254740991u64,
{
}

/// Selecting a line range keeps exactly the mutants whose line lies in it,
/// both ends included, in their order.
pub proof fn lemma_line_range_keeps_lines_within(mutants: Seq<MutantView>, range: LineRange)
    ensures
        within_lines(mutants, Some(range)) == kept_items(
            mutants,
            |mutant: MutantView| range.start <= mutant.line && mutant.line <= range.end,
        ),
    decreases mutants.len(),
{
    if mutants.len() > 0 {
        lemma_line_range_keeps_lines_within(mutants.drop_last(), range);
    }
}

} // verus!
