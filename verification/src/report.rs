//! Reports: status counts, stable mutant identifiers, and the JSON and SARIF
//! documents of a run.

use vstd::prelude::*;
use vstd::utf8::*;

use crate::finder::mutants;
use crate::mutant::{is_slice_range, Mutant, MutantView};
use crate::operator::{operator_id, Operator};
use crate::runner::{
    count_status, status_count, MutantResult, MutantStatus, ResultView,
};
use crate::text::{digit_char, hex_digit_char, hex_digits, hex_text};

verus! {

/// The identifier of a status in reports.
pub open spec fn status_name(status: MutantStatus) -> Seq<char> {
    match status {
        MutantStatus::Killed => "killed"@,
        MutantStatus::Survived => "survived"@,
        MutantStatus::Timeout => "timeout"@,
        MutantStatus::Error => "error"@,
    }
}

/// The identifier of a status in reports.
pub fn status_id(status: MutantStatus) -> (id: &'static str)
    ensures
        id@ == status_name(status),
{
    match status {
        MutantStatus::Killed => "killed",
        MutantStatus::Survived => "survived",
        MutantStatus::Timeout => "timeout",
        MutantStatus::Error => "error",
    }
}

/// The counts of a set of results. `evaluated` is `killed + survived`: the
/// results with a test verdict.
#[derive(Clone, Copy, Debug, PartialEq, Eq, Structural)]
pub struct ResultSummary {
    pub total: usize,
    pub killed: usize,
    pub survived: usize,
    pub timeout: usize,
    pub error: usize,
    pub evaluated: usize,
}

/// The summary of a sequence of results.
pub open spec fn summary_of(results: Seq<ResultView>) -> ResultSummary {
    ResultSummary {
        total: results.len() as usize,
        killed: status_count(results, MutantStatus::Killed) as usize,
        survived: status_count(results, MutantStatus::Survived) as usize,
        timeout: status_count(results, MutantStatus::Timeout) as usize,
        error: status_count(results, MutantStatus::Error) as usize,
        evaluated: (status_count(results, MutantStatus::Killed) + status_count(
            results,
            MutantStatus::Survived,
        )) as usize,
    }
}

/// Every result has exactly one status, so the four counts sum to the total.
pub proof fn lemma_status_counts_sum(results: Seq<ResultView>)
    ensures
        status_count(results, MutantStatus::Killed) + status_count(results, MutantStatus::Survived)
            + status_count(results, MutantStatus::Timeout) + status_count(
            results,
            MutantStatus::Error,
        ) == results.len(),
    decreases results.len(),
{
    if results.len() > 0 {
        lemma_status_counts_sum(results.drop_last());
    }
}

/// The counts of a concatenation are the sums of the counts.
pub proof fn lemma_status_count_concat(
    first: Seq<ResultView>,
    second: Seq<ResultView>,
    status: MutantStatus,
)
    ensures
        status_count(first + second, status) == status_count(first, status) + status_count(
            second,
            status,
        ),
    decreases second.len(),
{
    if second.len() == 0 {
        assert(first + second =~= first);
    } else {
        lemma_status_count_concat(first, second.drop_last(), status);
        assert((first + second).drop_last() =~= first + second.drop_last());
    }
}

impl ResultSummary {
    /// The counts of a set of results.
    pub fn from_results(results: &[MutantResult]) -> (summary: ResultSummary)
        ensures
            summary == summary_of(results.deep_view()),
            summary.total == summary.killed + summary.survived + summary.timeout + summary.error,
            summary.evaluated == summary.killed + summary.survived,
    {
        proof {
            lemma_status_counts_sum(results.deep_view());
        }
        let killed = count_status(results, MutantStatus::Killed);
        let survived = count_status(results, MutantStatus::Survived);
        let timeout = count_status(results, MutantStatus::Timeout);
        let error = count_status(results, MutantStatus::Error);
        ResultSummary {
            total: results.len(),
            killed,
            survived,
            timeout,
            error,
            evaluated: killed + survived,
        }
    }

    /// The counts of several files' results taken together: each count is
    /// the sum of the files' counts.
    pub fn from_file_runs(file_runs: &[FileRun]) -> (summary: ResultSummary)
        requires
            all_results(file_runs@).len() <= usize::MAX,
        ensures
            summary == summary_of(all_results(file_runs@)),
    {
        let mut total: usize = 0;
        let mut killed: usize = 0;
        let mut survived: usize = 0;
        let mut timeout: usize = 0;
        let mut error: usize = 0;
        let mut index: usize = 0;
        while index < file_runs.len()
            invariant
                index <= file_runs@.len(),
                all_results(file_runs@).len() <= usize::MAX,
                summary_of(all_results(file_runs@.take(index as int))) == (ResultSummary {
                    total,
                    killed,
                    survived,
                    timeout,
                    error,
                    evaluated: (killed + survived) as usize,
                }),
                total == killed + survived + timeout + error,
                total as nat == all_results(file_runs@.take(index as int)).len(),
            decreases file_runs.len() - index,
        {
            let ghost before = all_results(file_runs@.take(index as int));
            let ghost this = file_runs@[index as int].results.deep_view();
            proof {
                assert(file_runs@.take(index + 1).drop_last() =~= file_runs@.take(index as int));
                assert(all_results(file_runs@.take(index + 1)) == before + this);
                lemma_all_results_prefix(file_runs@, index + 1);
                lemma_status_count_concat(before, this, MutantStatus::Killed);
                lemma_status_count_concat(before, this, MutantStatus::Survived);
                lemma_status_count_concat(before, this, MutantStatus::Timeout);
                lemma_status_count_concat(before, this, MutantStatus::Error);
                lemma_status_counts_sum(before + this);
            }
            let file = ResultSummary::from_results(file_runs[index].results.as_slice());
            total = total + file.total;
            killed = killed + file.killed;
            survived = survived + file.survived;
            timeout = timeout + file.timeout;
            error = error + file.error;
            index += 1;
        }
        assert(file_runs@.take(file_runs.len() as int) =~= file_runs@);
        ResultSummary { total, killed, survived, timeout, error, evaluated: killed + survived }
    }
}

/// The results of one source file and the text it had.
pub struct FileRun {
    pub file: String,
    pub source: String,
    pub results: Vec<MutantResult>,
}

/// The results of several files, one file after another.
pub open spec fn all_results(file_runs: Seq<FileRun>) -> Seq<ResultView>
    decreases file_runs.len(),
{
    if file_runs.len() == 0 {
        seq![]
    } else {
        all_results(file_runs.drop_last()) + file_runs.last().results.deep_view()
    }
}

/// The results of several files, one file after another, as one list: the
/// list that `ResultSummary::from_results` counts to give
/// `ResultSummary::from_file_runs`.
pub fn all_file_results(file_runs: &[FileRun]) -> (results: Vec<MutantResult>)
    ensures
        results.deep_view() == all_results(file_runs@),
{
    let mut results: Vec<MutantResult> = Vec::new();
    let mut index: usize = 0;
    while index < file_runs.len()
        invariant
            index <= file_runs@.len(),
            results.deep_view() == all_results(file_runs@.take(index as int)),
        decreases file_runs.len() - index,
    {
        proof {
            assert(file_runs@.take(index + 1).drop_last() =~= file_runs@.take(index as int));
            assert(file_runs@.take(index + 1).last() == file_runs@[index as int]);
        }
        let run = &file_runs[index];
        let ghost before = results.deep_view();
        let mut inner: usize = 0;
        while inner < run.results.len()
            invariant
                inner <= run.results@.len(),
                results.deep_view() == before + run.results.deep_view().take(inner as int),
            decreases run.results.len() - inner,
        {
            let ghost so_far = results.deep_view();
            results.push(run.results[inner].duplicate());
            proof {
                assert(run.results.deep_view()[inner as int] == run.results@[inner as int]@);
                assert(results.deep_view() =~= so_far.push(run.results@[inner as int]@));
                assert(run.results.deep_view().take(inner + 1) =~= run.results.deep_view().take(
                    inner as int,
                ).push(run.results@[inner as int]@));
            }
            inner += 1;
        }
        assert(run.results.deep_view().take(run.results.len() as int) =~= run.results.deep_view());
        index += 1;
    }
    assert(file_runs@.take(file_runs.len() as int) =~= file_runs@);
    results
}


/// A prefix of the files has no more results than all of them.
pub proof fn lemma_all_results_prefix(file_runs: Seq<FileRun>, count: int)
    requires
        0 <= count <= file_runs.len(),
    ensures
        all_results(file_runs.take(count)).len() <= all_results(file_runs).len(),
    decreases file_runs.len() - count,
{
    if count < file_runs.len() {
        lemma_all_results_prefix(file_runs, count + 1);
        assert(file_runs.take(count + 1).drop_last() =~= file_runs.take(count));
    } else {
        assert(file_runs.take(count) =~= file_runs);
    }
}

/// The counts of several files taken together are the sums of the files'
/// counts.
pub proof fn lemma_roll_up_sums(file_runs: Seq<FileRun>, status: MutantStatus)
    ensures
        status_count(all_results(file_runs), status) == file_count_sum(file_runs, status),
        all_results(file_runs).len() == file_total_sum(file_runs),
    decreases file_runs.len(),
{
    if file_runs.len() > 0 {
        lemma_roll_up_sums(file_runs.drop_last(), status);
        lemma_status_count_concat(
            all_results(file_runs.drop_last()),
            file_runs.last().results.deep_view(),
            status,
        );
    }
}

/// The sum over files of the count of a status.
pub open spec fn file_count_sum(file_runs: Seq<FileRun>, status: MutantStatus) -> nat
    decreases file_runs.len(),
{
    if file_runs.len() == 0 {
        0
    } else {
        file_count_sum(file_runs.drop_last(), status) + status_count(
            file_runs.last().results.deep_view(),
            status,
        )
    }
}

/// The sum over files of the number of results.
pub open spec fn file_total_sum(file_runs: Seq<FileRun>) -> nat
    decreases file_runs.len(),
{
    if file_runs.len() == 0 {
        0
    } else {
        file_total_sum(file_runs.drop_last()) + file_runs.last().results@.len()
    }
}

/// The FNV-1a prime.
pub open spec fn fnv_prime() -> nat {
    1099511628211
}

/// The FNV-1a offset basis.
pub open spec fn fnv_offset_basis() -> u64 {
    0xcbf29ce484222325
}

/// One FNV-1a step: the byte is mixed in, then the hash is multiplied by the
/// prime modulo 2^64.
pub open spec fn fnv_byte(hash: u64, byte: u8) -> u64 {
    (((hash ^ (byte as u64)) as nat * fnv_prime()) % 0x1_0000_0000_0000_0000) as u64
}

/// FNV-1a over a byte sequence, starting from `hash`.
pub open spec fn fnv_bytes(hash: u64, bytes: Seq<u8>) -> u64
    decreases bytes.len(),
{
    if bytes.len() == 0 {
        hash
    } else {
        fnv_byte(fnv_bytes(hash, bytes.drop_last()), bytes.last())
    }
}

/// The eight little-endian bytes of a `u64`.
pub open spec fn le_bytes(value: u64) -> Seq<u8> {
    Seq::new(8, |i: int| ((value >> (8 * i) as u64) & 0xff) as u8)
}

/// FNV-1a over fields, each preceded by its length as eight little-endian
/// bytes.
pub open spec fn fnv_fields(hash: u64, fields: Seq<Seq<u8>>) -> u64
    decreases fields.len(),
{
    if fields.len() == 0 {
        hash
    } else {
        fnv_bytes(
            fnv_fields(hash, fields.drop_last()),
            le_bytes(fields.last().len() as u64) + fields.last(),
        )
    }
}

fn fnv_update(hash: u64, bytes: &[u8], start: usize, end: usize) -> (updated: u64)
    requires
        start <= end <= bytes@.len(),
    ensures
        updated == fnv_bytes(hash, bytes@.subrange(start as int, end as int)),
{
    let mut current = hash;
    let mut index = start;
    while index < end
        invariant
            start <= index <= end,
            end <= bytes@.len(),
            current == fnv_bytes(hash, bytes@.subrange(start as int, index as int)),
        decreases end - index,
    {
        proof {
            assert(bytes@.subrange(start as int, index + 1).drop_last() =~= bytes@.subrange(
                start as int,
                index as int,
            ));
        }
        let mixed: u64 = current ^ (bytes[index] as u64);
        let product: u128 = (mixed as u128) * 1099511628211u128;
        current = (product % 0x1_0000_0000_0000_0000u128) as u64;
        index += 1;
    }
    current
}

fn fnv_length(hash: u64, length: u64) -> (updated: u64)
    ensures
        updated == fnv_bytes(hash, le_bytes(length)),
{
    let mut current = hash;
    let mut index: u64 = 0;
    while index < 8
        invariant
            index <= 8,
            current == fnv_bytes(hash, le_bytes(length).take(index as int)),
        decreases 8 - index,
    {
        proof {
            assert(le_bytes(length).take(index + 1).drop_last() =~= le_bytes(length).take(
                index as int,
            ));
        }
        let byte = ((length >> (8 * index)) & 0xff) as u8;
        let mixed: u64 = current ^ (byte as u64);
        let product: u128 = (mixed as u128) * 1099511628211u128;
        current = (product % 0x1_0000_0000_0000_0000u128) as u64;
        index += 1;
    }
    assert(le_bytes(length).take(8) =~= le_bytes(length));
    current
}

proof fn lemma_fnv_bytes_concat(hash: u64, first: Seq<u8>, second: Seq<u8>)
    ensures
        fnv_bytes(hash, first + second) == fnv_bytes(fnv_bytes(hash, first), second),
    decreases second.len(),
{
    if second.len() == 0 {
        assert(first + second =~= first);
    } else {
        lemma_fnv_bytes_concat(hash, first, second.drop_last());
        assert((first + second).drop_last() =~= first + second.drop_last());
    }
}

/// FNV-1a step over one length-prefixed field of the bytes `start..end`.
fn fnv_field(hash: u64, bytes: &[u8], start: usize, end: usize) -> (updated: u64)
    requires
        start <= end <= bytes@.len(),
    ensures
        updated == fnv_bytes(
            hash,
            le_bytes((end - start) as u64) + bytes@.subrange(start as int, end as int),
        ),
{
    let prefixed = fnv_length(hash, (end - start) as u64);
    proof {
        lemma_fnv_bytes_concat(
            hash,
            le_bytes((end - start) as u64),
            bytes@.subrange(start as int, end as int),
        );
    }
    fnv_update(prefixed, bytes, start, end)
}

/// The bytes that a mutant replaces, or none when its span cannot be cut out
/// of the source.
pub open spec fn original_bytes(source: Seq<char>, mutant: MutantView) -> Seq<u8> {
    let bytes = encode_utf8(source);
    if is_slice_range(bytes, mutant.span_start as int, mutant.span_end as int) {
        bytes.subrange(mutant.span_start as int, mutant.span_end as int)
    } else {
        seq![]
    }
}

/// The stable identifier of a mutant: sixteen lowercase hexadecimal digits
/// of FNV-1a over the file path, the operator identifier, the replaced text,
/// the replacement text and the 1-based occurrence among the file's mutants
/// of the same operator. Lines, columns and byte offsets do not enter it.
pub open spec fn mutant_id(
    file: Seq<char>,
    source: Seq<char>,
    mutant: MutantView,
    occurrence: u64,
) -> Seq<char> {
    hex_digits(
        fnv_fields(
            fnv_offset_basis(),
            seq![
                encode_utf8(file),
                encode_utf8(operator_id(mutant.operator)),
                original_bytes(source, mutant),
                encode_utf8(mutant.replacement),
                le_bytes(occurrence),
            ],
        ) as nat,
        16,
    )
}

/// The stable identifier of a mutant.
pub fn stable_mutant_id(file: &str, source: &str, mutant: &Mutant, occurrence_index: u64) -> (id:
    String)
    ensures
        id@ == mutant_id(file@, source@, mutant@, occurrence_index),
{
    let file_bytes = file.as_bytes();
    let operator_bytes = mutant.operator.id().as_bytes();
    let source_bytes = source.as_bytes();
    let replacement_bytes = mutant.replacement.as_str().as_bytes();
    let start = mutant.span_start as usize;
    let end = mutant.span_end as usize;
    let valid = start <= end && source.is_char_boundary(start) && source.is_char_boundary(end);
    let ghost fields = seq![
        encode_utf8(file@),
        encode_utf8(operator_id(mutant.operator)),
        original_bytes(source@, mutant@),
        encode_utf8(mutant.replacement@),
        le_bytes(occurrence_index),
    ];
    let mut hash: u64 = 0xcbf29ce484222325;
    proof {
        assert(file_bytes@.subrange(0, file_bytes@.len() as int) =~= file_bytes@);
        assert(operator_bytes@.subrange(0, operator_bytes@.len() as int) =~= operator_bytes@);
        assert(replacement_bytes@.subrange(0, replacement_bytes@.len() as int)
            =~= replacement_bytes@);
        assert(fields.take(0) =~= Seq::<Seq<u8>>::empty());
        assert(fields.take(1).drop_last() =~= fields.take(0));
        assert(fields.take(2).drop_last() =~= fields.take(1));
        assert(fields.take(3).drop_last() =~= fields.take(2));
        assert(fields.take(4).drop_last() =~= fields.take(3));
        assert(fields.take(5).drop_last() =~= fields.take(4));
        assert(fields.take(5) =~= fields);
    }
    assert(hash == fnv_fields(fnv_offset_basis(), fields.take(0)));
    hash = fnv_field(hash, file_bytes, 0, file_bytes.len());
    assert(fields.take(1).last() == file_bytes@);
    assert(hash == fnv_fields(fnv_offset_basis(), fields.take(1)));
    hash = fnv_field(hash, operator_bytes, 0, operator_bytes.len());
    assert(fields.take(2).last() == operator_bytes@);
    assert(hash == fnv_fields(fnv_offset_basis(), fields.take(2)));
    if valid {
        proof {
            encode_utf8_valid_utf8(source@);
            assert(end <= source_bytes@.len()) by {
                reveal_with_fuel(is_char_boundary, 2);
            }
        }
        hash = fnv_field(hash, source_bytes, start, end);
    } else {
        hash = fnv_field(hash, source_bytes, 0, 0);
        proof {
            assert(source_bytes@.subrange(0, 0) =~= Seq::<u8>::empty());
        }
    }
    assert(fields.take(3).last() == original_bytes(source@, mutant@));
    assert(hash == fnv_fields(fnv_offset_basis(), fields.take(3)));
    hash = fnv_field(hash, replacement_bytes, 0, replacement_bytes.len());
    assert(fields.take(4).last() == replacement_bytes@);
    assert(hash == fnv_fields(fnv_offset_basis(), fields.take(4)));
    hash = fnv_length(hash, 8);
    let occurrence_bytes_hash = hash;
    let mut index: u64 = 0;
    let mut current = occurrence_bytes_hash;
    while index < 8
        invariant
            index <= 8,
            current == fnv_bytes(occurrence_bytes_hash, le_bytes(occurrence_index).take(
                index as int,
            )),
        decreases 8 - index,
    {
        proof {
            assert(le_bytes(occurrence_index).take(index + 1).drop_last() =~= le_bytes(
                occurrence_index,
            ).take(index as int));
        }
        let byte = ((occurrence_index >> (8 * index)) & 0xff) as u8;
        assert(byte == le_bytes(occurrence_index)[index as int]);
        let mixed: u64 = current ^ (byte as u64);
        let product: u128 = (mixed as u128) * 1099511628211u128;
        current = (product % 0x1_0000_0000_0000_0000u128) as u64;
        index += 1;
    }
    proof {
        assert(le_bytes(occurrence_index).take(8) =~= le_bytes(occurrence_index));
        assert(fields.take(5).last() == le_bytes(occurrence_index));
        assert(le_bytes(occurrence_index).len() as u64 == 8);
        lemma_fnv_bytes_concat(
            fnv_fields(fnv_offset_basis(), fields.take(4)),
            le_bytes(8),
            le_bytes(occurrence_index),
        );
        assert(le_bytes(occurrence_index).len() == 8);
    }
    hex_text(current, 16)
}

/// The identifier of a mutant depends on the file, the operator, the text it
/// replaces, its replacement and its occurrence, and on nothing else: moving
/// a mutant to another line or offset keeps its identifier.
pub proof fn lemma_mutant_id_ignores_position(
    file: Seq<char>,
    first_source: Seq<char>,
    first: MutantView,
    second_source: Seq<char>,
    second: MutantView,
    occurrence: u64,
)
    requires
        first.operator == second.operator,
        first.replacement == second.replacement,
        original_bytes(first_source, first) == original_bytes(second_source, second),
    ensures
        mutant_id(file, first_source, first, occurrence) == mutant_id(
            file,
            second_source,
            second,
            occurrence,
        ),
{
}

/// The identifier of a mutant is the sixteen hexadecimal digits of FNV-1a
/// over one byte string: the file path, the operator's identifier, the
/// replaced bytes, the replacement and the occurrence, each preceded by its
/// length as eight little-endian bytes. The hashed bytes begin with the file
/// path, so the same change in two files is hashed from two inputs.
pub proof fn lemma_mutant_id_hashes_its_fields(
    file: Seq<char>,
    source: Seq<char>,
    mutant: MutantView,
    occurrence: u64,
)
    ensures
        mutant_id(file, source, mutant, occurrence) == hex_digits(
            fnv_bytes(
                fnv_offset_basis(),
                le_bytes(encode_utf8(file).len() as u64) + encode_utf8(file) + le_bytes(
                    encode_utf8(operator_id(mutant.operator)).len() as u64,
                ) + encode_utf8(operator_id(mutant.operator)) + le_bytes(
                    original_bytes(source, mutant).len() as u64,
                ) + original_bytes(source, mutant) + le_bytes(
                    encode_utf8(mutant.replacement).len() as u64,
                ) + encode_utf8(mutant.replacement) + le_bytes(8) + le_bytes(occurrence),
            ) as nat,
            16,
        ),
{
    let path = encode_utf8(file);
    let operator = encode_utf8(operator_id(mutant.operator));
    let replaced = original_bytes(source, mutant);
    let replacement = encode_utf8(mutant.replacement);
    let count = le_bytes(occurrence);
    let fields = seq![path, operator, replaced, replacement, count];
    let part = |field: Seq<u8>| le_bytes(field.len() as u64) + field;
    assert(count.len() == 8);
    assert(fields.drop_last() =~= seq![path, operator, replaced, replacement]);
    assert(fields.drop_last().drop_last() =~= seq![path, operator, replaced]);
    assert(fields.drop_last().drop_last().drop_last() =~= seq![path, operator]);
    assert(fields.drop_last().drop_last().drop_last().drop_last() =~= seq![path]);
    assert(seq![path].drop_last() =~= Seq::<Seq<u8>>::empty());
    let basis = fnv_offset_basis();
    let h1 = fnv_fields(basis, seq![path]);
    let h2 = fnv_fields(basis, seq![path, operator]);
    let h3 = fnv_fields(basis, seq![path, operator, replaced]);
    let h4 = fnv_fields(basis, seq![path, operator, replaced, replacement]);
    assert(fnv_fields(basis, seq![path].drop_last()) == basis);
    assert(seq![path].last() == path);
    assert(h1 == fnv_bytes(basis, part(path)));
    assert(h2 == fnv_bytes(h1, part(operator)));
    assert(h3 == fnv_bytes(h2, part(replaced)));
    assert(h4 == fnv_bytes(h3, part(replacement)));
    assert(fnv_fields(basis, fields) == fnv_bytes(h4, part(count)));
    lemma_fnv_bytes_concat(basis, part(path), part(operator));
    lemma_fnv_bytes_concat(basis, part(path) + part(operator), part(replaced));
    lemma_fnv_bytes_concat(basis, part(path) + part(operator) + part(replaced), part(replacement));
    lemma_fnv_bytes_concat(
        basis,
        part(path) + part(operator) + part(replaced) + part(replacement),
        part(count),
    );
    assert(part(path) + part(operator) + part(replaced) + part(replacement) + part(count)
        =~= le_bytes(path.len() as u64) + path + le_bytes(operator.len() as u64) + operator
        + le_bytes(replaced.len() as u64) + replaced + le_bytes(replacement.len() as u64)
        + replacement + le_bytes(8) + count);
}

/// Whether a character is a lowercase hexadecimal digit.
pub open spec fn is_lower_hex(character: char) -> bool {
    ('0' <= character && character <= '9') || ('a' <= character && character <= 'f')
}

proof fn lemma_hex_digits_shape(value: nat, width: nat)
    ensures
        hex_digits(value, width).len() == width,
        forall|i: int| 0 <= i < width ==> is_lower_hex(#[trigger] hex_digits(value, width)[i]),
    decreases width,
{
    if width > 0 {
        lemma_hex_digits_shape(value / 16, (width - 1) as nat);
        let digit = value % 16;
        assert(is_lower_hex(hex_digit_char(digit))) by {
            if digit < 10 {
                assert(digit_char(digit) == (digit + 48) as char);
            }
        }
    }
}

/// A mutant identifier has a fixed width: sixteen lowercase hexadecimal
/// digits.
pub proof fn lemma_mutant_id_is_fixed_width(
    file: Seq<char>,
    source: Seq<char>,
    mutant: MutantView,
    occurrence: u64,
)
    ensures
        mutant_id(file, source, mutant, occurrence).len() == 16,
        forall|i: int|
            0 <= i < 16 ==> is_lower_hex(#[trigger] mutant_id(file, source, mutant, occurrence)[i]),
{
    let fields = seq![
        encode_utf8(file),
        encode_utf8(operator_id(mutant.operator)),
        original_bytes(source, mutant),
        encode_utf8(mutant.replacement),
        le_bytes(occurrence),
    ];
    lemma_hex_digits_shape(fnv_fields(fnv_offset_basis(), fields) as nat, 16);
}

/// Whether two mutants are equal in every field.
pub fn same_mutant(first: &Mutant, second: &Mutant) -> (same: bool)
    ensures
        same == (first@ == second@),
{
    first.line == second.line && first.column == second.column && first.operator
        == second.operator && first.span_start == second.span_start && first.span_end
        == second.span_end && crate::text::text_equals(
        first.replacement.as_str(),
        second.replacement.as_str(),
    )
}

/// The 1-based position of `mutant` among the mutants of its operator in
/// `generated`, counting to its first occurrence; zero when it is absent.
pub open spec fn occurrence_of(generated: Seq<MutantView>, mutant: MutantView) -> nat
    decreases generated.len(),
{
    if generated.len() == 0 {
        0
    } else if generated[0].operator != mutant.operator {
        occurrence_of(generated.drop_first(), mutant)
    } else if generated[0] == mutant {
        1
    } else {
        let later = occurrence_of(generated.drop_first(), mutant);
        if later == 0 {
            0
        } else {
            later + 1
        }
    }
}

proof fn lemma_occurrence_bound(generated: Seq<MutantView>, mutant: MutantView)
    ensures
        occurrence_of(generated, mutant) <= generated.len(),
    decreases generated.len(),
{
    if generated.len() > 0 {
        lemma_occurrence_bound(generated.drop_first(), mutant);
    }
}

/// The 1-based position of a mutant among the generated mutants of its
/// operator, or zero when it was not generated.
pub fn operator_occurrence_index(generated: &[Mutant], mutant: &Mutant) -> (index: u64)
    ensures
        index as nat == occurrence_of(generated.deep_view(), mutant@),
{
    let ghost views = generated.deep_view();
    proof {
        lemma_occurrence_bound(views, mutant@);
        assert(views.skip(0) =~= views);
    }
    let mut seen: u64 = 0;
    let mut index: usize = 0;
    while index < generated.len()
        invariant
            views == generated.deep_view(),
            index <= views.len(),
            seen <= index,
            occurrence_of(views, mutant@) == if occurrence_of(views.skip(index as int), mutant@)
                == 0 {
                0
            } else {
                seen + occurrence_of(views.skip(index as int), mutant@)
            },
        decreases generated.len() - index,
    {
        proof {
            assert(views.skip(index as int)[0] == generated@[index as int]@);
            assert(views.skip(index as int).drop_first() =~= views.skip(index + 1));
            lemma_occurrence_bound(views.skip(index + 1), mutant@);
        }
        if generated[index].operator == mutant.operator {
            seen += 1;
            if same_mutant(&generated[index], mutant) {
                return seen;
            }
        }
        index += 1;
    }
    0
}

/// The operators of surviving mutants, each once, in order of first
/// survivor.
pub open spec fn surviving_operators_of(results: Seq<ResultView>) -> Seq<Operator>
    decreases results.len(),
{
    if results.len() == 0 {
        seq![]
    } else {
        let earlier = surviving_operators_of(results.drop_last());
        let last = results.last();
        if last.status == MutantStatus::Survived && !earlier.contains(last.mutant.operator) {
            earlier.push(last.mutant.operator)
        } else {
            earlier
        }
    }
}

/// The operators of the SARIF rules are those of the surviving mutants, each
/// once: an operator is listed exactly when some result of it survived.
pub proof fn lemma_surviving_operators_are_those_of_survivors(
    results: Seq<ResultView>,
    operator: Operator,
)
    ensures
        surviving_operators_of(results).contains(operator) <==> exists|i: int|
            0 <= i < results.len() && (#[trigger] results[i]).status == MutantStatus::Survived
                && results[i].mutant.operator == operator,
        surviving_operators_of(results).no_duplicates(),
    decreases results.len(),
{
    if results.len() > 0 {
        let rest = results.drop_last();
        let last = results.last();
        lemma_surviving_operators_are_those_of_survivors(rest, operator);
        lemma_surviving_operators_are_those_of_survivors(rest, last.mutant.operator);
        let earlier = surviving_operators_of(rest);
        if exists|i: int|
            0 <= i < rest.len() && (#[trigger] rest[i]).status == MutantStatus::Survived
                && rest[i].mutant.operator == operator {
            let i = choose|i: int|
                0 <= i < rest.len() && (#[trigger] rest[i]).status == MutantStatus::Survived
                    && rest[i].mutant.operator == operator;
            assert(results[i] == rest[i]);
        }
        if exists|i: int|
            0 <= i < results.len() && (#[trigger] results[i]).status == MutantStatus::Survived
                && results[i].mutant.operator == operator {
            let i = choose|i: int|
                0 <= i < results.len() && (#[trigger] results[i]).status == MutantStatus::Survived
                    && results[i].mutant.operator == operator;
            if i < rest.len() {
                assert(rest[i] == results[i]);
            } else {
                assert(results[i] == last);
            }
        }
        if last.status == MutantStatus::Survived && !earlier.contains(last.mutant.operator) {
            let longer = earlier.push(last.mutant.operator);
            assert(longer[longer.len() - 1] == last.mutant.operator);
            if longer.contains(operator) {
                let k = choose|k: int| 0 <= k < longer.len() && longer[k] == operator;
                if k < earlier.len() {
                    assert(earlier[k] == operator);
                }
            }
            if earlier.contains(operator) {
                let k = choose|k: int| 0 <= k < earlier.len() && earlier[k] == operator;
                assert(longer[k] == operator);
            }
            assert forall|a: int, b: int|
                0 <= a < longer.len() && 0 <= b < longer.len() && a != b implies longer[a]
                != longer[b] by {
                if a < earlier.len() && b < earlier.len() {
                } else if a < earlier.len() {
                    assert(earlier.contains(longer[a]));
                } else if b < earlier.len() {
                    assert(earlier.contains(longer[b]));
                }
            }
        }
    }
}

fn contains_operator(operators: &Vec<Operator>, operator: Operator) -> (found: bool)
    ensures
        found == operators@.contains(operator),
{
    let mut index: usize = 0;
    while index < operators.len()
        invariant
            index <= operators@.len(),
            forall|j: int| 0 <= j < index ==> operators@[j] != operator,
        decreases operators.len() - index,
    {
        if operators[index] == operator {
            return true;
        }
        index += 1;
    }
    false
}

/// The operators of surviving mutants, each once, in order of first
/// survivor.
pub fn surviving_operators(results: &[MutantResult]) -> (operators: Vec<Operator>)
    ensures
        operators@ == surviving_operators_of(results.deep_view()),
{
    let ghost views = results.deep_view();
    let mut operators: Vec<Operator> = Vec::new();
    let mut index: usize = 0;
    while index < results.len()
        invariant
            views == results.deep_view(),
            index <= views.len(),
            operators@ == surviving_operators_of(views.take(index as int)),
        decreases results.len() - index,
    {
        proof {
            assert(views.take(index + 1).drop_last() =~= views.take(index as int));
            assert(views.take(index + 1).last() == results@[index as int]@);
        }
        let result = &results[index];
        if result.status == MutantStatus::Survived && !contains_operator(
            &operators,
            result.mutant.operator,
        ) {
            operators.push(result.mutant.operator);
        }
        index += 1;
    }
    assert(views.take(results.len() as int) =~= views);
    operators
}

} // verus!
