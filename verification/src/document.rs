//! The JSON and SARIF documents of a run, written as text.
//!
//! The score of a JSON document is `killed / evaluated`, a floating-point
//! number that the caller divides and renders; the documents write `null` in
//! its place when nothing was evaluated.

use vstd::prelude::*;
use vstd::utf8::*;

use crate::finder::{mutants, mutants_of};
use crate::mutant::{join, MutantView};
use crate::operator::{operator_id, Operator};
use crate::report::{
    all_results, lemma_status_count_concat, mutant_id, occurrence_of, operator_occurrence_index,
    stable_mutant_id, status_id,
    status_name, summary_of, surviving_operators, surviving_operators_of, FileRun, ResultSummary,
};
use crate::order::kept_items;
use crate::runner::{status_count, MutantResult, MutantStatus, ResultView};
use crate::syntax::typescript_scan;
use crate::text::{decimal, decimal_text, hex_digits, hex_text, owned, push_char};

verus! {

/// How JSON writes a character inside a string.
pub open spec fn json_char(character: char) -> Seq<char> {
    if character == '"' {
        "\\\""@
    } else if character == '\\' {
        "\\\\"@
    } else if character == '\u{8}' {
        "\\b"@
    } else if character == '\u{c}' {
        "\\f"@
    } else if character == '\n' {
        "\\n"@
    } else if character == '\r' {
        "\\r"@
    } else if character == '\t' {
        "\\t"@
    } else if character <= '\u{1f}' {
        "\\u"@ + hex_digits(character as nat, 4)
    } else {
        seq![character]
    }
}

/// The characters of a JSON string's contents.
pub open spec fn json_chars(text: Seq<char>) -> Seq<char>
    decreases text.len(),
{
    if text.len() == 0 {
        seq![]
    } else {
        json_chars(text.drop_last()) + json_char(text.last())
    }
}

/// A JSON string literal.
pub open spec fn json_string(text: Seq<char>) -> Seq<char> {
    "\""@ + json_chars(text) + "\""@
}

/// The short escape of a character in a JSON string, if it has one.
pub fn json_escape(character: char) -> (escape: Option<&'static str>)
    ensures
        match escape {
            Some(text) => text@ == json_char(character) && (character == '"' || character == '\\'
                || character == '\u{8}' || character == '\u{c}' || character == '\n' || character
                == '\r' || character == '\t'),
            None => !(character == '"' || character == '\\' || character == '\u{8}' || character
                == '\u{c}' || character == '\n' || character == '\r' || character == '\t'),
        },
{
    if character == '"' {
        Some("\\\"")
    } else if character == '\\' {
        Some("\\\\")
    } else if character == '\u{8}' {
        Some("\\b")
    } else if character == '\u{c}' {
        Some("\\f")
    } else if character == '\n' {
        Some("\\n")
    } else if character == '\r' {
        Some("\\r")
    } else if character == '\t' {
        Some("\\t")
    } else {
        None
    }
}

/// Appends a JSON string literal.
pub fn push_json_string(output: &mut String, value: &str)
    ensures
        final(output)@ == old(output)@ + json_string(value@),
{
    let ghost start = output@;
    output.append("\"");
    let length = value.unicode_len();
    let mut index: usize = 0;
    while index < length
        invariant
            length == value@.len(),
            index <= length,
            output@ == start + "\""@ + json_chars(value@.take(index as int)),
        decreases length - index,
    {
        let character = value.get_char(index);
        proof {
            assert(value@.take(index + 1).drop_last() =~= value@.take(index as int));
            assert(value@.take(index + 1).last() == character);
        }
        match json_escape(character) {
            Some(escape) => output.append(escape),
            None => {
                if character <= '\u{1f}' {
                    output.append("\\u");
                    let digits = hex_text(character as u64, 4);
                    output.append(digits.as_str());
                } else {
                    push_char(output, character);
                }
            },
        }
        index += 1;
    }
    output.append("\"");
    assert(value@.take(length as int) =~= value@);
}

fn push_decimal(output: &mut String, value: u64)
    ensures
        final(output)@ == old(output)@ + decimal(value as nat),
{
    let digits = decimal_text(value);
    output.append(digits.as_str());
}

/// Every operator, in declaration order.
pub open spec fn every_operator() -> Seq<Operator> {
    seq![
        Operator::CondBoundaryGt,
        Operator::CondBoundaryLt,
        Operator::LogicalAndToOr,
        Operator::LogicalOrToAnd,
        Operator::EqualityStrictToLooseNeg,
        Operator::InequalityToEquality,
        Operator::ReturnTrueToFalse,
        Operator::ReturnFalseToTrue,
    ]
}

fn all_operators() -> (operators: Vec<Operator>)
    ensures
        operators@ == every_operator(),
{
    let operators = vec![
        Operator::CondBoundaryGt,
        Operator::CondBoundaryLt,
        Operator::LogicalAndToOr,
        Operator::LogicalOrToAnd,
        Operator::EqualityStrictToLooseNeg,
        Operator::InequalityToEquality,
        Operator::ReturnTrueToFalse,
        Operator::ReturnFalseToTrue,
    ];
    assert(operators@ =~= every_operator());
    operators
}

/// The mutants of every operator in a source, which identifiers count
/// occurrences in; none when it does not parse.
pub open spec fn generated_mutants(file: Seq<char>, source: Seq<char>) -> Seq<MutantView> {
    let scan = typescript_scan(source, file);
    if scan.diagnostics.len() == 0 {
        mutants_of(encode_utf8(source), scan.tokens, scan.sites, every_operator())
    } else {
        seq![]
    }
}

fn generate_all(file: &str, source: &str) -> (generated: Vec<crate::mutant::Mutant>)
    ensures
        generated.deep_view() == generated_mutants(file@, source@),
{
    let operators = all_operators();
    let generated = mutants(source, file, operators.as_slice());
    proof {
        if typescript_scan(source@, file@).diagnostics.len() != 0 {
            assert(generated.deep_view() =~= Seq::<MutantView>::empty());
        }
    }
    generated
}

/// The stable identifier of a result's mutant among the generated mutants.
pub open spec fn result_id(
    file: Seq<char>,
    source: Seq<char>,
    generated: Seq<MutantView>,
    result: ResultView,
) -> Seq<char> {
    mutant_id(file, source, result.mutant, occurrence_of(generated, result.mutant) as u64)
}

/// The JSON object of one result.
pub open spec fn json_entry(
    file: Seq<char>,
    source: Seq<char>,
    generated: Seq<MutantView>,
    result: ResultView,
) -> Seq<char> {
    "{\"id\":"@ + json_string(result_id(file, source, generated, result)) + ",\"line\":"@
        + decimal(result.mutant.line as nat) + ",\"operator\":"@ + json_string(
        operator_id(result.mutant.operator),
    ) + ",\"status\":"@ + json_string(status_name(result.status)) + match result.detail {
        Some(detail) => ",\"detail\":"@ + json_string(detail),
        None => Seq::<char>::empty(),
    } + "}"@
}

/// The JSON objects of the results, separated by commas.
pub open spec fn json_entries(
    file: Seq<char>,
    source: Seq<char>,
    generated: Seq<MutantView>,
    results: Seq<ResultView>,
) -> Seq<char> {
    join(Seq::new(results.len(), |i: int| json_entry(file, source, generated, results[i])), ","@)
}

/// The counts of a summary as JSON members, up to the score's key.
pub open spec fn json_counts(summary: ResultSummary) -> Seq<char> {
    "\"total\":"@ + decimal(summary.total as nat) + ",\"killed\":"@ + decimal(
        summary.killed as nat,
    ) + ",\"survived\":"@ + decimal(summary.survived as nat) + ",\"timeout\":"@ + decimal(
        summary.timeout as nat,
    ) + ",\"error\":"@ + decimal(summary.error as nat) + ",\"evaluated\":"@ + decimal(
        summary.evaluated as nat,
    ) + ",\"score\":"@
}

/// The value of a report's score: `null` when no mutant was evaluated (never
/// zero, which would claim that the suite caught none), else the ratio
/// `killed / evaluated` as the caller rendered it.
pub open spec fn score_value(summary: ResultSummary, ratio: Seq<char>) -> Seq<char> {
    if summary.evaluated == 0 {
        "null"@
    } else {
        ratio
    }
}

/// The value of a report's score, given the rendered ratio
/// `killed / evaluated`.
pub fn score_field(summary: &ResultSummary, ratio: &str) -> (score: String)
    ensures
        score@ == score_value(*summary, ratio@),
        summary.evaluated == 0 ==> score@ == "null"@,
        summary.evaluated > 0 ==> score@ == ratio@,
{
    if summary.evaluated == 0 {
        owned("null")
    } else {
        owned(ratio)
    }
}

/// The JSON document of one file's results; `ratio` is the rendered
/// `killed / evaluated`.
pub open spec fn json_document(
    file: Seq<char>,
    source: Seq<char>,
    results: Seq<ResultView>,
    ratio: Seq<char>,
) -> Seq<char> {
    "{\"schema_version\":2,"@ + json_counts(summary_of(results)) + score_value(
        summary_of(results),
        ratio,
    ) + ",\"mutants\":["@
        + json_entries(file, source, generated_mutants(file, source), results) + "]}\n"@
}

fn push_counts(output: &mut String, summary: &ResultSummary)
    ensures
        final(output)@ == old(output)@ + json_counts(*summary),
{
    output.append("\"total\":");
    push_decimal(output, summary.total as u64);
    output.append(",\"killed\":");
    push_decimal(output, summary.killed as u64);
    output.append(",\"survived\":");
    push_decimal(output, summary.survived as u64);
    output.append(",\"timeout\":");
    push_decimal(output, summary.timeout as u64);
    output.append(",\"error\":");
    push_decimal(output, summary.error as u64);
    output.append(",\"evaluated\":");
    push_decimal(output, summary.evaluated as u64);
    output.append(",\"score\":");
}

fn push_json_entry(
    output: &mut String,
    file: &str,
    source: &str,
    generated: &Vec<crate::mutant::Mutant>,
    result: &MutantResult,
)
    ensures
        final(output)@ == old(output)@ + json_entry(
            file@,
            source@,
            generated.deep_view(),
            result@,
        ),
{
    output.append("{\"id\":");
    let occurrence = operator_occurrence_index(generated.as_slice(), &result.mutant);
    let id = stable_mutant_id(file, source, &result.mutant, occurrence);
    push_json_string(output, id.as_str());
    output.append(",\"line\":");
    push_decimal(output, result.mutant.line as u64);
    output.append(",\"operator\":");
    push_json_string(output, result.mutant.operator.id());
    output.append(",\"status\":");
    push_json_string(output, status_id(result.status));
    match &result.detail {
        Some(detail) => {
            output.append(",\"detail\":");
            push_json_string(output, detail.as_str());
        },
        None => {},
    }
    output.append("}");
}

proof fn lemma_join_push(parts: Seq<Seq<char>>, part: Seq<char>, separator: Seq<char>)
    ensures
        join(parts.push(part), separator) == if parts.len() == 0 {
            part
        } else {
            join(parts, separator) + separator + part
        },
{
    assert(parts.push(part).drop_last() =~= parts);
    if parts.len() == 0 {
        assert(parts.push(part)[0] == part);
    }
}

fn push_json_entries(
    output: &mut String,
    file: &str,
    source: &str,
    generated: &Vec<crate::mutant::Mutant>,
    results: &[MutantResult],
)
    ensures
        final(output)@ == old(output)@ + json_entries(
            file@,
            source@,
            generated.deep_view(),
            results.deep_view(),
        ),
{
    let ghost start = output@;
    let ghost views = results.deep_view();
    let ghost entries = Seq::new(
        views.len(),
        |i: int| json_entry(file@, source@, generated.deep_view(), views[i]),
    );
    let mut index: usize = 0;
    while index < results.len()
        invariant
            views == results.deep_view(),
            entries.len() == views.len(),
            forall|i: int|
                0 <= i < views.len() ==> #[trigger] entries[i] == json_entry(
                    file@,
                    source@,
                    generated.deep_view(),
                    views[i],
                ),
            index <= views.len(),
            output@ == start + join(entries.take(index as int), ","@),
        decreases results.len() - index,
    {
        proof {
            assert(entries.take(index + 1) =~= entries.take(index as int).push(entries[index as int]));
            lemma_join_push(entries.take(index as int), entries[index as int], ","@);
            assert(views[index as int] == results@[index as int]@);
        }
        if index > 0 {
            output.append(",");
        }
        push_json_entry(output, file, source, generated, &results[index]);
        index += 1;
    }
    assert(entries.take(results.len() as int) =~= entries);
}

/// Appends the JSON document of one file's results. `ratio` is the rendered
/// `killed / evaluated`; the score is `null` when nothing was evaluated.
pub fn write_json_to(
    file: &str,
    source: &str,
    results: &[MutantResult],
    ratio: &str,
    output: &mut String,
)
    ensures
        final(output)@ == old(output)@ + json_document(file@, source@, results.deep_view(), ratio@),
{
    let summary = ResultSummary::from_results(results);
    let generated = generate_all(file, source);
    output.append("{\"schema_version\":2,");
    push_counts(output, &summary);
    let score = score_field(&summary, ratio);
    output.append(score.as_str());
    output.append(",\"mutants\":[");
    push_json_entries(output, file, source, &generated, results);
    output.append("]}\n");
}

/// The JSON object of one file's results; `ratio` is its rendered
/// `killed / evaluated`.
#[verifier::opaque]
pub open spec fn json_file_entry(run: FileRun, ratio: Seq<char>) -> Seq<char> {
    "{\"file\":"@ + json_string(run.file@) + ","@ + json_counts(summary_of(run.results.deep_view()))
        + score_value(summary_of(run.results.deep_view()), ratio) + ",\"mutants\":["@ + json_entries(
        run.file@,
        run.source@,
        generated_mutants(run.file@, run.source@),
        run.results.deep_view(),
    ) + "]}"@
}

/// The JSON document of several files' results: the overall counts and
/// score, then one object per file; `ratio` and `file_ratios` are the
/// rendered `killed / evaluated` of all results and of each file's.
pub open spec fn multi_json_document(
    file_runs: Seq<FileRun>,
    ratio: Seq<char>,
    file_ratios: Seq<Seq<char>>,
) -> Seq<char> {
    "{\"schema_version\":2,"@ + json_counts(summary_of(all_results(file_runs))) + score_value(
        summary_of(all_results(file_runs)),
        ratio,
    ) + ",\"files\":["@ + join(
        Seq::new(file_runs.len(), |i: int| json_file_entry(file_runs[i], file_ratios[i])),
        ","@,
    ) + "]}\n"@
}

/// What a one-file JSON document and a file's object in a several-file
/// document share: the counts, the score, and the results.
pub open spec fn json_body(
    file: Seq<char>,
    source: Seq<char>,
    results: Seq<ResultView>,
    ratio: Seq<char>,
) -> Seq<char> {
    json_counts(summary_of(results)) + score_value(summary_of(results), ratio) + ",\"mutants\":["@
        + json_entries(file, source, generated_mutants(file, source), results) + "]}"@
}

/// A file's object in a several-file document is the one-file document of
/// its results with the file's name in place of the schema version, and
/// without the final newline.
pub proof fn lemma_file_entry_matches_document(run: FileRun, ratio: Seq<char>)
    ensures
        json_document(run.file@, run.source@, run.results.deep_view(), ratio)
            == "{\"schema_version\":2,"@ + json_body(
            run.file@,
            run.source@,
            run.results.deep_view(),
            ratio,
        ) + "\n"@,
        json_file_entry(run, ratio) == "{\"file\":"@ + json_string(run.file@) + ","@ + json_body(
            run.file@,
            run.source@,
            run.results.deep_view(),
            ratio,
        ),
{
    reveal(json_file_entry);
    reveal_strlit("]}\n");
    reveal_strlit("]}");
    reveal_strlit("\n");
    let results = run.results.deep_view();
    assert("]}\n"@ =~= "]}"@ + "\n"@);
    assert(json_document(run.file@, run.source@, results, ratio) =~= "{\"schema_version\":2,"@
        + json_body(run.file@, run.source@, results, ratio) + "\n"@);
    assert(json_file_entry(run, ratio) =~= "{\"file\":"@ + json_string(run.file@) + ","@
        + json_body(run.file@, run.source@, results, ratio));
}

/// Appends the JSON object of one file's results; `ratio` is its rendered
/// `killed / evaluated`.
pub fn write_json_file_entry(output: &mut String, run: &FileRun, ratio: &str)
    ensures
        final(output)@ == old(output)@ + json_file_entry(*run, ratio@),
{
    reveal(json_file_entry);
    let summary = ResultSummary::from_results(run.results.as_slice());
    let generated = generate_all(run.file.as_str(), run.source.as_str());
    output.append("{\"file\":");
    push_json_string(output, run.file.as_str());
    output.append(",");
    push_counts(output, &summary);
    let score = score_field(&summary, ratio);
    output.append(score.as_str());
    output.append(",\"mutants\":[");
    push_json_entries(
        output,
        run.file.as_str(),
        run.source.as_str(),
        &generated,
        run.results.as_slice(),
    );
    output.append("]}");
}

/// Appends the JSON document of several files' results. `ratio` and
/// `file_ratios` (one per file) are the rendered `killed / evaluated` of all
/// results and of each file's; a score is `null` when nothing was evaluated.
#[verifier::spinoff_prover]
pub fn write_multi_json_to(
    file_runs: &[FileRun],
    ratio: &str,
    file_ratios: &[String],
    output: &mut String,
)
    requires
        file_ratios@.len() == file_runs@.len(),
        all_results(file_runs@).len() <= usize::MAX,
    ensures
        final(output)@ == old(output)@ + multi_json_document(
            file_runs@,
            ratio@,
            file_ratios.deep_view(),
        ),
{
    let summary = ResultSummary::from_file_runs(file_runs);
    let score = score_field(&summary, ratio);
    let ghost prefix = "{\"schema_version\":2,"@ + json_counts(summary) + score@ + ",\"files\":["@;
    output.append("{\"schema_version\":2,");
    push_counts(output, &summary);
    output.append(score.as_str());
    output.append(",\"files\":[");
    let ghost start = output@;
    assert(start =~= old(output)@ + prefix);
    let ghost entries = Seq::new(
        file_runs@.len(),
        |i: int| json_file_entry(file_runs@[i], file_ratios.deep_view()[i]),
    );
    let mut index: usize = 0;
    while index < file_runs.len()
        invariant
            file_ratios@.len() == file_runs@.len(),
            entries.len() == file_runs@.len(),
            forall|i: int|
                0 <= i < file_runs@.len() ==> #[trigger] entries[i] == json_file_entry(
                    file_runs@[i],
                    file_ratios.deep_view()[i],
                ),
            index <= file_runs@.len(),
            output@ == start + join(entries.take(index as int), ","@),
        decreases file_runs.len() - index,
    {
        proof {
            assert(entries.take(index + 1) =~= entries.take(index as int).push(entries[index as int]));
            lemma_join_push(entries.take(index as int), entries[index as int], ","@);
            assert(file_ratios.deep_view()[index as int] == file_ratios@[index as int]@);
        }
        if index > 0 {
            output.append(",");
        }
        write_json_file_entry(output, &file_runs[index], file_ratios[index].as_str());
        index += 1;
    }
    assert(entries.take(file_runs.len() as int) =~= entries);
    output.append("]}\n");
    assert(output@ =~= old(output)@ + (prefix + join(entries, ","@) + "]}\n"@));
}

/// The SARIF rule of an operator.
pub open spec fn sarif_rule(operator: Operator) -> Seq<char> {
    "{\"id\":"@ + json_string(operator_id(operator)) + "}"@
}

/// The start of a SARIF document, up to its results: the tool with its
/// version and one rule per operator.
pub open spec fn sarif_head(version: Seq<char>, operators: Seq<Operator>) -> Seq<char> {
    "{\"$schema\":"@ + json_string("https://json.schemastore.org/sarif-2.1.0.json"@)
        + ",\"version\":\"2.1.0\",\"runs\":[{\"tool\":{\"driver\":{\"name\":\"bughunter\",\"informationUri\":\"https://github.com/acoyfellow/bughunter\",\"semanticVersion\":"@
        + json_string(version) + ",\"rules\":["@ + join(
        Seq::new(operators.len(), |i: int| sarif_rule(operators[i])),
        ","@,
    ) + "]}},\"results\":["@
}

/// The SARIF result of a surviving mutant: its rule, its file, line and
/// column, and its stable identifier as a fingerprint.
pub open spec fn sarif_result(
    file: Seq<char>,
    source: Seq<char>,
    generated: Seq<MutantView>,
    result: ResultView,
) -> Seq<char> {
    "{\"ruleId\":"@ + json_string(operator_id(result.mutant.operator))
        + ",\"message\":{\"text\":\"Surviving mutant\"},\"locations\":[{\"physicalLocation\":{\"artifactLocation\":{\"uri\":"@
        + json_string(file) + "},\"region\":"@ + "{\"startLine\":"@ + decimal(
        result.mutant.line as nat,
    ) + ",\"startColumn\":"@ + decimal(result.mutant.column as nat) + "}"@
        + "}}],\"partialFingerprints\":{\"bughunterMutantId/v1\":"@ + json_string(
        result_id(file, source, generated, result),
    ) + "}}"@
}

/// The SARIF results of the surviving mutants of one file, in order.
pub open spec fn sarif_results(
    file: Seq<char>,
    source: Seq<char>,
    generated: Seq<MutantView>,
    results: Seq<ResultView>,
) -> Seq<Seq<char>>
    decreases results.len(),
{
    if results.len() == 0 {
        seq![]
    } else {
        let earlier = sarif_results(file, source, generated, results.drop_last());
        if results.last().status == MutantStatus::Survived {
            earlier.push(sarif_result(file, source, generated, results.last()))
        } else {
            earlier
        }
    }
}

/// Whether a result is of a surviving mutant.
pub open spec fn is_survivor() -> spec_fn(ResultView) -> bool {
    |result: ResultView| result.status == MutantStatus::Survived
}

/// A file's SARIF results are one result per surviving mutant, in the order
/// of the results, and none for a killed, timed-out or errored one: there
/// are as many as there are survivors.
pub proof fn lemma_sarif_results_are_the_survivors(
    file: Seq<char>,
    source: Seq<char>,
    generated: Seq<MutantView>,
    results: Seq<ResultView>,
)
    ensures
        sarif_results(file, source, generated, results) == kept_items(
            results,
            is_survivor(),
        ).map_values(|result: ResultView| sarif_result(file, source, generated, result)),
        sarif_results(file, source, generated, results).len() == status_count(
            results,
            MutantStatus::Survived,
        ),
    decreases results.len(),
{
    if results.len() > 0 {
        let rest = results.drop_last();
        lemma_sarif_results_are_the_survivors(file, source, generated, rest);
        let kept = kept_items(rest, is_survivor());
        let map = |result: ResultView| sarif_result(file, source, generated, result);
        if results.last().status == MutantStatus::Survived {
            assert(kept.push(results.last()).map_values(map) =~= kept.map_values(map).push(
                map(results.last()),
            ));
        }
    }
}

/// Several files' SARIF results are as many as their survivors.
pub proof fn lemma_files_sarif_results_count_the_survivors(file_runs: Seq<FileRun>)
    ensures
        files_sarif_results(file_runs).len() == status_count(
            all_results(file_runs),
            MutantStatus::Survived,
        ),
    decreases file_runs.len(),
{
    if file_runs.len() > 0 {
        let last = file_runs.last();
        lemma_files_sarif_results_count_the_survivors(file_runs.drop_last());
        lemma_sarif_results_are_the_survivors(
            last.file@,
            last.source@,
            generated_mutants(last.file@, last.source@),
            last.results.deep_view(),
        );
        lemma_status_count_concat(
            all_results(file_runs.drop_last()),
            last.results.deep_view(),
            MutantStatus::Survived,
        );
    }
}

/// The SARIF document of one file's results: a rule per surviving operator
/// and a result per surviving mutant.
pub open spec fn sarif_document(
    file: Seq<char>,
    source: Seq<char>,
    results: Seq<ResultView>,
    version: Seq<char>,
) -> Seq<char> {
    sarif_head(version, surviving_operators_of(results)) + join(
        sarif_results(file, source, generated_mutants(file, source), results),
        ","@,
    ) + "]}]}"@
}

fn push_sarif_head(output: &mut String, version: &str, operators: &Vec<Operator>)
    ensures
        final(output)@ == old(output)@ + sarif_head(version@, operators@),
{
    output.append("{\"$schema\":");
    push_json_string(output, "https://json.schemastore.org/sarif-2.1.0.json");
    output.append(
        ",\"version\":\"2.1.0\",\"runs\":[{\"tool\":{\"driver\":{\"name\":\"bughunter\",\"informationUri\":\"https://github.com/acoyfellow/bughunter\",\"semanticVersion\":",
    );
    push_json_string(output, version);
    output.append(",\"rules\":[");
    let ghost start = output@;
    let ghost rules = Seq::new(operators@.len(), |i: int| sarif_rule(operators@[i]));
    let mut index: usize = 0;
    while index < operators.len()
        invariant
            rules.len() == operators@.len(),
            forall|i: int| 0 <= i < operators@.len() ==> #[trigger] rules[i] == sarif_rule(operators@[i]),
            index <= operators@.len(),
            output@ == start + join(rules.take(index as int), ","@),
        decreases operators.len() - index,
    {
        proof {
            assert(rules.take(index + 1) =~= rules.take(index as int).push(rules[index as int]));
            lemma_join_push(rules.take(index as int), rules[index as int], ","@);
        }
        if index > 0 {
            output.append(",");
        }
        output.append("{\"id\":");
        push_json_string(output, operators[index].id());
        output.append("}");
        index += 1;
    }
    assert(rules.take(operators.len() as int) =~= rules);
    output.append("]}},\"results\":[");
}

fn sarif_result_text(
    file: &str,
    source: &str,
    generated: &Vec<crate::mutant::Mutant>,
    result: &MutantResult,
) -> (text: String)
    ensures
        text@ == sarif_result(file@, source@, generated.deep_view(), result@),
{
    let occurrence = operator_occurrence_index(generated.as_slice(), &result.mutant);
    let id = stable_mutant_id(file, source, &result.mutant, occurrence);
    let mut output = String::new();
    output.append("{\"ruleId\":");
    push_json_string(&mut output, result.mutant.operator.id());
    output.append(
        ",\"message\":{\"text\":\"Surviving mutant\"},\"locations\":[{\"physicalLocation\":{\"artifactLocation\":{\"uri\":",
    );
    push_json_string(&mut output, file);
    output.append("},\"region\":");
    output.append("{\"startLine\":");
    push_decimal(&mut output, result.mutant.line as u64);
    output.append(",\"startColumn\":");
    push_decimal(&mut output, result.mutant.column as u64);
    output.append("}");
    output.append("}}],\"partialFingerprints\":{\"bughunterMutantId/v1\":");
    push_json_string(&mut output, id.as_str());
    output.append("}}");
    output
}

/// Adds the SARIF results of one file's survivors to `entries`.
fn collect_sarif_results(
    file: &str,
    source: &str,
    results: &[MutantResult],
    entries: &mut Vec<String>,
)
    ensures
        final(entries).deep_view() == old(entries).deep_view() + sarif_results(
            file@,
            source@,
            generated_mutants(file@, source@),
            results.deep_view(),
        ),
{
    let generated = generate_all(file, source);
    let ghost start = entries.deep_view();
    let ghost views = results.deep_view();
    let mut index: usize = 0;
    proof {
        assert(start + sarif_results(file@, source@, generated.deep_view(), views.take(0))
            =~= start);
    }
    while index < results.len()
        invariant
            views == results.deep_view(),
            generated.deep_view() == generated_mutants(file@, source@),
            index <= views.len(),
            entries.deep_view() == start + sarif_results(
                file@,
                source@,
                generated.deep_view(),
                views.take(index as int),
            ),
        decreases results.len() - index,
    {
        proof {
            assert(views.take(index + 1).drop_last() =~= views.take(index as int));
            assert(views.take(index + 1).last() == results@[index as int]@);
        }
        let result = &results[index];
        if result.status == MutantStatus::Survived {
            let text = sarif_result_text(file, source, &generated, result);
            let ghost before = entries.deep_view();
            let ghost entry = text@;
            entries.push(text);
            assert(entries.deep_view() =~= before.push(entry));
        }
        index += 1;
    }
    assert(views.take(results.len() as int) =~= views);
}

fn join_with_commas(entries: &Vec<String>, output: &mut String)
    ensures
        final(output)@ == old(output)@ + join(entries.deep_view(), ","@),
{
    let joined = crate::mutant::join_texts(entries, ",");
    proof {
        assert(crate::mutant::text_views(entries@) =~= entries.deep_view());
    }
    output.append(joined.as_str());
}

/// Appends the SARIF document of one file's results: a rule per operator
/// with a survivor, and a result per surviving mutant. Killed, timed-out and
/// errored mutants do not appear.
pub fn write_sarif_to(
    file: &str,
    source: &str,
    results: &[MutantResult],
    version: &str,
    output: &mut String,
)
    ensures
        final(output)@ == old(output)@ + sarif_document(
            file@,
            source@,
            results.deep_view(),
            version@,
        ),
{
    let operators = surviving_operators(results);
    push_sarif_head(output, version, &operators);
    let mut entries: Vec<String> = Vec::new();
    proof {
        assert(entries.deep_view() =~= Seq::<Seq<char>>::empty());
    }
    collect_sarif_results(file, source, results, &mut entries);
    proof {
        assert(entries.deep_view() =~= sarif_results(
            file@,
            source@,
            generated_mutants(file@, source@),
            results.deep_view(),
        ));
    }
    join_with_commas(&entries, output);
    output.append("]}]}");
}

/// `first` followed by the operators of `second` that it does not hold yet,
/// each once, in order.
pub open spec fn merged_operators(first: Seq<Operator>, second: Seq<Operator>) -> Seq<Operator>
    decreases second.len(),
{
    if second.len() == 0 {
        first
    } else {
        let earlier = merged_operators(first, second.drop_last());
        if earlier.contains(second.last()) {
            earlier
        } else {
            earlier.push(second.last())
        }
    }
}

/// The operators with a survivor in any of the files, each once, in order
/// of first survivor.
pub open spec fn files_surviving_operators(file_runs: Seq<FileRun>) -> Seq<Operator>
    decreases file_runs.len(),
{
    if file_runs.len() == 0 {
        seq![]
    } else {
        merged_operators(
            files_surviving_operators(file_runs.drop_last()),
            surviving_operators_of(file_runs.last().results.deep_view()),
        )
    }
}

/// The SARIF results of the survivors of all files, file after file.
pub open spec fn files_sarif_results(file_runs: Seq<FileRun>) -> Seq<Seq<char>>
    decreases file_runs.len(),
{
    if file_runs.len() == 0 {
        seq![]
    } else {
        files_sarif_results(file_runs.drop_last()) + sarif_results(
            file_runs.last().file@,
            file_runs.last().source@,
            generated_mutants(file_runs.last().file@, file_runs.last().source@),
            file_runs.last().results.deep_view(),
        )
    }
}

/// The SARIF document of several files' results.
pub open spec fn multi_sarif_document(file_runs: Seq<FileRun>, version: Seq<char>) -> Seq<char> {
    sarif_head(version, files_surviving_operators(file_runs)) + join(
        files_sarif_results(file_runs),
        ","@,
    ) + "]}]}"@
}

fn merge_operators(operators: &mut Vec<Operator>, more: &Vec<Operator>)
    ensures
        final(operators)@ == merged_operators(old(operators)@, more@),
{
    let ghost start = operators@;
    let mut index: usize = 0;
    while index < more.len()
        invariant
            index <= more@.len(),
            operators@ == merged_operators(start, more@.take(index as int)),
        decreases more.len() - index,
    {
        proof {
            assert(more@.take(index + 1).drop_last() =~= more@.take(index as int));
            assert(more@.take(index + 1).last() == more@[index as int]);
        }
        let operator = more[index];
        let mut present = false;
        let mut look: usize = 0;
        while look < operators.len()
            invariant
                look <= operators@.len(),
                present == exists|j: int| 0 <= j < look && operators@[j] == operator,
            decreases operators.len() - look,
        {
            if operators[look] == operator {
                present = true;
            }
            look += 1;
        }
        if !present {
            operators.push(operator);
        }
        index += 1;
    }
    assert(more@.take(more.len() as int) =~= more@);
}

/// Appends the SARIF document of several files' results.
pub fn write_multi_sarif_to(file_runs: &[FileRun], version: &str, output: &mut String)
    ensures
        final(output)@ == old(output)@ + multi_sarif_document(file_runs@, version@),
{
    let mut operators: Vec<Operator> = Vec::new();
    let mut index: usize = 0;
    while index < file_runs.len()
        invariant
            index <= file_runs@.len(),
            operators@ == files_surviving_operators(file_runs@.take(index as int)),
        decreases file_runs.len() - index,
    {
        proof {
            assert(file_runs@.take(index + 1).drop_last() =~= file_runs@.take(index as int));
        }
        let more = surviving_operators(file_runs[index].results.as_slice());
        merge_operators(&mut operators, &more);
        index += 1;
    }
    assert(file_runs@.take(file_runs.len() as int) =~= file_runs@);
    push_sarif_head(output, version, &operators);
    let mut entries: Vec<String> = Vec::new();
    proof {
        assert(entries.deep_view() =~= files_sarif_results(file_runs@.take(0)));
    }
    let mut index: usize = 0;
    while index < file_runs.len()
        invariant
            index <= file_runs@.len(),
            entries.deep_view() == files_sarif_results(file_runs@.take(index as int)),
        decreases file_runs.len() - index,
    {
        proof {
            assert(file_runs@.take(index + 1).drop_last() =~= file_runs@.take(index as int));
        }
        let run = &file_runs[index];
        collect_sarif_results(run.file.as_str(), run.source.as_str(), run.results.as_slice(), &mut entries);
        index += 1;
    }
    assert(file_runs@.take(file_runs.len() as int) =~= file_runs@);
    join_with_commas(&entries, output);
    output.append("]}]}");
}

/// The JSON report of a run: the one-file document when one file was run,
/// else the several-file document. `ratio` and `file_ratios` are the
/// rendered `killed / evaluated` of all results and of each file's.
pub open spec fn json_report(
    file_runs: Seq<FileRun>,
    ratio: Seq<char>,
    file_ratios: Seq<Seq<char>>,
) -> Seq<char> {
    if file_runs.len() == 1 {
        json_document(
            file_runs[0].file@,
            file_runs[0].source@,
            file_runs[0].results.deep_view(),
            file_ratios[0],
        )
    } else {
        multi_json_document(file_runs, ratio, file_ratios)
    }
}

/// Appends the JSON report of a run.
pub fn write_json_report_to(
    file_runs: &[FileRun],
    ratio: &str,
    file_ratios: &[String],
    output: &mut String,
)
    requires
        file_ratios@.len() == file_runs@.len(),
        all_results(file_runs@).len() <= usize::MAX,
    ensures
        final(output)@ == old(output)@ + json_report(
            file_runs@,
            ratio@,
            file_ratios.deep_view(),
        ),
{
    if file_runs.len() == 1 {
        let run = &file_runs[0];
        proof {
            assert(file_ratios.deep_view()[0] == file_ratios@[0]@);
        }
        write_json_to(
            run.file.as_str(),
            run.source.as_str(),
            run.results.as_slice(),
            file_ratios[0].as_str(),
            output,
        );
    } else {
        write_multi_json_to(file_runs, ratio, file_ratios, output);
    }
}

/// The SARIF report of a run: the one-file document when one file was run,
/// else the several-file document.
pub open spec fn sarif_report(file_runs: Seq<FileRun>, version: Seq<char>) -> Seq<char> {
    if file_runs.len() == 1 {
        sarif_document(
            file_runs[0].file@,
            file_runs[0].source@,
            file_runs[0].results.deep_view(),
            version,
        )
    } else {
        multi_sarif_document(file_runs, version)
    }
}

/// Appends the SARIF report of a run.
pub fn write_sarif_report_to(file_runs: &[FileRun], version: &str, output: &mut String)
    ensures
        final(output)@ == old(output)@ + sarif_report(file_runs@, version@),
{
    if file_runs.len() == 1 {
        let run = &file_runs[0];
        write_sarif_to(
            run.file.as_str(),
            run.source.as_str(),
            run.results.as_slice(),
            version,
            output,
        );
    } else {
        write_multi_sarif_to(file_runs, version, output);
    }
}

} // verus!
