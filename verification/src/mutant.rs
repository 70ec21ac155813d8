//! A mutant, the failure to parse a source file, and the rewriting of a
//! source text by a mutant.
//!
//! Offsets are byte offsets into the UTF-8 encoding of the source, as the
//! parser reports them; the specifications relate them to the characters of
//! the source through vstd's UTF-8 model.

use vstd::prelude::*;
use vstd::utf8::*;

use crate::operator::Operator;
use crate::text::{joined3, owned};

verus! {

/// One candidate change: the token at bytes `span_start..span_end` of the
/// source, at 1-based `line` and `column`, is to be replaced by
/// `replacement`.
#[derive(Clone, Debug, PartialEq, Eq)]
pub struct Mutant {
    pub line: u32,
    pub column: u32,
    pub operator: Operator,
    pub span_start: u32,
    pub span_end: u32,
    pub replacement: String,
}

/// A mutant with its replacement text as a character sequence.
pub struct MutantView {
    pub line: u32,
    pub column: u32,
    pub operator: Operator,
    pub span_start: u32,
    pub span_end: u32,
    pub replacement: Seq<char>,
}

impl View for Mutant {
    type V = MutantView;

    open spec fn view(&self) -> MutantView {
        MutantView {
            line: self.line,
            column: self.column,
            operator: self.operator,
            span_start: self.span_start,
            span_end: self.span_end,
            replacement: self.replacement@,
        }
    }
}

impl DeepView for Mutant {
    type V = MutantView;

    open spec fn deep_view(&self) -> MutantView {
        self@
    }
}

impl Mutant {
    /// A copy of this mutant.
    pub fn duplicate(&self) -> (copy: Mutant)
        ensures
            copy == *self,
    {
        Mutant {
            line: self.line,
            column: self.column,
            operator: self.operator,
            span_start: self.span_start,
            span_end: self.span_end,
            replacement: self.replacement.clone(),
        }
    }
}

/// A source file that did not parse, with the parser's diagnostics.
#[derive(Clone, Debug, PartialEq, Eq)]
pub struct ParseFailure {
    pub path: String,
    pub diagnostics: Vec<String>,
}

/// `parts` joined with `separator` between each two of them.
pub open spec fn join(parts: Seq<Seq<char>>, separator: Seq<char>) -> Seq<char>
    decreases parts.len(),
{
    if parts.len() == 0 {
        seq![]
    } else if parts.len() == 1 {
        parts[0]
    } else {
        join(parts.drop_last(), separator) + separator + parts.last()
    }
}

/// The views of a vector of strings.
pub open spec fn text_views(texts: Seq<String>) -> Seq<Seq<char>> {
    texts.map_values(|text: String| text@)
}

/// The message of a parse failure: the path and every diagnostic.
pub open spec fn parse_failure_message(path: Seq<char>, diagnostics: Seq<Seq<char>>) -> Seq<char> {
    "failed to parse "@ + path + " as TypeScript: "@ + join(diagnostics, "; "@)
}

/// `parts` joined with `separator`.
pub fn join_texts(parts: &Vec<String>, separator: &str) -> (text: String)
    ensures
        text@ == join(text_views(parts@), separator@),
{
    let mut text = String::new();
    let mut index: usize = 0;
    while index < parts.len()
        invariant
            index <= parts.len(),
            text@ == join(text_views(parts@.take(index as int)), separator@),
        decreases parts.len() - index,
    {
        proof {
            let views = text_views(parts@.take(index + 1));
            assert(views.drop_last() =~= text_views(parts@.take(index as int)));
            assert(views.last() == parts@[index as int]@);
        }
        if index > 0 {
            text.append(separator);
        }
        text.append(parts[index].as_str());
        index += 1;
    }
    assert(parts@.take(parts.len() as int) =~= parts@);
    text
}

impl ParseFailure {
    /// What `Display` writes for a parse failure:
    /// `failed to parse PATH as TypeScript: D1; D2; ...`.
    pub fn message(&self) -> (message: String)
        ensures
            message@ == parse_failure_message(self.path@, text_views(self.diagnostics@)),
    {
        let diagnostics = join_texts(&self.diagnostics, "; ");
        let mut message = joined3("failed to parse ", self.path.as_str(), " as TypeScript: ");
        message.append(diagnostics.as_str());
        message
    }
}

/// The UTF-8 encoding of a concatenation is the concatenation of the
/// encodings.
pub proof fn lemma_encode_concat(first: Seq<char>, second: Seq<char>)
    ensures
        encode_utf8(first + second) == encode_utf8(first) + encode_utf8(second),
    decreases first.len(),
{
    if first.len() == 0 {
        assert(first + second =~= second);
    } else {
        lemma_encode_concat(first.drop_first(), second);
        assert((first + second).drop_first() =~= first.drop_first() + second);
    }
}

/// Whether bytes `start..end` of `bytes` can be cut out as a string slice:
/// the range is ordered and both ends are character boundaries.
pub open spec fn is_slice_range(bytes: Seq<u8>, start: int, end: int) -> bool {
    start <= end && is_char_boundary(bytes, start) && is_char_boundary(bytes, end)
}

/// The characters of `source` with the bytes `start..end` of its encoding
/// replaced by `replacement`, when that range is a slice range.
pub open spec fn spliced(source: Seq<char>, start: int, end: int, replacement: Seq<char>) -> Option<
    Seq<char>,
> {
    let bytes = encode_utf8(source);
    if is_slice_range(bytes, start, end) {
        Some(
            decode_utf8(bytes.subrange(0, start)) + replacement + decode_utf8(
                bytes.subrange(end, bytes.len() as int),
            ),
        )
    } else {
        None
    }
}

proof fn lemma_boundary_in_prefix(bytes: Seq<u8>, start: int, end: int)
    requires
        valid_utf8(bytes),
        is_slice_range(bytes, start, end),
    ensures
        valid_utf8(bytes.subrange(0, end)),
        is_char_boundary(bytes.subrange(0, end), start),
{
    broadcast use is_char_boundary_start_end_of_seq, is_char_boundary_iff_not_is_continuation_byte;

    valid_utf8_split(bytes, end);
    let head = bytes.subrange(0, end);
    assert(0 <= start <= end <= bytes.len()) by {
        reveal_with_fuel(is_char_boundary, 2);
    }
    assert(valid_utf8(head));
    is_char_boundary_start_end_of_seq(head);
    if start == 0 {
    } else if start == end {
        assert(head.len() == end);
    } else {
        is_char_boundary_iff_not_is_continuation_byte(bytes, start);
        is_char_boundary_iff_not_is_continuation_byte(head, start);
        assert(head[start] == bytes[start]);
    }
}

/// Replaces bytes `start..end` of `source` by `replacement`, or gives `None`
/// when that range cannot be cut out of `source`. On success the encoding of
/// the result is the encoding of `source` with exactly those bytes replaced
/// by the encoding of `replacement`.
pub fn splice(source: &str, start: u32, end: u32, replacement: &str) -> (result: Option<String>)
    ensures
        match result {
            Some(text) => spliced(source@, start as int, end as int, replacement@) == Some(text@),
            None => spliced(source@, start as int, end as int, replacement@) is None,
        },
        result matches Some(text) ==> encode_utf8(text@) == encode_utf8(source@).subrange(
            0,
            start as int,
        ) + encode_utf8(replacement@) + encode_utf8(source@).subrange(
            end as int,
            encode_utf8(source@).len() as int,
        ),
{
    let start = start as usize;
    let end = end as usize;
    if !(start <= end && source.is_char_boundary(start) && source.is_char_boundary(end)) {
        return None;
    }
    let ghost bytes = encode_utf8(source@);
    proof {
        encode_utf8_valid_utf8(source@);
        lemma_boundary_in_prefix(bytes, start as int, end as int);
    }
    let (head, tail) = source.split_at(end);
    let (prefix, _) = head.split_at(start);
    let mut text = owned(prefix);
    text.append(replacement);
    text.append(tail);
    proof {
        assert(bytes.subrange(0, end as int).subrange(0, start as int) =~= bytes.subrange(
            0,
            start as int,
        ));
        encode_utf8_decode_utf8(prefix@);
        encode_utf8_decode_utf8(tail@);
        lemma_encode_concat(prefix@ + replacement@, tail@);
        lemma_encode_concat(prefix@, replacement@);
    }
    Some(text)
}

/// The source after a mutant is applied: the mutant's span replaced by its
/// replacement, or the source unchanged when the span cannot be cut out.
pub open spec fn applied(source: Seq<char>, mutant: MutantView) -> Seq<char> {
    match spliced(source, mutant.span_start as int, mutant.span_end as int, mutant.replacement) {
        Some(text) => text,
        None => source,
    }
}

/// Applies a mutant to the source it was found in. A span that lies outside
/// the source, or that splits a character, leaves the source unchanged.
pub fn apply(source: &str, mutant: &Mutant) -> (mutated: String)
    ensures
        mutated@ == applied(source@, mutant@),
{
    match splice(source, mutant.span_start, mutant.span_end, mutant.replacement.as_str()) {
        Some(text) => text,
        None => owned(source),
    }
}

proof fn lemma_boundary_at_join(first: Seq<u8>, second: Seq<u8>)
    requires
        valid_utf8(first),
        valid_utf8(second),
    ensures
        valid_utf8(first + second),
        is_char_boundary(first + second, first.len() as int),
{
    let whole = first + second;
    valid_utf8_concat(first, second);
    is_char_boundary_start_end_of_seq(whole);
    if first.len() > 0 && second.len() > 0 {
        is_char_boundary_iff_not_is_continuation_byte(second, 0);
        is_char_boundary_iff_not_is_continuation_byte(whole, first.len() as int);
        assert(whole[first.len() as int] == second[0]);
    } else if second.len() == 0 {
        assert(whole.len() == first.len());
    }
}

/// Applying a mutant and then its inverse (the span that the replacement now
/// covers, replaced by the text that the mutant replaced) gives the source
/// back.
pub proof fn lemma_apply_inverse_restores(
    source: Seq<char>,
    mutant: MutantView,
    inverse: MutantView,
)
    requires
        is_slice_range(encode_utf8(source), mutant.span_start as int, mutant.span_end as int),
        inverse.span_start == mutant.span_start,
        inverse.span_end == mutant.span_start + encode_utf8(mutant.replacement).len(),
        inverse.replacement == decode_utf8(
            encode_utf8(source).subrange(mutant.span_start as int, mutant.span_end as int),
        ),
    ensures
        applied(applied(source, mutant), inverse) == source,
{
    let bytes = encode_utf8(source);
    let (start, end) = (mutant.span_start as int, mutant.span_end as int);
    encode_utf8_valid_utf8(source);
    encode_utf8_decode_utf8(source);
    lemma_boundary_in_prefix(bytes, start, end);
    assert(0 <= start <= end <= bytes.len()) by {
        reveal_with_fuel(is_char_boundary, 2);
    }
    let head = bytes.subrange(0, end);
    let prefix = bytes.subrange(0, start);
    let middle = bytes.subrange(start, end);
    let suffix = bytes.subrange(end, bytes.len() as int);
    valid_utf8_split(bytes, end);
    valid_utf8_split(head, start);
    decode_utf8_split(bytes, end);
    decode_utf8_split(head, start);
    assert(head.subrange(0, start) =~= prefix);
    assert(head.subrange(start, head.len() as int) =~= middle);
    let (before, after) = (decode_utf8(prefix), decode_utf8(suffix));
    assert(source == before + decode_utf8(middle) + after);
    let replacement = mutant.replacement;
    let mutated = before + replacement + after;
    assert(applied(source, mutant) == mutated);
    decode_utf8_encode_utf8(prefix);
    decode_utf8_encode_utf8(suffix);
    lemma_encode_concat(before, replacement);
    lemma_encode_concat(before + replacement, after);
    let encoded = encode_utf8(replacement);
    encode_utf8_valid_utf8(replacement);
    let mutated_bytes = encode_utf8(mutated);
    assert(mutated_bytes == prefix + encoded + suffix);
    valid_utf8_concat(encoded, suffix);
    lemma_boundary_at_join(prefix, encoded + suffix);
    valid_utf8_concat(prefix, encoded);
    lemma_boundary_at_join(prefix + encoded, suffix);
    assert(prefix + (encoded + suffix) =~= mutated_bytes);
    let new_end = start + encoded.len();
    assert(is_slice_range(mutated_bytes, start, new_end));
    assert(mutated_bytes.subrange(0, start) =~= prefix);
    assert(mutated_bytes.subrange(new_end, mutated_bytes.len() as int) =~= suffix);
    assert(spliced(mutated, start, new_end, inverse.replacement) == Some(
        before + decode_utf8(middle) + after,
    ));
}

} // verus!
