//! Finding mutants: each syntax site that an enabled operator mutates gives
//! one mutant at the first token of the operator's kind within the site's
//! range; the mutants are listed by position, then by operator.

use vstd::prelude::*;
use vstd::utf8::*;

use crate::mutant::{Mutant, MutantView, ParseFailure};
use crate::operator::{operator_rank, operator_replacement, operator_target, Operator};
use crate::order::{
    insert_ordered, is_key_order, is_ordered, kept_items, lemma_insert_at,
    lemma_kept_items_of_sort, lemma_sort_ordered_is_ordered, lemma_sort_ordered_multiset,
    sort_ordered,
};
use crate::syntax::{scan_typescript, typescript_scan, ScannedToken, SiteView, SyntaxSite, TokenView};
use crate::text::{owned, text_equals};

verus! {

/// The operator that mutates a syntax site, if any: `>` and `<` gain their
/// inclusive forms, `===` and `!==` swap, `&&` and `||` swap, and a returned
/// boolean literal is negated.
pub open spec fn site_operator(site: SiteView) -> Option<Operator> {
    match site {
        SiteView::Binary { operator, .. } => if operator == ">"@ {
            Some(Operator::CondBoundaryGt)
        } else if operator == "<"@ {
            Some(Operator::CondBoundaryLt)
        } else if operator == "==="@ {
            Some(Operator::EqualityStrictToLooseNeg)
        } else if operator == "!=="@ {
            Some(Operator::InequalityToEquality)
        } else {
            None
        },
        SiteView::Logical { operator, .. } => if operator == "&&"@ {
            Some(Operator::LogicalAndToOr)
        } else if operator == "||"@ {
            Some(Operator::LogicalOrToAnd)
        } else {
            None
        },
        SiteView::BooleanReturn { value, .. } => if value {
            Some(Operator::ReturnTrueToFalse)
        } else {
            Some(Operator::ReturnFalseToTrue)
        },
    }
}

/// The byte range in which a site's token lies: between the operands of an
/// expression, or the span of a returned literal.
pub open spec fn site_range(site: SiteView) -> (u32, u32) {
    match site {
        SiteView::Binary { left_end, right_start, .. } => (left_end, right_start),
        SiteView::Logical { left_end, right_start, .. } => (left_end, right_start),
        SiteView::BooleanReturn { start, end, .. } => (start, end),
    }
}

/// A token of kind `text` that lies within `start..end`.
pub open spec fn token_fits(token: TokenView, text: Seq<char>, start: u32, end: u32) -> bool {
    token.text == text && start <= token.start && token.end <= end
}

/// `index` is the first token that fits.
pub open spec fn is_first_fit(
    tokens: Seq<TokenView>,
    text: Seq<char>,
    start: u32,
    end: u32,
    index: int,
) -> bool {
    &&& 0 <= index < tokens.len()
    &&& token_fits(tokens[index], text, start, end)
    &&& forall|j: int| 0 <= j < index ==> !token_fits(#[trigger] tokens[j], text, start, end)
}

/// The index of the first token of kind `text` within `start..end`.
pub open spec fn first_fit(tokens: Seq<TokenView>, text: Seq<char>, start: u32, end: u32) -> Option<
    int,
> {
    if exists|index: int| is_first_fit(tokens, text, start, end, index) {
        Some(choose|index: int| is_first_fit(tokens, text, start, end, index))
    } else {
        None
    }
}

/// The number of newline bytes.
pub open spec fn newline_count(bytes: Seq<u8>) -> nat
    decreases bytes.len(),
{
    if bytes.len() == 0 {
        0
    } else {
        newline_count(bytes.drop_last()) + if bytes.last() == 10 {
            1nat
        } else {
            0nat
        }
    }
}

/// Where the last line of `bytes` starts: just after its last newline, or at
/// zero.
pub open spec fn last_line_start(bytes: Seq<u8>) -> nat
    decreases bytes.len(),
{
    if bytes.len() == 0 {
        0
    } else if bytes.last() == 10 {
        bytes.len()
    } else {
        last_line_start(bytes.drop_last())
    }
}

/// The number of characters that a UTF-8 byte sequence encodes: its bytes
/// that are not continuation bytes.
pub open spec fn character_count(bytes: Seq<u8>) -> nat
    decreases bytes.len(),
{
    if bytes.len() == 0 {
        0
    } else {
        character_count(bytes.drop_last()) + if is_continuation_byte(bytes.last()) {
            0nat
        } else {
            1nat
        }
    }
}

/// One more than `count`, as a `u32` that wraps to zero past its range.
pub open spec fn one_based(count: nat) -> u32 {
    if count < u32::MAX {
        (count + 1) as u32
    } else {
        0
    }
}

/// The bytes of the source before `offset`, or all of them when `offset` lies
/// past the end.
pub open spec fn before_offset(bytes: Seq<u8>, offset: int) -> Seq<u8> {
    if offset <= bytes.len() {
        bytes.take(offset)
    } else {
        bytes
    }
}

/// The 1-based line of a byte offset: one more than the newlines before it.
pub open spec fn line_at(bytes: Seq<u8>, offset: int) -> u32 {
    one_based(newline_count(before_offset(bytes, offset)))
}

/// The 1-based column of a byte offset: one more than the characters between
/// the start of its line and the offset.
pub open spec fn column_at(bytes: Seq<u8>, offset: int) -> u32 {
    let prefix = before_offset(bytes, offset);
    one_based(character_count(prefix.skip(last_line_start(prefix) as int)))
}

/// The mutant a site gives, if an enabled operator mutates it and a token of
/// the operator's kind lies in the site's range.
pub open spec fn site_mutant(
    bytes: Seq<u8>,
    tokens: Seq<TokenView>,
    site: SiteView,
    enabled: Seq<Operator>,
) -> Option<MutantView> {
    match site_operator(site) {
        None => None,
        Some(operator) => if !enabled.contains(operator) {
            None
        } else {
            match first_fit(tokens, operator_target(operator), site_range(site).0, site_range(site).1) {
                None => None,
                Some(index) => Some(
                    MutantView {
                        line: line_at(bytes, tokens[index].start as int),
                        column: column_at(bytes, tokens[index].start as int),
                        operator,
                        span_start: tokens[index].start,
                        span_end: tokens[index].end,
                        replacement: operator_replacement(operator),
                    },
                ),
            }
        },
    }
}

/// The mutants of the sites, in the order of the sites.
pub open spec fn site_mutants(
    bytes: Seq<u8>,
    tokens: Seq<TokenView>,
    sites: Seq<SiteView>,
    enabled: Seq<Operator>,
) -> Seq<MutantView>
    decreases sites.len(),
{
    if sites.len() == 0 {
        seq![]
    } else {
        let earlier = site_mutants(bytes, tokens, sites.drop_last(), enabled);
        match site_mutant(bytes, tokens, sites.last(), enabled) {
            Some(mutant) => earlier.push(mutant),
            None => earlier,
        }
    }
}

/// Whether `first` is listed before `second`: by span start, then by
/// operator.
pub open spec fn mutant_before(first: MutantView, second: MutantView) -> bool {
    ||| first.span_start < second.span_start
    ||| first.span_start == second.span_start && operator_rank(first.operator) < operator_rank(
        second.operator,
    )
}

/// The listing order of mutants.
pub open spec fn by_position() -> spec_fn(MutantView, MutantView) -> bool {
    |first: MutantView, second: MutantView| mutant_before(first, second)
}

/// The mutants of a scanned source, stably sorted by position.
pub open spec fn mutants_of(
    bytes: Seq<u8>,
    tokens: Seq<TokenView>,
    sites: Seq<SiteView>,
    enabled: Seq<Operator>,
) -> Seq<MutantView> {
    sort_ordered(site_mutants(bytes, tokens, sites, enabled), by_position())
}

/// The listing order compares keys, so sorting by it gives an ordered
/// sequence.
pub proof fn lemma_by_position_is_key_order()
    ensures
        is_key_order(by_position()),
{
}

fn site_operator_of(site: &SyntaxSite) -> (operator: Option<Operator>)
    ensures
        operator == site_operator(site@),
{
    match site {
        SyntaxSite::Binary { operator, .. } => {
            if text_equals(operator, ">") {
                Some(Operator::CondBoundaryGt)
            } else if text_equals(operator, "<") {
                Some(Operator::CondBoundaryLt)
            } else if text_equals(operator, "===") {
                Some(Operator::EqualityStrictToLooseNeg)
            } else if text_equals(operator, "!==") {
                Some(Operator::InequalityToEquality)
            } else {
                None
            }
        },
        SyntaxSite::Logical { operator, .. } => {
            if text_equals(operator, "&&") {
                Some(Operator::LogicalAndToOr)
            } else if text_equals(operator, "||") {
                Some(Operator::LogicalOrToAnd)
            } else {
                None
            }
        },
        SyntaxSite::BooleanReturn { value, .. } => {
            if *value {
                Some(Operator::ReturnTrueToFalse)
            } else {
                Some(Operator::ReturnFalseToTrue)
            }
        },
    }
}

fn site_range_of(site: &SyntaxSite) -> (range: (u32, u32))
    ensures
        range == site_range(site@),
{
    match site {
        SyntaxSite::Binary { left_end, right_start, .. } => (*left_end, *right_start),
        SyntaxSite::Logical { left_end, right_start, .. } => (*left_end, *right_start),
        SyntaxSite::BooleanReturn { start, end, .. } => (*start, *end),
    }
}

fn is_enabled(operators: &[Operator], operator: Operator) -> (enabled: bool)
    ensures
        enabled == operators@.contains(operator),
{
    let mut index: usize = 0;
    while index < operators.len()
        invariant
            index <= operators@.len(),
            forall|j: int| 0 <= j < index ==> operators@[j] != operator,
        decreases operators.len() - index,
    {
        if operators[index] == operator {
            return true;
        }
        index += 1;
    }
    false
}

/// The index of the first token of kind `text` within `start..end`.
pub fn first_fitting_token(tokens: &[ScannedToken], text: &str, start: u32, end: u32) -> (found:
    Option<usize>)
    ensures
        match found {
            Some(index) => first_fit(tokens.deep_view(), text@, start, end) == Some(index as int),
            None => first_fit(tokens.deep_view(), text@, start, end) is None,
        },
{
    let ghost views = tokens.deep_view();
    let mut index: usize = 0;
    while index < tokens.len()
        invariant
            views == tokens.deep_view(),
            index <= tokens@.len(),
            forall|j: int| 0 <= j < index ==> !token_fits(#[trigger] views[j], text@, start, end),
        decreases tokens.len() - index,
    {
        let token = &tokens[index];
        if start <= token.start && token.end <= end && text_equals(token.text, text) {
            proof {
                assert(views[index as int] == token@);
                assert(is_first_fit(views, text@, start, end, index as int));
                let chosen = choose|i: int| is_first_fit(views, text@, start, end, i);
                assert(is_first_fit(views, text@, start, end, chosen));
                if chosen < index {
                    assert(!token_fits(views[chosen], text@, start, end));
                } else if chosen > index {
                    assert(!token_fits(views[index as int], text@, start, end));
                }
            }
            return Some(index);
        }
        proof {
            assert(views[index as int] == token@);
        }
        index += 1;
    }
    None
}

/// The 1-based line and column of a byte offset of the source: newlines
/// before it, and characters between its line's start and it. An offset past
/// the end counts the whole source.
pub fn position_at(bytes: &[u8], offset: u32) -> (position: (u32, u32))
    ensures
        position == (line_at(bytes@, offset as int), column_at(bytes@, offset as int)),
{
    let limit: usize = if (offset as usize) <= bytes.len() {
        offset as usize
    } else {
        bytes.len()
    };
    let ghost prefix = before_offset(bytes@, offset as int);
    assert(prefix =~= bytes@.take(limit as int));
    let mut newlines: usize = 0;
    let mut line_start: usize = 0;
    let mut characters: usize = 0;
    let mut index: usize = 0;
    while index < limit
        invariant
            limit <= bytes@.len(),
            limit <= offset,
            index <= limit,
            newlines as nat == newline_count(bytes@.take(index as int)),
            line_start as nat == last_line_start(bytes@.take(index as int)),
            line_start <= index,
            newlines <= index,
            characters <= index,
            characters as nat == character_count(
                bytes@.take(index as int).skip(line_start as int),
            ),
        decreases limit - index,
    {
        let byte = bytes[index];
        let ghost before = bytes@.take(index as int);
        let ghost after = bytes@.take(index + 1);
        proof {
            assert(after.drop_last() =~= before);
            assert(after.last() == byte);
        }
        if byte == 10 {
            newlines += 1;
            line_start = index + 1;
            characters = 0;
            proof {
                assert(after.skip(line_start as int) =~= Seq::<u8>::empty());
            }
        } else {
            proof {
                assert(after.skip(line_start as int).drop_last() =~= before.skip(line_start as int));
                assert(after.skip(line_start as int).last() == byte);
            }
            if !(0x80 <= byte && byte <= 0xbf) {
                characters += 1;
            }
        }
        index += 1;
    }
    assert(bytes@.take(limit as int) =~= prefix);
    let line: u32 = if newlines < u32::MAX as usize {
        newlines as u32 + 1
    } else {
        0
    };
    let column: u32 = if characters < u32::MAX as usize {
        characters as u32 + 1
    } else {
        0
    };
    (line, column)
}

/// The mutant that a site gives, if any.
pub fn mutant_at(
    bytes: &[u8],
    tokens: &[ScannedToken],
    site: &SyntaxSite,
    operators: &[Operator],
) -> (mutant: Option<Mutant>)
    ensures
        match mutant {
            Some(found) => site_mutant(bytes@, tokens.deep_view(), site@, operators@) == Some(
                found@,
            ),
            None => site_mutant(bytes@, tokens.deep_view(), site@, operators@) is None,
        },
{
    let operator = match site_operator_of(site) {
        Some(operator) => operator,
        None => return None,
    };
    if !is_enabled(operators, operator) {
        return None;
    }
    let (start, end) = site_range_of(site);
    match first_fitting_token(tokens, operator.target(), start, end) {
        None => None,
        Some(index) => {
            let token = &tokens[index];
            proof {
                assert(tokens.deep_view()[index as int] == token@);
            }
            let (line, column) = position_at(bytes, token.start);
            Some(
                Mutant {
                    line,
                    column,
                    operator,
                    span_start: token.start,
                    span_end: token.end,
                    replacement: owned(operator.replacement()),
                },
            )
        },
    }
}

fn mutant_precedes(first: &Mutant, second: &Mutant) -> (before: bool)
    ensures
        before == mutant_before(first@, second@),
{
    first.span_start < second.span_start || (first.span_start == second.span_start
        && first.operator.precedes(second.operator))
}

/// Inserts a mutant after every listed mutant that it does not come before.
pub fn insert_by_position(found: &mut Vec<Mutant>, mutant: Mutant)
    ensures
        final(found).deep_view() == insert_ordered(old(found).deep_view(), mutant@, by_position()),
{
    let ghost listed = found.deep_view();
    let mut position = found.len();
    while position > 0 && mutant_precedes(&mutant, &found[position - 1])
        invariant
            position <= found.len(),
            listed == found.deep_view(),
            forall|j: int| position <= j < listed.len() ==> mutant_before(mutant@, #[trigger] listed[j]),
        decreases position,
    {
        proof {
            assert(listed[position - 1] == found@[position - 1]@);
        }
        position -= 1;
    }
    proof {
        if position > 0 {
            assert(listed[position - 1] == found@[position - 1]@);
        }
        lemma_insert_at(listed, mutant@, by_position(), position as int);
    }
    let ghost view = mutant@;
    found.insert(position, mutant);
    assert(found.deep_view() =~= listed.insert(position as int, view));
}

/// The mutants of a scanned source: for each site that an enabled operator
/// mutates, one mutant at the first token of the operator's kind in the
/// site's range, at the token's line and column, with the operator's
/// replacement. They are listed by span start, then by operator; sites that
/// give equal keys keep the order of the walk.
pub fn find_mutants(
    source: &str,
    tokens: &[ScannedToken],
    sites: &[SyntaxSite],
    operators: &[Operator],
) -> (found: Vec<Mutant>)
    ensures
        found.deep_view() == mutants_of(
            encode_utf8(source@),
            tokens.deep_view(),
            sites.deep_view(),
            operators@,
        ),
        is_ordered(found.deep_view(), by_position()),
        found.deep_view().to_multiset() == site_mutants(
            encode_utf8(source@),
            tokens.deep_view(),
            sites.deep_view(),
            operators@,
        ).to_multiset(),
        forall|i: int|
            0 <= i < found.len() ==> operators@.contains(#[trigger] found@[i].operator)
                && found@[i].replacement@ == operator_replacement(found@[i].operator),
{
    let bytes = source.as_bytes();
    let ghost site_views = sites.deep_view();
    let ghost token_views = tokens.deep_view();
    let mut found: Vec<Mutant> = Vec::new();
    let mut index: usize = 0;
    while index < sites.len()
        invariant
            bytes@ == encode_utf8(source@),
            site_views == sites.deep_view(),
            token_views == tokens.deep_view(),
            index <= sites@.len(),
            found.deep_view() == sort_ordered(
                site_mutants(bytes@, token_views, site_views.take(index as int), operators@),
                by_position(),
            ),
        decreases sites.len() - index,
    {
        proof {
            assert(site_views.take(index + 1).drop_last() =~= site_views.take(index as int));
            assert(site_views.take(index + 1).last() == sites@[index as int]@);
        }
        let ghost earlier = site_mutants(bytes@, token_views, site_views.take(index as int), operators@);
        match mutant_at(bytes, tokens, &sites[index], operators) {
            Some(mutant) => {
                let ghost view = mutant@;
                insert_by_position(&mut found, mutant);
                proof {
                    assert(earlier.push(view).drop_last() =~= earlier);
                }
            },
            None => {},
        }
        index += 1;
    }
    let ghost all = site_mutants(bytes@, token_views, site_views, operators@);
    proof {
        assert(site_views.take(sites.len() as int) =~= site_views);
        lemma_sort_ordered_is_ordered(all, by_position());
        lemma_sort_ordered_multiset(all, by_position());
        lemma_site_mutants_shape(bytes@, token_views, site_views, operators@);
        assert forall|i: int| 0 <= i < found.len() implies operators@.contains(
            #[trigger] found@[i].operator,
        ) && found@[i].replacement@ == operator_replacement(found@[i].operator) by {
            broadcast use vstd::seq_lib::to_multiset_contains;

            let m = found.deep_view()[i];
            assert(m == found@[i]@);
            assert(found.deep_view().to_multiset().count(m) > 0);
            assert(all.contains(m));
        }
    }
    found
}

/// Every mutant found is of an enabled operator and carries its replacement.
proof fn lemma_site_mutants_shape(
    bytes: Seq<u8>,
    tokens: Seq<TokenView>,
    sites: Seq<SiteView>,
    enabled: Seq<Operator>,
)
    ensures
        forall|m: MutantView|
            #[trigger] site_mutants(bytes, tokens, sites, enabled).contains(m) ==> enabled.contains(
                m.operator,
            ) && m.replacement == operator_replacement(m.operator),
    decreases sites.len(),
{
    if sites.len() > 0 {
        lemma_site_mutants_shape(bytes, tokens, sites.drop_last(), enabled);
        let earlier = site_mutants(bytes, tokens, sites.drop_last(), enabled);
        assert forall|m: MutantView| #[trigger]
            site_mutants(bytes, tokens, sites, enabled).contains(m) implies enabled.contains(
            m.operator,
        ) && m.replacement == operator_replacement(m.operator) by {
            match site_mutant(bytes, tokens, sites.last(), enabled) {
                Some(last) => {
                    if m != last {
                        let k = choose|k: int|
                            0 <= k < earlier.push(last).len() && earlier.push(last)[k] == m;
                        assert(earlier[k] == m);
                        assert(earlier.contains(m));
                    }
                },
                None => {},
            }
        }
    }
}

/// The mutants of a TypeScript source for the enabled operators, or the
/// parser's diagnostics when the source does not parse.
pub fn try_mutants(source: &str, path: &str, operators: &[Operator]) -> (result: Result<
    Vec<Mutant>,
    ParseFailure,
>)
    ensures
        ({
            let scan = typescript_scan(source@, path@);
            match result {
                Ok(found) => scan.diagnostics.len() == 0 && found.deep_view() == mutants_of(
                    encode_utf8(source@),
                    scan.tokens,
                    scan.sites,
                    operators@,
                ),
                Err(failure) => scan.diagnostics.len() > 0 && failure.path@ == path@
                    && failure.diagnostics.deep_view() == scan.diagnostics,
            }
        }),
{
    let scan = scan_typescript(source, path);
    if scan.diagnostics.len() > 0 {
        return Err(ParseFailure { path: owned(path), diagnostics: scan.diagnostics });
    }
    Ok(find_mutants(source, scan.tokens.as_slice(), scan.sites.as_slice(), operators))
}

/// The mutants of a TypeScript source for the enabled operators; none when
/// the source does not parse.
pub fn mutants(source: &str, path: &str, operators: &[Operator]) -> (found: Vec<Mutant>)
    ensures
        ({
            let scan = typescript_scan(source@, path@);
            if scan.diagnostics.len() == 0 {
                found.deep_view() == mutants_of(
                    encode_utf8(source@),
                    scan.tokens,
                    scan.sites,
                    operators@,
                )
            } else {
                found.len() == 0
            }
        }),
{
    match try_mutants(source, path, operators) {
        Ok(found) => found,
        Err(_) => Vec::new(),
    }
}

/// Whether a mutant is of one of the enabled operators.
pub open spec fn of_operators(enabled: Seq<Operator>) -> spec_fn(MutantView) -> bool {
    |mutant: MutantView| enabled.contains(mutant.operator)
}

proof fn lemma_site_mutants_of_subset(
    bytes: Seq<u8>,
    tokens: Seq<TokenView>,
    sites: Seq<SiteView>,
    enabled: Seq<Operator>,
    all: Seq<Operator>,
)
    requires
        forall|operator: Operator| enabled.contains(operator) ==> all.contains(operator),
    ensures
        site_mutants(bytes, tokens, sites, enabled) == kept_items(
            site_mutants(bytes, tokens, sites, all),
            of_operators(enabled),
        ),
    decreases sites.len(),
{
    if sites.len() > 0 {
        let rest = sites.drop_last();
        let site = sites.last();
        lemma_site_mutants_of_subset(bytes, tokens, rest, enabled, all);
        let earlier = site_mutants(bytes, tokens, rest, all);
        match site_mutant(bytes, tokens, site, all) {
            Some(mutant) => {
                assert(earlier.push(mutant).drop_last() =~= earlier);
                assert(earlier.push(mutant).last() == mutant);
            },
            None => {},
        }
    }
}

/// The mutants for some of the operators are the mutants for more of them,
/// kept where their operator is among the first: choosing operators only
/// filters the list, without moving or changing a mutant.
pub proof fn lemma_mutants_of_operator_subset(
    bytes: Seq<u8>,
    tokens: Seq<TokenView>,
    sites: Seq<SiteView>,
    enabled: Seq<Operator>,
    all: Seq<Operator>,
)
    requires
        forall|operator: Operator| enabled.contains(operator) ==> all.contains(operator),
    ensures
        mutants_of(bytes, tokens, sites, enabled) == kept_items(
            mutants_of(bytes, tokens, sites, all),
            of_operators(enabled),
        ),
{
    lemma_site_mutants_of_subset(bytes, tokens, sites, enabled, all);
    lemma_kept_items_of_sort(
        site_mutants(bytes, tokens, sites, all),
        by_position(),
        of_operators(enabled),
    );
}

/// At a binary or logical site whose operator is enabled, the operator's
/// token is looked for from the very end of the left operand to the start
/// of the right operand, both ends included: the first token with the site's
/// operator text that lies within `left_end..right_start` gives the mutant,
/// with that token's span, even when no space separates it from an operand.
pub proof fn lemma_operator_token_between_operands(
    bytes: Seq<u8>,
    tokens: Seq<TokenView>,
    site: SiteView,
    enabled: Seq<Operator>,
    text: Seq<char>,
    left_end: u32,
    right_start: u32,
    index: int,
)
    requires
        site == (SiteView::Binary { operator: text, left_end, right_start }) || site == (
        SiteView::Logical { operator: text, left_end, right_start }),
        site_operator(site) is Some,
        enabled.contains(site_operator(site)->0),
        0 <= index < tokens.len(),
        tokens[index].text == text,
        left_end <= tokens[index].start,
        tokens[index].end <= right_start,
        forall|j: int|
            0 <= j < index ==> !(#[trigger] tokens[j].text == text && left_end <= tokens[j].start
                && tokens[j].end <= right_start),
    ensures
        site_mutant(bytes, tokens, site, enabled) matches Some(mutant) && mutant.span_start
            == tokens[index].start && mutant.span_end == tokens[index].end && mutant.operator
            == site_operator(site)->0,
{
    let operator = site_operator(site)->0;
    assert(operator_target(operator) == text);
    assert(site_range(site) == (left_end, right_start));
    assert forall|j: int| 0 <= j < index implies !token_fits(
        #[trigger] tokens[j],
        text,
        left_end,
        right_start,
    ) by {
        assert(!(tokens[j].text == text && left_end <= tokens[j].start && tokens[j].end
            <= right_start));
    }
    assert(is_first_fit(tokens, text, left_end, right_start, index));
    let chosen = choose|i: int| is_first_fit(tokens, text, left_end, right_start, i);
    assert(is_first_fit(tokens, text, left_end, right_start, chosen));
    if chosen < index {
        assert(!token_fits(tokens[chosen], text, left_end, right_start));
    } else if chosen > index {
        assert(!token_fits(tokens[index], text, left_end, right_start));
    }
}

proof fn lemma_site_mutants_contain(
    bytes: Seq<u8>,
    tokens: Seq<TokenView>,
    sites: Seq<SiteView>,
    enabled: Seq<Operator>,
    k: int,
)
    requires
        0 <= k < sites.len(),
        site_mutant(bytes, tokens, sites[k], enabled) is Some,
    ensures
        site_mutants(bytes, tokens, sites, enabled).contains(
            site_mutant(bytes, tokens, sites[k], enabled)->0,
        ),
    decreases sites.len(),
{
    let found = site_mutants(bytes, tokens, sites, enabled);
    let earlier = site_mutants(bytes, tokens, sites.drop_last(), enabled);
    if k == sites.len() - 1 {
        let m = site_mutant(bytes, tokens, sites.last(), enabled)->0;
        assert(found == earlier.push(m));
        assert(found[found.len() - 1] == m);
    } else {
        assert(sites.drop_last()[k] == sites[k]);
        lemma_site_mutants_contain(bytes, tokens, sites.drop_last(), enabled, k);
        let m = site_mutant(bytes, tokens, sites[k], enabled)->0;
        let i = choose|i: int| 0 <= i < earlier.len() && earlier[i] == m;
        match site_mutant(bytes, tokens, sites.last(), enabled) {
            Some(last) => assert(found[i] == earlier.push(last)[i]),
            None => {},
        }
        assert(found[i] == m);
    }
}

/// Every mutant that a site gives is among the mutants of the source.
pub proof fn lemma_site_mutant_is_listed(
    bytes: Seq<u8>,
    tokens: Seq<TokenView>,
    sites: Seq<SiteView>,
    enabled: Seq<Operator>,
    k: int,
)
    requires
        0 <= k < sites.len(),
        site_mutant(bytes, tokens, sites[k], enabled) is Some,
    ensures
        mutants_of(bytes, tokens, sites, enabled).contains(
            site_mutant(bytes, tokens, sites[k], enabled)->0,
        ),
{
    broadcast use vstd::seq_lib::to_multiset_contains;

    let all = site_mutants(bytes, tokens, sites, enabled);
    let m = site_mutant(bytes, tokens, sites[k], enabled)->0;
    lemma_site_mutants_contain(bytes, tokens, sites, enabled, k);
    lemma_sort_ordered_multiset(all, by_position());
    assert(all.to_multiset().count(m) > 0);
    assert(mutants_of(bytes, tokens, sites, enabled).to_multiset().count(m) > 0);
}

/// The operators change one token each, as the operator table says: `>`
/// becomes `>=`, `<` becomes `<=`, `===` and `!==` swap, `&&` and `||` swap,
/// and a returned `true` or `false` becomes the other. The replaced token is
/// the site's own operator or literal.
pub proof fn lemma_mutants_follow_the_operator_table(
    bytes: Seq<u8>,
    tokens: Seq<TokenView>,
    site: SiteView,
    enabled: Seq<Operator>,
)
    ensures
        site_mutant(bytes, tokens, site, enabled) matches Some(mutant) ==> {
            &&& site matches SiteView::Binary { operator, .. } ==> {
                &&& operator == ">"@ ==> mutant.replacement == ">="@
                &&& operator == "<"@ ==> mutant.replacement == "<="@
                &&& operator == "==="@ ==> mutant.replacement == "!=="@
                &&& operator == "!=="@ ==> mutant.replacement == "==="@
            }
            &&& site matches SiteView::Logical { operator, .. } ==> {
                &&& operator == "&&"@ ==> mutant.replacement == "||"@
                &&& operator == "||"@ ==> mutant.replacement == "&&"@
            }
            &&& site matches SiteView::BooleanReturn { value, .. } ==> mutant.replacement == if value {
                "false"@
            } else {
                "true"@
            }
        },
        site_mutant(bytes, tokens, site, enabled) matches Some(mutant) ==> exists|i: int|
            0 <= i < tokens.len() && (#[trigger] tokens[i]).start == mutant.span_start
                && tokens[i].end == mutant.span_end && tokens[i].text == match site {
                SiteView::Binary { operator, .. } => operator,
                SiteView::Logical { operator, .. } => operator,
                SiteView::BooleanReturn { value, .. } => if value {
                    "true"@
                } else {
                    "false"@
                },
            },
{
    reveal_strlit(">");
    reveal_strlit("<");
    reveal_strlit("===");
    reveal_strlit("!==");
    reveal_strlit("&&");
    reveal_strlit("||");
    reveal_strlit("true");
    reveal_strlit("false");
    assert(">"@[0] == '>' && "<"@[0] == '<' && "==="@[0] == '=' && "!=="@[0] == '!');
    assert("&&"@[0] == '&' && "||"@[0] == '|');
    assert(">"@ != "<"@ && ">"@ != "==="@ && ">"@ != "!=="@ && "<"@ != "==="@ && "<"@ != "!=="@
        && "==="@ != "!=="@ && "&&"@ != "||"@);
    match site_mutant(bytes, tokens, site, enabled) {
        Some(mutant) => {
            let operator = site_operator(site)->0;
            let (start, end) = site_range(site);
            let index = first_fit(tokens, operator_target(operator), start, end)->0;
            assert(is_first_fit(tokens, operator_target(operator), start, end, index));
            assert(tokens[index].start == mutant.span_start);
        },
        None => {},
    }
}

} // verus!
