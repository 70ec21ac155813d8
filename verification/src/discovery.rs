//! Which files of a repository are TypeScript sources under test, and which
//! of them a `--file` selector names: path pieces, the test-file and
//! ignored-directory rules, glob matching, and the order of discovered
//! files.

use vstd::prelude::*;

use crate::order::{
    insert_ordered, is_key_order, is_ordered, lemma_insert_at, lemma_ordered_permutations_equal,
    lemma_sort_ordered_is_ordered, lemma_sort_ordered_multiset, sort_ordered,
};
use vstd::seq_lib::{to_multiset_contains, to_multiset_len};
use crate::runner::{lemma_text_less_order, text_less, text_precedes};
use crate::text::{contains_char, first_index_of, joined2, split_on, split_text, text_equals};

verus! {

/// The alternatives of a bracket class, without its negation mark: a
/// character, or a range `a-z` of three characters.
pub open spec fn class_items_match(class: Seq<char>, candidate: char) -> bool
    decreases class.len(),
{
    if class.len() == 0 {
        false
    } else if class.len() >= 3 && class[1] == '-' {
        (class[0] <= candidate && candidate <= class[2]) || class_items_match(
            class.skip(3),
            candidate,
        )
    } else {
        class[0] == candidate || class_items_match(class.drop_first(), candidate)
    }
}

/// Whether a bracket class (the text between `[` and `]`) admits a
/// character; a leading `!` or `^` negates it.
pub open spec fn class_matches(class: Seq<char>, candidate: char) -> bool {
    if class.len() > 0 && (class[0] == '!' || class[0] == '^') {
        !class_items_match(class.drop_first(), candidate)
    } else {
        class_items_match(class, candidate)
    }
}

/// Whether a glob segment matches a path segment: `*` matches any run of
/// characters, `?` any one character, `[...]` one character of a class; a
/// `[` without a closing `]` matches itself, as does any other character.
#[verifier::opaque]
pub open spec fn glob_chars_match(pattern: Seq<char>, candidate: Seq<char>) -> bool
    decreases pattern.len(), candidate.len(),
{
    if pattern.len() == 0 {
        candidate.len() == 0
    } else if pattern[0] == '*' {
        glob_chars_match(pattern.drop_first(), candidate) || (candidate.len() > 0
            && glob_chars_match(pattern, candidate.drop_first()))
    } else if pattern[0] == '?' {
        candidate.len() > 0 && glob_chars_match(pattern.drop_first(), candidate.drop_first())
    } else if pattern[0] == '[' {
        let rest = pattern.drop_first();
        match first_index_of(rest, ']') {
            Some(close) => if 0 <= close < rest.len() {
                candidate.len() > 0 && class_matches(rest.take(close), candidate[0])
                    && glob_chars_match(rest.skip(close + 1), candidate.drop_first())
            } else {
                false
            },
            None => candidate.len() > 0 && candidate[0] == '[' && glob_chars_match(
                rest,
                candidate.drop_first(),
            ),
        }
    } else {
        candidate.len() > 0 && pattern[0] == candidate[0] && glob_chars_match(
            pattern.drop_first(),
            candidate.drop_first(),
        )
    }
}

/// Whether a bracket class admits a character.
pub fn glob_character_class_matches(class: &[char], candidate: char) -> (matches: bool)
    ensures
        matches == class_matches(class@, candidate),
{
    let negated = class.len() > 0 && (class[0] == '!' || class[0] == '^');
    let start: usize = if negated {
        1
    } else {
        0
    };
    proof {
        if negated {
            assert(class@.skip(1) =~= class@.drop_first());
        } else {
            assert(class@.skip(0) =~= class@);
        }
    }
    let mut index = start;
    let mut matches = false;
    while index < class.len()
        invariant
            start <= index <= class@.len(),
            class_items_match(class@.skip(start as int), candidate) == (matches
                || class_items_match(class@.skip(index as int), candidate)),
        decreases class.len() - index,
    {
        let ghost rest = class@.skip(index as int);
        proof {
            assert(rest[0] == class@[index as int]);
        }
        if class.len() - index > 2 && class[index + 1] == '-' {
            proof {
                assert(rest[1] == class@[index + 1]);
                assert(rest[2] == class@[index + 2]);
                assert(rest.skip(3) =~= class@.skip(index + 3));
            }
            matches = matches || (class[index] <= candidate && candidate <= class[index + 2]);
            index += 3;
        } else {
            proof {
                assert(rest.drop_first() =~= class@.skip(index + 1));
            }
            matches = matches || class[index] == candidate;
            index += 1;
        }
    }
    proof {
        assert(class@.skip(index as int).len() == 0);
    }
    matches != negated
}

/// The offset, from `from`, of the first `]` at or after `from`.
fn closing_bracket(pattern: &[char], from: usize) -> (found: Option<usize>)
    requires
        from <= pattern@.len(),
    ensures
        match found {
            Some(offset) => first_index_of(pattern@.skip(from as int), ']') == Some(offset as int)
                && offset < pattern@.len() - from,
            None => first_index_of(pattern@.skip(from as int), ']') is None,
        },
{
    reveal(first_index_of);
    let ghost rest = pattern@.skip(from as int);
    let mut index = from;
    while index < pattern.len()
        invariant
            from <= index <= pattern@.len(),
            rest == pattern@.skip(from as int),
            forall|j: int| 0 <= j < index - from ==> rest[j] != ']',
        decreases pattern.len() - index,
    {
        if pattern[index] == ']' {
            let offset = index - from;
            proof {
                assert(rest[offset as int] == ']');
                reveal(first_index_of);
                assert(rest.contains(']'));
                let chosen = choose|i: int|
                    0 <= i < rest.len() && rest[i] == ']' && forall|j: int|
                        0 <= j < i ==> rest[j] != ']';
                assert(0 <= chosen < rest.len() && rest[chosen] == ']' && forall|j: int|
                    0 <= j < chosen ==> rest[j] != ']');
                if chosen < offset {
                } else if chosen > offset {
                    assert(rest[offset as int] != ']');
                }
            }
            return Some(offset);
        }
        index += 1;
    }
    proof {
        assert forall|j: int| 0 <= j < rest.len() implies rest[j] != ']' by {}
        assert(!rest.contains(']'));
    }
    None
}

/// One step of segment matching, by the pattern's first character.
pub proof fn lemma_glob_chars_step(pattern: Seq<char>, candidate: Seq<char>)
    ensures
        pattern.len() == 0 ==> glob_chars_match(pattern, candidate) == (candidate.len() == 0),
        pattern.len() > 0 && pattern[0] == '*' ==> glob_chars_match(pattern, candidate) == (
        glob_chars_match(pattern.drop_first(), candidate) || (candidate.len() > 0
            && glob_chars_match(pattern, candidate.drop_first()))),
        pattern.len() > 0 && pattern[0] == '?' ==> glob_chars_match(pattern, candidate) == (
        candidate.len() > 0 && glob_chars_match(pattern.drop_first(), candidate.drop_first())),
        pattern.len() > 0 && pattern[0] != '*' && pattern[0] != '?' && pattern[0] != '['
            ==> glob_chars_match(pattern, candidate) == (candidate.len() > 0 && pattern[0]
            == candidate[0] && glob_chars_match(pattern.drop_first(), candidate.drop_first())),
{
    reveal(glob_chars_match);
}

/// One step of segment matching at a `[` that a `]` closes: the class
/// between them admits the first character.
pub proof fn lemma_glob_class_step(pattern: Seq<char>, candidate: Seq<char>, close: int)
    requires
        pattern.len() > 0,
        pattern[0] == '[',
        first_index_of(pattern.drop_first(), ']') == Some(close),
        0 <= close < pattern.len() - 1,
    ensures
        glob_chars_match(pattern, candidate) == (candidate.len() > 0 && class_matches(
            pattern.subrange(1, close + 1),
            candidate[0],
        ) && glob_chars_match(pattern.skip(close + 2), candidate.drop_first())),
{
    reveal(glob_chars_match);
    assert(pattern.drop_first().take(close) =~= pattern.subrange(1, close + 1));
    assert(pattern.drop_first().skip(close + 1) =~= pattern.skip(close + 2));
}

/// One step of segment matching at a `[` that no `]` closes: it matches
/// itself.
pub proof fn lemma_glob_open_bracket_step(pattern: Seq<char>, candidate: Seq<char>)
    requires
        pattern.len() > 0,
        pattern[0] == '[',
        first_index_of(pattern.drop_first(), ']') is None,
    ensures
        glob_chars_match(pattern, candidate) == (candidate.len() > 0 && candidate[0] == '['
            && glob_chars_match(pattern.drop_first(), candidate.drop_first())),
{
    reveal(glob_chars_match);
}

fn characters_between(text: &[char], start: usize, end: usize) -> (piece: Vec<char>)
    requires
        start <= end <= text@.len(),
    ensures
        piece@ == text@.subrange(start as int, end as int),
{
    let mut piece: Vec<char> = Vec::new();
    let mut index = start;
    while index < end
        invariant
            start <= index <= end <= text@.len(),
            piece@ == text@.subrange(start as int, index as int),
        decreases end - index,
    {
        piece.push(text[index]);
        index += 1;
    }
    piece
}

fn bracket_match_from(pattern: &[char], at: usize, candidate: &[char], from: usize) -> (matched:
    bool)
    requires
        at < pattern@.len(),
        from <= candidate@.len(),
        pattern@[at as int] == '[',
    ensures
        matched == glob_chars_match(pattern@.skip(at as int), candidate@.skip(from as int)),
    decreases pattern@.len() - at, candidate@.len() - from, 0nat,
{
    let length = pattern.len();
    let ghost rest = pattern@.skip(at as int);
    let ghost text = candidate@.skip(from as int);
    proof {
        assert(rest.drop_first() =~= pattern@.skip(at + 1));
        if from < candidate.len() {
            assert(text[0] == candidate@[from as int]);
            assert(text.drop_first() =~= candidate@.skip(from + 1));
        }
    }
    match closing_bracket(pattern, at + 1) {
        Some(close) => {
            proof {
                lemma_glob_class_step(rest, text, close as int);
                assert(rest.subrange(1, close + 1) =~= pattern@.subrange(at + 1, at + 1 + close));
                assert(rest.skip(close + 2) =~= pattern@.skip(at + 2 + close));
            }
            if from == candidate.len() {
                return false;
            }
            let class = characters_between(pattern, at + 1, at + 1 + close);
            glob_character_class_matches(class.as_slice(), candidate[from])
                && characters_match_from(pattern, at + 2 + close, candidate, from + 1)
        },
        None => {
            proof {
                lemma_glob_open_bracket_step(rest, text);
            }
            from < candidate.len() && candidate[from] == '[' && characters_match_from(
                pattern,
                at + 1,
                candidate,
                from + 1,
            )
        },
    }
}

fn characters_match_from(pattern: &[char], at: usize, candidate: &[char], from: usize) -> (matched:
    bool)
    requires
        at <= pattern@.len(),
        from <= candidate@.len(),
    ensures
        matched == glob_chars_match(pattern@.skip(at as int), candidate@.skip(from as int)),
    decreases pattern@.len() - at, candidate@.len() - from, 1nat,
{
    let ghost rest = pattern@.skip(at as int);
    let ghost text = candidate@.skip(from as int);
    if at == pattern.len() {
        proof {
            lemma_glob_chars_step(rest, text);
        }
        return from == candidate.len();
    }
    proof {
        assert(rest[0] == pattern@[at as int]);
        assert(rest.drop_first() =~= pattern@.skip(at + 1));
        if from < candidate.len() {
            assert(text[0] == candidate@[from as int]);
            assert(text.drop_first() =~= candidate@.skip(from + 1));
        }
    }
    proof {
        lemma_glob_chars_step(rest, text);
    }
    let head = pattern[at];
    if head == '*' {
        if characters_match_from(pattern, at + 1, candidate, from) {
            return true;
        }
        return from < candidate.len() && characters_match_from(pattern, at, candidate, from + 1);
    }
    if head == '?' {
        return from < candidate.len() && characters_match_from(pattern, at + 1, candidate, from + 1);
    }
    if head == '[' {
        return bracket_match_from(pattern, at, candidate, from);
    }
    from < candidate.len() && head == candidate[from] && characters_match_from(
        pattern,
        at + 1,
        candidate,
        from + 1,
    )
}

/// Whether a glob segment, as characters, matches a path segment.
pub fn glob_characters_match(pattern: &[char], candidate: &[char]) -> (matched: bool)
    ensures
        matched == glob_chars_match(pattern@, candidate@),
{
    assert(pattern@.skip(0) =~= pattern@);
    assert(candidate@.skip(0) =~= candidate@);
    characters_match_from(pattern, 0, candidate, 0)
}

/// Whether a glob pattern segment matches a path segment.
pub fn glob_segment_matches(pattern: &str, candidate: &str) -> (matched: bool)
    ensures
        matched == glob_chars_match(pattern@, candidate@),
{
    let pattern = characters_of(pattern);
    let candidate = characters_of(candidate);
    glob_characters_match(pattern.as_slice(), candidate.as_slice())
}

fn characters_of(text: &str) -> (characters: Vec<char>)
    ensures
        characters@ == text@,
{
    let length = text.unicode_len();
    let mut characters: Vec<char> = Vec::new();
    let mut index: usize = 0;
    while index < length
        invariant
            length == text@.len(),
            index <= length,
            characters@ == text@.take(index as int),
        decreases length - index,
    {
        characters.push(text.get_char(index));
        index += 1;
        assert(characters@ =~= text@.take(index as int));
    }
    assert(text@.take(length as int) =~= text@);
    characters
}

/// Whether glob pattern segments match path segments: `**` matches any
/// number of segments, any other pattern segment exactly one.
pub open spec fn glob_segments(pattern: Seq<Seq<char>>, candidate: Seq<Seq<char>>) -> bool
    decreases pattern.len(), candidate.len(),
{
    if pattern.len() == 0 {
        candidate.len() == 0
    } else if pattern[0] == "**"@ {
        glob_segments(pattern.drop_first(), candidate) || (candidate.len() > 0 && glob_segments(
            pattern,
            candidate.drop_first(),
        ))
    } else {
        candidate.len() > 0 && glob_chars_match(pattern[0], candidate[0]) && glob_segments(
            pattern.drop_first(),
            candidate.drop_first(),
        )
    }
}

fn segments_match_from(pattern: &Vec<String>, at: usize, candidate: &Vec<String>, from: usize) -> (matched:
    bool)
    requires
        at <= pattern@.len(),
        from <= candidate@.len(),
    ensures
        matched == glob_segments(
            pattern.deep_view().skip(at as int),
            candidate.deep_view().skip(from as int),
        ),
    decreases pattern@.len() - at, candidate@.len() - from,
{
    let ghost rest = pattern.deep_view().skip(at as int);
    let ghost text = candidate.deep_view().skip(from as int);
    if at == pattern.len() {
        return from == candidate.len();
    }
    proof {
        assert(rest[0] == pattern@[at as int]@);
        assert(rest.drop_first() =~= pattern.deep_view().skip(at + 1));
        if from < candidate.len() {
            assert(text[0] == candidate@[from as int]@);
            assert(text.drop_first() =~= candidate.deep_view().skip(from + 1));
        }
    }
    if text_equals(pattern[at].as_str(), "**") {
        if segments_match_from(pattern, at + 1, candidate, from) {
            return true;
        }
        return from < candidate.len() && segments_match_from(pattern, at, candidate, from + 1);
    }
    from < candidate.len() && glob_segment_matches(pattern[at].as_str(), candidate[from].as_str())
        && segments_match_from(pattern, at + 1, candidate, from + 1)
}

/// Whether glob pattern segments match path segments.
pub fn glob_segments_match(pattern: &Vec<String>, candidate: &Vec<String>) -> (matched: bool)
    ensures
        matched == glob_segments(pattern.deep_view(), candidate.deep_view()),
{
    assert(pattern.deep_view().skip(0) =~= pattern.deep_view());
    assert(candidate.deep_view().skip(0) =~= candidate.deep_view());
    segments_match_from(pattern, 0, candidate, 0)
}

/// The pieces of a path between slashes that `Path` keeps as components:
/// not empty and not `.`.
pub open spec fn kept_pieces(pieces: Seq<Seq<char>>) -> Seq<Seq<char>>
    decreases pieces.len(),
{
    if pieces.len() == 0 {
        seq![]
    } else if pieces.last().len() > 0 && pieces.last() != "."@ {
        kept_pieces(pieces.drop_last()).push(pieces.last())
    } else {
        kept_pieces(pieces.drop_last())
    }
}

/// The named components of a path: its kept pieces other than `..`.
pub open spec fn named_pieces(pieces: Seq<Seq<char>>) -> Seq<Seq<char>>
    decreases pieces.len(),
{
    if pieces.len() == 0 {
        seq![]
    } else if pieces.last().len() > 0 && pieces.last() != "."@ && pieces.last() != ".."@ {
        named_pieces(pieces.drop_last()).push(pieces.last())
    } else {
        named_pieces(pieces.drop_last())
    }
}

/// The segments of a glob pattern.
pub open spec fn pattern_segments(pattern: Seq<char>) -> Seq<Seq<char>> {
    kept_pieces(split_on(pattern, '/'))
}

/// The named components of a path.
pub open spec fn path_components(path: Seq<char>) -> Seq<Seq<char>> {
    named_pieces(split_on(path, '/'))
}

pub(crate) fn pieces_of(path: &str, keep_parent: bool) -> (pieces: Vec<String>)
    ensures
        keep_parent ==> pieces.deep_view() == pattern_segments(path@),
        !keep_parent ==> pieces.deep_view() == path_components(path@),
{
    let all = split_text(path, '/');
    let ghost views = all.deep_view();
    let mut pieces: Vec<String> = Vec::new();
    let mut index: usize = 0;
    while index < all.len()
        invariant
            views == all.deep_view(),
            views == split_on(path@, '/'),
            index <= all@.len(),
            keep_parent ==> pieces.deep_view() == kept_pieces(views.take(index as int)),
            !keep_parent ==> pieces.deep_view() == named_pieces(views.take(index as int)),
        decreases all.len() - index,
    {
        let piece = &all[index];
        proof {
            assert(views.take(index + 1).drop_last() =~= views.take(index as int));
            assert(views.take(index + 1).last() == piece@);
        }
        let empty = piece.unicode_len() == 0;
        let current = text_equals(piece.as_str(), ".");
        let parent = text_equals(piece.as_str(), "..");
        if !empty && !current && (keep_parent || !parent) {
            let ghost before = pieces.deep_view();
            pieces.push(piece.clone());
            proof {
                assert(pieces.deep_view() =~= before.push(views[index as int]));
            }
        }
        index += 1;
    }
    assert(views.take(all.len() as int) =~= views);
    pieces
}

/// Whether a glob pattern matches a path, segment by segment.
pub open spec fn glob_path_matches(pattern: Seq<char>, candidate: Seq<char>) -> bool {
    glob_segments(pattern_segments(pattern), path_components(candidate))
}

/// Whether a glob pattern matches a path.
pub fn glob_matches(pattern: &str, candidate: &str) -> (matched: bool)
    ensures
        matched == glob_path_matches(pattern@, candidate@),
{
    let pattern_pieces = pieces_of(pattern, true);
    let candidate_pieces = pieces_of(candidate, false);
    glob_segments_match(&pattern_pieces, &candidate_pieces)
}

/// The last component of a path, when it names something: not for an
/// empty path, the root, or a path that ends in `..`.
pub open spec fn file_name(path: Seq<char>) -> Option<Seq<char>> {
    let pieces = kept_pieces(split_on(path, '/'));
    if pieces.len() == 0 || pieces.last() == ".."@ {
        None
    } else {
        Some(pieces.last())
    }
}

/// The last component of a path, when it names something.
pub fn file_name_of(path: &str) -> (name: Option<String>)
    ensures
        name matches Some(text) ==> file_name(path@) == Some(text@),
        name is None ==> file_name(path@) is None,
{
    let pieces = pieces_of(path, true);
    if pieces.len() == 0 {
        return None;
    }
    let last = &pieces[pieces.len() - 1];
    proof {
        assert(pieces.deep_view().last() == last@);
    }
    if text_equals(last.as_str(), "..") {
        None
    } else {
        Some(last.clone())
    }
}

/// The names of the directories that discovery does not enter.
pub open spec fn ignored_name(name: Seq<char>) -> bool {
    name == "node_modules"@ || name == "dist"@ || name == "build"@ || name == ".git"@
}

/// Whether discovery leaves a directory of this name alone: dependencies,
/// build output and version control.
pub fn is_ignored_directory_name(name: &str) -> (ignored: bool)
    ensures
        ignored == ignored_name(name@),
{
    text_equals(name, "node_modules") || text_equals(name, "dist") || text_equals(name, "build")
        || text_equals(name, ".git")
}

/// Whether a path names an ignored directory.
pub open spec fn ignored_directory(path: Seq<char>) -> bool {
    match file_name(path) {
        Some(name) => ignored_name(name),
        None => false,
    }
}

/// Whether the last component of a path is an ignored directory name.
pub fn is_ignored_directory(path: &str) -> (ignored: bool)
    ensures
        ignored == ignored_directory(path@),
{
    match file_name_of(path) {
        Some(name) => is_ignored_directory_name(name.as_str()),
        None => false,
    }
}

/// Whether some component of a path is an ignored directory name.
pub open spec fn ignored_component(path: Seq<char>) -> bool {
    exists|i: int| 0 <= i < path_components(path).len() && ignored_name(#[trigger] path_components(path)[i])
}

/// Whether some component of a path is an ignored directory name.
pub fn has_ignored_directory_component(path: &str) -> (ignored: bool)
    ensures
        ignored == ignored_component(path@),
{
    let components = pieces_of(path, false);
    let ghost views = components.deep_view();
    let mut index: usize = 0;
    while index < components.len()
        invariant
            views == components.deep_view(),
            views == path_components(path@),
            index <= components@.len(),
            forall|j: int| 0 <= j < index ==> !ignored_name(#[trigger] views[j]),
        decreases components.len() - index,
    {
        proof {
            assert(views[index as int] == components@[index as int]@);
        }
        if is_ignored_directory_name(components[index].as_str()) {
            return true;
        }
        index += 1;
    }
    false
}

/// Whether `text` ends with `suffix`.
pub open spec fn ends_with(text: Seq<char>, suffix: Seq<char>) -> bool {
    suffix.len() <= text.len() && text.subrange(text.len() - suffix.len(), text.len() as int)
        == suffix
}

fn text_ends_with(text: &str, suffix: &str) -> (ends: bool)
    ensures
        ends == ends_with(text@, suffix@),
{
    let length = text.unicode_len();
    let suffix_length = suffix.unicode_len();
    if suffix_length > length {
        return false;
    }
    let offset = length - suffix_length;
    let mut index: usize = 0;
    while index < suffix_length
        invariant
            length == text@.len(),
            suffix_length == suffix@.len(),
            offset == length - suffix_length,
            index <= suffix_length,
            forall|j: int| 0 <= j < index ==> text@[offset + j] == suffix@[j],
        decreases suffix_length - index,
    {
        if text.get_char(offset + index) != suffix.get_char(index) {
            proof {
                assert(text@.subrange(offset as int, length as int)[index as int] != suffix@[index as int]);
            }
            return false;
        }
        index += 1;
    }
    assert(text@.subrange(offset as int, length as int) =~= suffix@);
    true
}

/// Whether a file name is that of a test file: `.test.ts`, `.spec.ts`,
/// `.test.tsx` or `.spec.tsx`.
pub open spec fn test_name(name: Seq<char>) -> bool {
    ends_with(name, ".test.ts"@) || ends_with(name, ".spec.ts"@) || ends_with(name, ".test.tsx"@)
        || ends_with(name, ".spec.tsx"@)
}

/// Whether a path names a test file.
pub open spec fn test_file(path: Seq<char>) -> bool {
    match file_name(path) {
        Some(name) => test_name(name),
        None => false,
    }
}

fn is_test_name(name: &str) -> (test: bool)
    ensures
        test == test_name(name@),
{
    text_ends_with(name, ".test.ts") || text_ends_with(name, ".spec.ts") || text_ends_with(
        name,
        ".test.tsx",
    ) || text_ends_with(name, ".spec.tsx")
}

/// Whether a path names a test file, which is never mutated.
pub fn is_test_file(path: &str) -> (test: bool)
    ensures
        test == test_file(path@),
{
    match file_name_of(path) {
        Some(name) => is_test_name(name.as_str()),
        None => false,
    }
}

/// The index of the last `.` in a name.
pub open spec fn last_dot(name: Seq<char>) -> Option<int>
    decreases name.len(),
{
    if name.len() == 0 {
        None
    } else if name.last() == '.' {
        Some(name.len() - 1)
    } else {
        last_dot(name.drop_last())
    }
}

/// The extension of a file name: what follows its last `.`, unless that
/// `.` is its first character or it has none.
pub open spec fn extension_of(name: Seq<char>) -> Option<Seq<char>> {
    match last_dot(name) {
        Some(dot) => if dot == 0 {
            None
        } else {
            Some(name.skip(dot + 1))
        },
        None => None,
    }
}

proof fn lemma_last_dot_at(name: Seq<char>, dot: int)
    requires
        0 <= dot < name.len(),
        name[dot] == '.',
        forall|j: int| dot < j < name.len() ==> name[j] != '.',
    ensures
        last_dot(name) == Some(dot),
    decreases name.len(),
{
    if dot < name.len() - 1 {
        lemma_last_dot_at(name.drop_last(), dot);
    }
}

proof fn lemma_no_dot(name: Seq<char>)
    requires
        forall|j: int| 0 <= j < name.len() ==> name[j] != '.',
    ensures
        last_dot(name) is None,
    decreases name.len(),
{
    if name.len() > 0 {
        lemma_no_dot(name.drop_last());
    }
}

fn extension_is(name: &str, extension: &str) -> (matches: bool)
    ensures
        matches == (extension_of(name@) == Some(extension@)),
{
    let length = name.unicode_len();
    let mut index = length;
    while index > 0 && name.get_char(index - 1) != '.'
        invariant
            length == name@.len(),
            index <= length,
            forall|j: int| index <= j < length ==> name@[j] != '.',
        decreases index,
    {
        index -= 1;
    }
    if index == 0 {
        proof {
            lemma_no_dot(name@);
        }
        return false;
    }
    let dot = index - 1;
    proof {
        lemma_last_dot_at(name@, dot as int);
    }
    if dot == 0 {
        return false;
    }
    let after = name.substring_char(index, length);
    text_equals(after, extension)
}

/// Whether a path names a TypeScript source under test: a `.ts` or `.tsx`
/// file that is not a test file.
pub open spec fn source_file(path: Seq<char>) -> bool {
    match file_name(path) {
        Some(name) => (extension_of(name) == Some("ts"@) || extension_of(name) == Some("tsx"@))
            && !test_name(name),
        None => false,
    }
}

/// Whether a path names a TypeScript source under test.
pub fn is_source_file(path: &str) -> (source: bool)
    ensures
        source == source_file(path@),
{
    match file_name_of(path) {
        Some(name) => (extension_is(name.as_str(), "ts") || extension_is(name.as_str(), "tsx"))
            && !is_test_name(name.as_str()),
        None => false,
    }
}

/// Whether a `--file` selector is a glob: it holds `*`, `?` or `[`.
pub open spec fn glob_pattern(path: Seq<char>) -> bool {
    path.contains('*') || path.contains('?') || path.contains('[')
}

/// Whether a `--file` selector is a glob.
pub fn has_glob_pattern(path: &str) -> (glob: bool)
    ensures
        glob == glob_pattern(path@),
{
    contains_char(path, '*') || contains_char(path, '?') || contains_char(path, '[')
}

/// Whether one sequence of path components comes before another: at the
/// first component where they differ, in code point order; a path comes
/// before the paths it is a prefix of.
pub open spec fn components_less(first: Seq<Seq<char>>, second: Seq<Seq<char>>) -> bool
    decreases first.len(),
{
    if first.len() == 0 {
        second.len() > 0
    } else if second.len() == 0 {
        false
    } else if first[0] != second[0] {
        text_less(first[0], second[0])
    } else {
        components_less(first.drop_first(), second.drop_first())
    }
}

/// Component order is a strict total order: asymmetric, transitive, and
/// two component sequences that neither precedes are equal.
pub proof fn lemma_components_less_order(
    first: Seq<Seq<char>>,
    second: Seq<Seq<char>>,
    third: Seq<Seq<char>>,
)
    ensures
        components_less(first, second) ==> !components_less(second, first),
        !components_less(first, second) && !components_less(second, first) ==> first == second,
        components_less(first, second) && components_less(second, third) ==> components_less(
            first,
            third,
        ),
    decreases first.len(),
{
    if first.len() > 0 && second.len() > 0 {
        let (a, b) = (first[0], second[0]);
        lemma_text_less_order(a, b, a);
        if third.len() > 0 {
            let c = third[0];
            lemma_text_less_order(a, b, c);
            lemma_text_less_order(a, c, b);
            lemma_text_less_order(c, a, b);
            lemma_components_less_order(
                first.drop_first(),
                second.drop_first(),
                third.drop_first(),
            );
        } else {
            lemma_components_less_order(
                first.drop_first(),
                second.drop_first(),
                second.drop_first(),
            );
        }
        if !components_less(first, second) && !components_less(second, first) {
            assert(first =~= seq![a] + first.drop_first());
            assert(second =~= seq![b] + second.drop_first());
        }
    } else if first.len() == 0 && second.len() == 0 {
        assert(first =~= second);
    }
}

/// The order of discovered files: by their components.
pub open spec fn by_path() -> spec_fn(Seq<char>, Seq<char>) -> bool {
    |first: Seq<char>, second: Seq<char>|
        components_less(path_components(first), path_components(second))
}

/// The order of discovered files compares keys.
pub proof fn lemma_by_path_is_key_order()
    ensures
        is_key_order(by_path()),
{
    assert forall|a: Seq<char>, b: Seq<char>| #[trigger] by_path()(a, b) implies !by_path()(
        b,
        a,
    ) by {
        let (x, y) = (path_components(a), path_components(b));
        lemma_components_less_order(x, y, x);
    }
    assert forall|a: Seq<char>, b: Seq<char>, c: Seq<char>|
        #![trigger by_path()(a, b), by_path()(b, c)]
        !by_path()(a, b) && !by_path()(b, c) implies !by_path()(a, c) by {
        let (x, y, z) = (path_components(a), path_components(b), path_components(c));
        lemma_components_less_order(x, y, z);
        lemma_components_less_order(y, z, x);
        lemma_components_less_order(z, x, y);
        lemma_components_less_order(y, x, z);
        lemma_components_less_order(x, z, y);
        lemma_components_less_order(z, y, x);
    }
}

fn path_precedes(first: &str, second: &str) -> (before: bool)
    ensures
        before == by_path()(first@, second@),
{
    let a = pieces_of(first, false);
    let b = pieces_of(second, false);
    let ghost (x, y) = (a.deep_view(), b.deep_view());
    let mut index: usize = 0;
    assert(x.skip(0) =~= x);
    assert(y.skip(0) =~= y);
    while index < a.len() && index < b.len()
        invariant
            x == a.deep_view(),
            y == b.deep_view(),
            x == path_components(first@),
            y == path_components(second@),
            index <= a@.len(),
            index <= b@.len(),
            components_less(x, y) == components_less(x.skip(index as int), y.skip(index as int)),
        decreases a.len() - index,
    {
        proof {
            assert(x.skip(index as int)[0] == a@[index as int]@);
            assert(y.skip(index as int)[0] == b@[index as int]@);
            assert(x.skip(index as int).drop_first() =~= x.skip(index + 1));
            assert(y.skip(index as int).drop_first() =~= y.skip(index + 1));
        }
        if !text_equals(a[index].as_str(), b[index].as_str()) {
            let less = text_precedes(a[index].as_str(), b[index].as_str());
            proof {
                assert(x.skip(index as int)[0] != y.skip(index as int)[0]);
                assert(components_less(x.skip(index as int), y.skip(index as int)) == less);
            }
            return less;
        }
        index += 1;
    }
    index == a.len() && index < b.len()
}

fn insert_by_path(listed: &mut Vec<String>, file: String)
    ensures
        final(listed).deep_view() == insert_ordered(old(listed).deep_view(), file@, by_path()),
{
    let ghost before = listed.deep_view();
    let mut position = listed.len();
    while position > 0 && path_precedes(file.as_str(), listed[position - 1].as_str())
        invariant
            position <= listed.len(),
            before == listed.deep_view(),
            forall|j: int| position <= j < before.len() ==> by_path()(file@, #[trigger] before[j]),
        decreases position,
    {
        proof {
            assert(before[position - 1] == listed@[position - 1]@);
        }
        position -= 1;
    }
    proof {
        if position > 0 {
            assert(before[position - 1] == listed@[position - 1]@);
        }
        lemma_insert_at(before, file@, by_path(), position as int);
    }
    let ghost view = file@;
    listed.insert(position, file);
    assert(listed.deep_view() =~= before.insert(position as int, view));
}

/// The files that a glob pattern matches, in their order.
pub open spec fn glob_retained(files: Seq<Seq<char>>, pattern: Seq<char>) -> Seq<Seq<char>>
    decreases files.len(),
{
    if files.len() == 0 {
        seq![]
    } else if glob_path_matches(pattern, files.last()) {
        glob_retained(files.drop_last(), pattern).push(files.last())
    } else {
        glob_retained(files.drop_last(), pattern)
    }
}

/// The files that a selector keeps of those found under it: for a glob,
/// the ones that it matches; else all of them.
pub open spec fn selected_files(files: Seq<Seq<char>>, selector: Seq<char>) -> Seq<Seq<char>> {
    if glob_pattern(selector) {
        glob_retained(files, selector)
    } else {
        files
    }
}

/// What discovery answers for the files found under a selector: the
/// selected files in component order, or an error when none is left.
pub open spec fn discovered(files: Seq<Seq<char>>, selector: Seq<char>) -> Result<
    Seq<Seq<char>>,
    Seq<char>,
> {
    let kept = selected_files(files, selector);
    if kept.len() == 0 {
        Err("no TypeScript source files matched --file "@ + selector)
    } else {
        Ok(sort_ordered(kept, by_path()))
    }
}

/// The files of a walk under `selector` (all of the repository's sources
/// for a glob) that discovery answers: those the selector keeps, in
/// component order, each once as often as found; an error when none is
/// left.
pub fn finish_discovery(files: Vec<String>, selector: &str) -> (found: Result<Vec<String>, String>)
    ensures
        found matches Ok(sorted) ==> discovered(files.deep_view(), selector@) == Ok::<
            Seq<Seq<char>>,
            Seq<char>,
        >(sorted.deep_view()),
        found matches Err(message) ==> discovered(files.deep_view(), selector@) == Err::<
            Seq<Seq<char>>,
            Seq<char>,
        >(message@),
        found matches Ok(sorted) ==> is_ordered(sorted.deep_view(), by_path()),
        found matches Ok(sorted) ==> sorted.deep_view().to_multiset() == selected_files(
            files.deep_view(),
            selector@,
        ).to_multiset(),
{
    let ghost views = files.deep_view();
    let glob = has_glob_pattern(selector);
    let mut kept: Vec<String> = Vec::new();
    let mut index: usize = 0;
    while index < files.len()
        invariant
            views == files.deep_view(),
            index <= files@.len(),
            glob ==> kept.deep_view() == glob_retained(views.take(index as int), selector@),
            !glob ==> kept.deep_view() == views.take(index as int),
        decreases files.len() - index,
    {
        let file = &files[index];
        proof {
            assert(views.take(index + 1).drop_last() =~= views.take(index as int));
            assert(views.take(index + 1).last() == file@);
        }
        if !glob || glob_matches(selector, file.as_str()) {
            let ghost before = kept.deep_view();
            kept.push(file.clone());
            assert(kept.deep_view() =~= before.push(file@));
        }
        index += 1;
    }
    assert(views.take(files.len() as int) =~= views);
    let ghost selected = kept.deep_view();
    let mut sorted: Vec<String> = Vec::new();
    let mut index: usize = 0;
    while index < kept.len()
        invariant
            selected == kept.deep_view(),
            index <= kept@.len(),
            sorted.deep_view() == sort_ordered(selected.take(index as int), by_path()),
        decreases kept.len() - index,
    {
        proof {
            assert(selected.take(index + 1).drop_last() =~= selected.take(index as int));
            assert(selected.take(index + 1).last() == kept@[index as int]@);
        }
        insert_by_path(&mut sorted, kept[index].clone());
        index += 1;
    }
    proof {
        assert(selected.take(kept.len() as int) =~= selected);
        lemma_by_path_is_key_order();
        lemma_sort_ordered_is_ordered(selected, by_path());
        lemma_sort_ordered_multiset(selected, by_path());
    }
    if sorted.len() == 0 {
        return Err(joined2("no TypeScript source files matched --file ", selector));
    }
    Ok(sorted)
}

/// A segment pattern of one `*` matches every segment.
pub proof fn lemma_star_matches_any_segment(candidate: Seq<char>)
    ensures
        glob_chars_match(seq!['*'], candidate),
    decreases candidate.len(),
{
    let star = seq!['*'];
    lemma_glob_chars_step(star, candidate);
    lemma_glob_chars_step(star.drop_first(), candidate);
    if candidate.len() > 0 {
        lemma_star_matches_any_segment(candidate.drop_first());
    }
}

/// A segment pattern without `*`, `?` or `[` matches exactly itself.
pub proof fn lemma_literal_segment_matches_itself(pattern: Seq<char>, candidate: Seq<char>)
    requires
        !pattern.contains('*'),
        !pattern.contains('?'),
        !pattern.contains('['),
    ensures
        glob_chars_match(pattern, candidate) == (pattern == candidate),
    decreases pattern.len(),
{
    lemma_glob_chars_step(pattern, candidate);
    if pattern.len() > 0 {
        assert(pattern[0] != '*' && pattern[0] != '?' && pattern[0] != '[') by {
            assert(pattern.contains(pattern[0]));
        }
        let rest = pattern.drop_first();
        assert(!rest.contains('*') && !rest.contains('?') && !rest.contains('[')) by {
            assert forall|c: char| #[trigger] rest.contains(c) implies pattern.contains(c) by {
                let i = choose|i: int| 0 <= i < rest.len() && rest[i] == c;
                assert(pattern[i + 1] == c);
            }
        }
        if candidate.len() > 0 {
            lemma_literal_segment_matches_itself(rest, candidate.drop_first());
            assert(pattern =~= seq![pattern[0]] + rest);
            assert(candidate =~= seq![candidate[0]] + candidate.drop_first());
            if pattern == candidate {
                assert(rest =~= candidate.drop_first());
            }
        }
    } else {
        assert(candidate.len() == 0 ==> pattern =~= candidate);
    }
}

/// A pattern of one `**` segment matches every path.
pub proof fn lemma_double_star_matches_any_path(candidate: Seq<Seq<char>>)
    ensures
        glob_segments(seq!["**"@], candidate),
    decreases candidate.len(),
{
    let pattern = seq!["**"@];
    assert(pattern[0] == "**"@);
    assert(pattern.drop_first().len() == 0);
    assert(glob_segments(pattern.drop_first(), candidate) == (candidate.len() == 0));
    if candidate.len() > 0 {
        lemma_double_star_matches_any_path(candidate.drop_first());
    }
}

proof fn lemma_split_without_separator(piece: Seq<char>, separator: char)
    requires
        !piece.contains(separator),
    ensures
        split_on(piece, separator) == seq![piece],
    decreases piece.len(),
{
    if piece.len() == 0 {
        assert(piece =~= Seq::<char>::empty());
        assert(split_on(piece, separator) =~= seq![piece]);
    } else {
        let rest = piece.drop_last();
        assert(!rest.contains(separator)) by {
            if rest.contains(separator) {
                let i = choose|i: int| 0 <= i < rest.len() && rest[i] == separator;
                assert(piece[i] == separator);
            }
        }
        assert(piece.last() != separator) by {
            assert(piece[piece.len() - 1] == piece.last());
        }
        lemma_split_without_separator(rest, separator);
        assert(piece.drop_last() == rest);
        let earlier = split_on(rest, separator);
        assert(earlier == seq![rest]);
        assert(split_on(piece, separator) == earlier.update(
            earlier.len() - 1,
            earlier.last().push(piece.last()),
        ));
        assert(rest.push(piece.last()) =~= piece);
        assert(earlier.update(0, rest.push(piece.last())) =~= seq![piece]);
    }
}

proof fn lemma_split_appended_piece(text: Seq<char>, separator: char, piece: Seq<char>)
    requires
        !piece.contains(separator),
    ensures
        split_on(text + seq![separator] + piece, separator) == split_on(text, separator).push(piece),
    decreases piece.len(),
{
    let whole = text + seq![separator] + piece;
    if piece.len() == 0 {
        assert(whole.drop_last() =~= text);
        assert(whole.last() == separator);
        assert(piece =~= Seq::<char>::empty());
    } else {
        let rest = piece.drop_last();
        assert(!rest.contains(separator)) by {
            if rest.contains(separator) {
                let i = choose|i: int| 0 <= i < rest.len() && rest[i] == separator;
                assert(piece[i] == separator);
            }
        }
        assert(piece.last() != separator) by {
            assert(piece[piece.len() - 1] == piece.last());
        }
        lemma_split_appended_piece(text, separator, rest);
        assert(whole.drop_last() =~= text + seq![separator] + rest);
        assert(whole.last() == piece.last());
        assert(rest.push(piece.last()) =~= piece);
        let earlier = split_on(whole.drop_last(), separator);
        assert(earlier == split_on(text, separator).push(rest));
        assert(split_on(whole, separator) == earlier.update(
            earlier.len() - 1,
            earlier.last().push(piece.last()),
        ));
        assert(earlier.update(earlier.len() - 1, earlier.last().push(piece.last())) =~= split_on(
            text,
            separator,
        ).push(piece));
    }
}

/// Whether `text` ends with `suffix`, one character at a time.
proof fn lemma_ends_with_step(text: Seq<char>, suffix: Seq<char>)
    ensures
        ends_with(text, suffix) == (suffix == text || (text.len() > 0 && ends_with(
            text.drop_first(),
            suffix,
        ))),
{
    if suffix.len() == text.len() {
        assert(text.subrange(0, text.len() as int) =~= text);
    } else if suffix.len() < text.len() {
        assert(text.drop_first().subrange(
            text.len() - 1 - suffix.len(),
            text.len() - 1,
        ) =~= text.subrange(text.len() - suffix.len(), text.len() as int));
    }
}

/// A segment pattern `*` followed by a literal matches exactly the segments
/// that end with the literal.
pub proof fn lemma_star_literal_matches_suffix(literal: Seq<char>, candidate: Seq<char>)
    requires
        !literal.contains('*'),
        !literal.contains('?'),
        !literal.contains('['),
    ensures
        glob_chars_match(seq!['*'] + literal, candidate) == ends_with(candidate, literal),
    decreases candidate.len(),
{
    let pattern = seq!['*'] + literal;
    lemma_glob_chars_step(pattern, candidate);
    assert(pattern.drop_first() =~= literal);
    lemma_literal_segment_matches_itself(literal, candidate);
    lemma_ends_with_step(candidate, literal);
    if candidate.len() > 0 {
        lemma_star_literal_matches_suffix(literal, candidate.drop_first());
    }
}

/// A pattern of `**` and one more segment matches the paths whose last
/// segment that segment matches.
pub proof fn lemma_double_star_then_segment(segment: Seq<char>, candidate: Seq<Seq<char>>)
    requires
        segment != "**"@,
    ensures
        glob_segments(seq!["**"@, segment], candidate) == (candidate.len() > 0 && glob_chars_match(
            segment,
            candidate.last(),
        )),
    decreases candidate.len(),
{
    let pattern = seq!["**"@, segment];
    let last = seq![segment];
    assert(pattern[0] == "**"@);
    assert(pattern.drop_first() =~= last);
    assert(last[0] == segment);
    assert(last.drop_first().len() == 0);
    if candidate.len() > 0 {
        assert(glob_segments(last.drop_first(), candidate.drop_first()) == (candidate.len() == 1));
        assert(glob_segments(last, candidate) == (candidate.len() == 1 && glob_chars_match(
            segment,
            candidate[0],
        )));
        lemma_double_star_then_segment(segment, candidate.drop_first());
        if candidate.len() > 1 {
            assert(candidate.drop_first().last() == candidate.last());
        }
    } else {
        assert(glob_segments(last, candidate) == false);
    }
}

proof fn lemma_glob_retained_all(files: Seq<Seq<char>>, pattern: Seq<char>)
    requires
        forall|i: int| 0 <= i < files.len() ==> glob_path_matches(pattern, #[trigger] files[i]),
    ensures
        glob_retained(files, pattern) == files,
    decreases files.len(),
{
    if files.len() > 0 {
        assert(glob_path_matches(pattern, files[files.len() - 1]));
        lemma_glob_retained_all(files.drop_last(), pattern);
        assert(files.drop_last().push(files.last()) =~= files);
    }
}

/// The segments of the glob `directory/**/*.ts`.
proof fn lemma_source_glob_segments(directory: Seq<char>)
    requires
        directory.len() > 0,
        directory != "."@,
        !directory.contains('/'),
    ensures
        pattern_segments(directory + "/**/*.ts"@) == seq![directory, "**"@, "*.ts"@],
{
    reveal_strlit("/**/*.ts");
    reveal_strlit("**");
    reveal_strlit("*.ts");
    reveal_strlit(".");
    let stars = "**"@;
    let names = "*.ts"@;
    assert(!stars.contains('/')) by {
        assert(stars[0] != '/' && stars[1] != '/');
    }
    assert(!names.contains('/')) by {
        assert(names[0] != '/' && names[1] != '/' && names[2] != '/' && names[3] != '/');
    }
    let first = directory + seq!['/'] + stars;
    assert(directory + "/**/*.ts"@ =~= first + seq!['/'] + names);
    lemma_split_without_separator(directory, '/');
    lemma_split_appended_piece(directory, '/', stars);
    lemma_split_appended_piece(first, '/', names);
    let pieces = seq![directory, stars, names];
    assert(split_on(directory + "/**/*.ts"@, '/') =~= pieces);
    assert(pieces.drop_last().drop_last().drop_last().len() == 0);
    assert(pieces.drop_last().drop_last() =~= seq![directory]);
    assert(pieces.drop_last() =~= seq![directory, stars]);
    assert(stars != "."@) by {
        assert(stars.len() != "."@.len());
    }
    assert(names != "."@) by {
        assert(names.len() != "."@.len());
    }
    let single = seq![directory];
    assert(single.drop_last() =~= Seq::<Seq<char>>::empty());
    assert(kept_pieces(single.drop_last()) == Seq::<Seq<char>>::empty());
    assert(single.last() == directory);
    assert(kept_pieces(single) == kept_pieces(single.drop_last()).push(directory));
    assert(kept_pieces(single) =~= single);
    assert(kept_pieces(pieces.drop_last().drop_last()) =~= seq![directory]);
    assert(kept_pieces(pieces.drop_last()) =~= seq![directory, stars]);
    assert(kept_pieces(pieces) =~= pieces);
}

/// Where every TypeScript source of a repository is a `.ts` file under
/// `directory`, the selector `directory` and the glob `directory/**/*.ts`
/// name the same files in the same order: the walk of the directory and the
/// walk of the repository find the same files, perhaps in another order,
/// and no two of them have the same components.
pub proof fn lemma_directory_and_glob_agree(
    in_directory: Seq<Seq<char>>,
    in_repository: Seq<Seq<char>>,
    directory: Seq<char>,
)
    requires
        directory.len() > 0,
        directory != "."@,
        !directory.contains('/'),
        !directory.contains('*'),
        !directory.contains('?'),
        !directory.contains('['),
        in_repository.len() > 0,
        in_directory.to_multiset() == in_repository.to_multiset(),
        forall|i: int|
            0 <= i < in_repository.len() ==> {
                let components = #[trigger] path_components(in_repository[i]);
                &&& components.len() >= 2
                &&& components[0] == directory
                &&& ends_with(components.last(), ".ts"@)
            },
        forall|i: int, j: int|
            0 <= i < in_repository.len() && 0 <= j < in_repository.len() && path_components(
                #[trigger] in_repository[i],
            ) == path_components(#[trigger] in_repository[j]) ==> in_repository[i]
                == in_repository[j],
    ensures
        discovered(in_directory, directory) is Ok,
        discovered(in_directory, directory) == discovered(
            in_repository,
            directory + "/**/*.ts"@,
        ),
{
    broadcast use to_multiset_contains, to_multiset_len;

    reveal_strlit("**");
    reveal_strlit("*.ts");
    reveal_strlit(".ts");
    let glob = directory + "/**/*.ts"@;
    let stars = "**"@;
    let names = "*.ts"@;
    let suffix = ".ts"@;
    lemma_source_glob_segments(directory);
    assert(!glob_pattern(directory));
    assert(glob_pattern(glob)) by {
        reveal_strlit("/**/*.ts");
        assert(glob[directory.len() as int + 1] == '*');
    }
    assert(directory != stars) by {
        assert(stars[0] == '*');
        if directory == stars {
            assert(directory.contains('*'));
        }
    }
    assert(names =~= seq!['*'] + suffix);
    assert(!suffix.contains('*') && !suffix.contains('?') && !suffix.contains('[')) by {
        assert(suffix[0] == '.' && suffix[1] == 't' && suffix[2] == 's');
    }
    assert(names != stars) by {
        assert(names.len() != stars.len());
    }
    assert forall|i: int| 0 <= i < in_repository.len() implies glob_path_matches(
        glob,
        #[trigger] in_repository[i],
    ) by {
        let components = path_components(in_repository[i]);
        let segments = seq![directory, stars, names];
        assert(segments[0] == directory);
        assert(segments.drop_first() =~= seq![stars, names]);
        lemma_literal_segment_matches_itself(directory, components[0]);
        lemma_double_star_then_segment(names, components.drop_first());
        assert(components.drop_first().last() == components.last());
        lemma_star_literal_matches_suffix(suffix, components.last());
    }
    lemma_glob_retained_all(in_repository, glob);
    let sorted_directory = sort_ordered(in_directory, by_path());
    let sorted_repository = sort_ordered(in_repository, by_path());
    lemma_by_path_is_key_order();
    lemma_sort_ordered_is_ordered(in_directory, by_path());
    lemma_sort_ordered_is_ordered(in_repository, by_path());
    lemma_sort_ordered_multiset(in_directory, by_path());
    lemma_sort_ordered_multiset(in_repository, by_path());
    assert(in_directory.len() == in_directory.to_multiset().len());
    assert(in_repository.len() == in_repository.to_multiset().len());
    assert forall|a: Seq<char>, b: Seq<char>|
        sorted_directory.contains(a) && sorted_directory.contains(b) && !by_path()(a, b)
            && !by_path()(b, a) implies a == b by {
        assert(sorted_directory.to_multiset().count(a) > 0);
        assert(sorted_directory.to_multiset().count(b) > 0);
        assert(in_repository.contains(a) && in_repository.contains(b));
        let i = choose|i: int| 0 <= i < in_repository.len() && in_repository[i] == a;
        let j = choose|j: int| 0 <= j < in_repository.len() && in_repository[j] == b;
        lemma_components_less_order(path_components(a), path_components(b), path_components(a));
        assert(path_components(in_repository[i]) == path_components(in_repository[j]));
    }
    lemma_ordered_permutations_equal(sorted_directory, sorted_repository, by_path());
}

} // verus!
