//! Character-level helpers shared by the engine, the options parser and the
//! report writers: equality, splitting, joining and decimal or hexadecimal
//! renderings of integers, each with a specification over `Seq<char>`.

use vstd::prelude::*;

verus! {

/// Appends one character to a string (`String::push`).
#[verifier::external_body]
pub fn push_char(text: &mut String, character: char)
    ensures
        final(text)@ == old(text)@.push(character),
{
    text.push(character);
}

/// Whether two strings hold the same characters.
pub fn text_equals(left: &str, right: &str) -> (equal: bool)
    ensures
        equal == (left@ == right@),
{
    let length = left.unicode_len();
    if length != right.unicode_len() {
        return false;
    }
    let mut index: usize = 0;
    while index < length
        invariant
            length == left@.len(),
            length == right@.len(),
            index <= length,
            forall|j: int| 0 <= j < index ==> left@[j] == right@[j],
        decreases length - index,
    {
        if left.get_char(index) != right.get_char(index) {
            return false;
        }
        index += 1;
    }
    assert(left@ =~= right@);
    true
}

/// A copy of a string slice as an owned string.
pub fn owned(text: &str) -> (copy: String)
    ensures
        copy@ == text@,
{
    String::from_str(text)
}

/// The concatenation of two strings.
pub fn joined2(first: &str, second: &str) -> (text: String)
    ensures
        text@ == first@ + second@,
{
    let mut text = String::from_str(first);
    text.append(second);
    text
}

/// The concatenation of three strings.
pub fn joined3(first: &str, second: &str, third: &str) -> (text: String)
    ensures
        text@ == first@ + second@ + third@,
{
    let mut text = String::from_str(first);
    text.append(second);
    text.append(third);
    text
}

/// Whether `character` is an ASCII decimal digit.
pub open spec fn is_digit(character: char) -> bool {
    '0' <= character && character <= '9'
}

/// The value of an ASCII decimal digit.
pub open spec fn digit_value(character: char) -> nat {
    (character as nat - '0' as nat) as nat
}

/// The ASCII digit that stands for `digit` (below ten).
pub open spec fn digit_char(digit: nat) -> char {
    (digit + 48) as char
}

/// The shortest decimal rendering of a natural number, as `Display` writes it.
pub open spec fn decimal(value: nat) -> Seq<char>
    decreases value,
{
    if value < 10 {
        seq![digit_char(value)]
    } else {
        decimal(value / 10).push(digit_char(value % 10))
    }
}

/// The value of a string of ASCII digits, read in base ten.
pub open spec fn digits_value(digits: Seq<char>) -> nat
    decreases digits.len(),
{
    if digits.len() == 0 {
        0
    } else {
        digits_value(digits.drop_last()) * 10 + digit_value(digits.last())
    }
}

/// Every character of `text` is an ASCII decimal digit.
pub open spec fn all_digits(text: Seq<char>) -> bool {
    forall|i: int| 0 <= i < text.len() ==> is_digit(#[trigger] text[i])
}

fn digit_of(value: u64) -> (character: char)
    requires
        value < 10,
    ensures
        character == digit_char(value as nat),
{
    let byte: u8 = value as u8 + 48;
    byte as char
}

/// Renders `value` in decimal, as `Display` does for unsigned integers.
pub fn decimal_text(value: u64) -> (text: String)
    ensures
        text@ == decimal(value as nat),
    decreases value,
{
    if value < 10 {
        let mut text = String::new();
        push_char(&mut text, digit_of(value));
        text
    } else {
        let mut text = decimal_text(value / 10);
        push_char(&mut text, digit_of(value % 10));
        text
    }
}

/// The lowercase hexadecimal digit that stands for `digit` (below sixteen).
pub open spec fn hex_digit_char(digit: nat) -> char {
    if digit < 10 {
        digit_char(digit)
    } else {
        (digit - 10 + 97) as char
    }
}

/// The lowest `width` hexadecimal digits of `value`, most significant first,
/// padded with zeros: what `{:0width$x}` writes for a value below `16^width`.
pub open spec fn hex_digits(value: nat, width: nat) -> Seq<char>
    decreases width,
{
    if width == 0 {
        seq![]
    } else {
        hex_digits(value / 16, (width - 1) as nat).push(hex_digit_char(value % 16))
    }
}

fn hex_digit_of(value: u64) -> (character: char)
    requires
        value < 16,
    ensures
        character == hex_digit_char(value as nat),
{
    if value < 10 {
        let byte: u8 = value as u8 + 48;
        byte as char
    } else {
        let byte: u8 = value as u8 - 10 + 97;
        byte as char
    }
}

/// The lowest `width` hexadecimal digits of `value`, zero padded.
pub fn hex_text(value: u64, width: usize) -> (text: String)
    ensures
        text@ == hex_digits(value as nat, width as nat),
    decreases width,
{
    if width == 0 {
        String::new()
    } else {
        let mut text = hex_text(value / 16, width - 1);
        push_char(&mut text, hex_digit_of(value % 16));
        text
    }
}

/// Why a text is not a decimal number within a bound.
pub enum NumberError {
    /// The text is empty, or holds a character that is not a digit.
    Invalid,
    /// The digits stand for a value above the bound.
    TooLarge,
}

/// What the standard library's `from_str` of an unsigned integer type whose
/// largest value is `limit` accepts: an optional `+`, then one or more ASCII
/// digits whose value is at most `limit`.
pub open spec fn unsigned_number(text: Seq<char>, limit: nat) -> Option<nat> {
    let digits = if text.len() > 0 && text[0] == '+' {
        text.drop_first()
    } else {
        text
    };
    if digits.len() > 0 && all_digits(digits) && digits_value(digits) <= limit {
        Some(digits_value(digits))
    } else {
        None
    }
}

proof fn lemma_digits_value_grows(digits: Seq<char>, i: int)
    requires
        0 <= i <= digits.len(),
        all_digits(digits),
    ensures
        digits_value(digits.take(i)) <= digits_value(digits),
    decreases digits.len() - i,
{
    if i < digits.len() {
        lemma_digits_value_grows(digits, i + 1);
        assert(digits.take(i + 1).drop_last() =~= digits.take(i));
    } else {
        assert(digits.take(i) =~= digits);
    }
}

/// Reads an unsigned decimal number of at most `limit`, accepting what the
/// standard library's `from_str` for unsigned integers accepts.
pub fn parse_unsigned(text: &str, limit: u64) -> (value: Option<u64>)
    ensures
        match value {
            Some(v) => unsigned_number(text@, limit as nat) == Some(v as nat),
            None => unsigned_number(text@, limit as nat) is None,
        },
{
    let length = text.unicode_len();
    let mut index: usize = 0;
    if length > 0 && text.get_char(0) == '+' {
        index = 1;
    }
    let start = index;
    let ghost digits = if text@.len() > 0 && text@[0] == '+' {
        text@.drop_first()
    } else {
        text@
    };
    assert(digits =~= text@.subrange(start as int, length as int));
    if start == length {
        return None;
    }
    let mut value: u64 = 0;
    while index < length
        invariant
            length == text@.len(),
            start <= index <= length,
            digits =~= text@.subrange(start as int, length as int),
            digits == (if text@.len() > 0 && text@[0] == '+' {
                text@.drop_first()
            } else {
                text@
            }),
            all_digits(digits.take(index - start)),
            value as nat == digits_value(digits.take(index - start)),
            value <= limit,
        decreases length - index,
    {
        let character = text.get_char(index);
        if !('0' <= character && character <= '9') {
            proof {
                assert(digits[index - start] == character);
                assert(!is_digit(digits[index - start]));
                assert(!all_digits(digits));
            }
            return None;
        }
        let digit: u64 = character as u64 - 48;
        proof {
            assert(digits.take(index - start + 1).drop_last() =~= digits.take(index - start));
            assert(digits.take(index - start + 1).last() == character);
        }
        if value > limit / 10 || digit > limit - value * 10 {
            proof {
                assert(value * 10 + digit > limit) by (nonlinear_arith)
                    requires
                        value > limit / 10 || digit > limit - value * 10,
                        value <= limit,
                ;
                assert(digits_value(digits.take(index - start + 1)) == value * 10 + digit);
                if all_digits(digits) {
                    lemma_digits_value_grows(digits, index - start + 1);
                }
                assert(unsigned_number(text@, limit as nat) is None);
            }
            return None;
        }
        value = value * 10 + digit;
        index += 1;
        proof {
            assert forall|i: int| 0 <= i < index - start implies is_digit(
                #[trigger] digits.take(index - start)[i],
            ) by {
                if i < index - start - 1 {
                    assert(digits.take(index - start)[i] == digits.take(index - start - 1)[i]);
                }
            }
        }
    }
    assert(digits.take(index - start) =~= digits);
    Some(value)
}

/// The pieces of `text` between occurrences of `separator`, as
/// `str::split` gives them: one more piece than there are separators.
pub open spec fn split_on(text: Seq<char>, separator: char) -> Seq<Seq<char>>
    decreases text.len(),
{
    if text.len() == 0 {
        seq![seq![]]
    } else {
        let earlier = split_on(text.drop_last(), separator);
        if text.last() == separator {
            earlier.push(seq![])
        } else {
            earlier.update(earlier.len() - 1, earlier.last().push(text.last()))
        }
    }
}

proof fn lemma_split_on_nonempty(text: Seq<char>, separator: char)
    ensures
        split_on(text, separator).len() > 0,
    decreases text.len(),
{
    if text.len() > 0 {
        lemma_split_on_nonempty(text.drop_last(), separator);
    }
}

/// The pieces of `text` between occurrences of `separator`.
pub fn split_text(text: &str, separator: char) -> (pieces: Vec<String>)
    ensures
        pieces.deep_view() == split_on(text@, separator),
{
    let length = text.unicode_len();
    let mut pieces: Vec<String> = Vec::new();
    pieces.push(String::new());
    let mut index: usize = 0;
    proof {
        assert(text@.take(0) =~= Seq::<char>::empty());
        assert(pieces.deep_view() =~= seq![Seq::<char>::empty()]);
    }
    while index < length
        invariant
            length == text@.len(),
            index <= length,
            pieces.deep_view() == split_on(text@.take(index as int), separator),
            pieces.len() > 0,
        decreases length - index,
    {
        let character = text.get_char(index);
        let ghost before = pieces.deep_view();
        proof {
            assert(text@.take(index + 1).drop_last() =~= text@.take(index as int));
            assert(text@.take(index + 1).last() == character);
        }
        if character == separator {
            pieces.push(String::new());
            assert(pieces.deep_view() =~= before.push(Seq::<char>::empty()));
        } else {
            let last = pieces.len() - 1;
            let mut piece = pieces[last].clone();
            push_char(&mut piece, character);
            pieces.set(last, piece);
            assert(pieces.deep_view() =~= before.update(
                before.len() - 1,
                before.last().push(character),
            ));
        }
        index += 1;
    }
    assert(text@.take(length as int) =~= text@);
    pieces
}

/// Whether `character` occurs in `text`.
pub fn contains_char(text: &str, character: char) -> (found: bool)
    ensures
        found == text@.contains(character),
{
    let length = text.unicode_len();
    let mut index: usize = 0;
    while index < length
        invariant
            length == text@.len(),
            index <= length,
            forall|j: int| 0 <= j < index ==> text@[j] != character,
        decreases length - index,
    {
        if text.get_char(index) == character {
            return true;
        }
        index += 1;
    }
    false
}

/// The index of the first occurrence of `character` in `text`.
#[verifier::opaque]
pub open spec fn first_index_of(text: Seq<char>, character: char) -> Option<int> {
    if text.contains(character) {
        Some(
            choose|index: int|
                0 <= index < text.len() && text[index] == character && forall|j: int|
                    0 <= j < index ==> text[j] != character,
        )
    } else {
        None
    }
}

/// The index of the first occurrence of `character` in `text`.
pub fn find_char(text: &str, character: char) -> (found: Option<usize>)
    ensures
        match found {
            Some(index) => first_index_of(text@, character) == Some(index as int) && index
                < text@.len(),
            None => first_index_of(text@, character) is None,
        },
{
    reveal(first_index_of);
    let length = text.unicode_len();
    let mut index: usize = 0;
    while index < length
        invariant
            length == text@.len(),
            index <= length,
            forall|j: int| 0 <= j < index ==> text@[j] != character,
        decreases length - index,
    {
        if text.get_char(index) == character {
            proof {
                reveal(first_index_of);
                assert(text@.contains(character));
                let chosen = choose|i: int|
                    0 <= i < text@.len() && text@[i] == character && forall|j: int|
                        0 <= j < i ==> text@[j] != character;
                assert(0 <= chosen < text@.len() && text@[chosen] == character && forall|j: int|
                    0 <= j < chosen ==> text@[j] != character);
                if chosen < index {
                } else if chosen > index {
                    assert(text@[index as int] != character);
                }
            }
            return Some(index);
        }
        index += 1;
    }
    None
}

/// Whether every character of `text` is an ASCII digit.
pub fn is_all_digits(text: &str) -> (digits: bool)
    ensures
        digits == all_digits(text@),
{
    let length = text.unicode_len();
    let mut index: usize = 0;
    while index < length
        invariant
            length == text@.len(),
            index <= length,
            forall|j: int| 0 <= j < index ==> is_digit(#[trigger] text@[j]),
        decreases length - index,
    {
        let character = text.get_char(index);
        if !('0' <= character && character <= '9') {
            proof {
                assert(!is_digit(text@[index as int]));
            }
            return false;
        }
        index += 1;
    }
    true
}

/// The characters of `text` from `start` to `end`.
pub fn slice_chars(text: &str, start: usize, end: usize) -> (piece: String)
    requires
        start <= end <= text@.len(),
    ensures
        piece@ == text@.subrange(start as int, end as int),
{
    owned(text.substring_char(start, end))
}

} // verus!
