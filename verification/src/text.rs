//! Text helpers: decoding, trimming, splitting, decimal numbers.
use crate::bytes::same_bytes;
use vstd::prelude::*;
use vstd::string::*;
use vstd::utf8::*;

verus! {

/// The characters with the Unicode property `White_Space`.
pub open spec fn is_white_space(c: char) -> bool {
    ||| '\u{9}' <= c <= '\u{d}'
    ||| c == '\u{20}'
    ||| c == '\u{85}'
    ||| c == '\u{a0}'
    ||| c == '\u{1680}'
    ||| '\u{2000}' <= c <= '\u{200a}'
    ||| c == '\u{2028}'
    ||| c == '\u{2029}'
    ||| c == '\u{202f}'
    ||| c == '\u{205f}'
    ||| c == '\u{3000}'
}

/// `text` without the white space at its ends.
pub open spec fn trimmed(text: Seq<char>) -> Seq<char>
    decreases text.len(),
{
    if text.len() > 0 && is_white_space(text[0]) {
        trimmed(text.subrange(1, text.len() as int))
    } else if text.len() > 0 && is_white_space(text.last()) {
        trimmed(text.drop_last())
    } else {
        text
    }
}

/// `text` begins with `prefix`.
pub open spec fn begins_with(text: Seq<char>, prefix: Seq<char>) -> bool {
    prefix.len() <= text.len() && text.subrange(0, prefix.len() as int) == prefix
}

/// The character that separates the fields of a control message.
pub const FIELD_SEPARATOR: char = '|';

/// The fields of `text`: what stands between its separators, the last of at most `limit`
/// fields taking all the rest.
pub open spec fn fields(text: Seq<char>, limit: nat) -> Seq<Seq<char>>
    decreases limit,
{
    match text.index_of_first(FIELD_SEPARATOR) {
        Some(at) if limit > 1 => seq![text.subrange(0, at)] + fields(
            text.subrange(at + 1, text.len() as int),
            (limit - 1) as nat,
        ),
        _ => seq![text],
    }
}

/// Field number `index`, trimmed, or `default` where there is none.
pub open spec fn field_or(
    parts: Seq<Seq<char>>,
    index: int,
    default: Seq<char>,
) -> Seq<char> {
    if index < parts.len() {
        trimmed(parts[index])
    } else {
        default
    }
}

/// `c` is one of the ten decimal digits.
pub open spec fn is_digit(c: char) -> bool {
    '0' <= c <= '9'
}

/// The number that a run of digits stands for.
pub open spec fn digits_value(digits: Seq<char>) -> nat
    decreases digits.len(),
{
    if digits.len() == 0 {
        0
    } else {
        digits_value(digits.drop_last()) * 10 + (digits.last() as u32 - '0' as u32) as nat
    }
}

/// The number not above `max` that `digits` stands for, if it is a run of digits.
pub open spec fn parsed_digits(digits: Seq<char>, max: nat) -> Option<nat> {
    if digits.len() > 0 && (forall|i: int|
        0 <= i < digits.len() ==> is_digit(#[trigger] digits[i])) && digits_value(digits) <= max {
        Some(digits_value(digits))
    } else {
        None
    }
}

/// The number not above `max` that `text` stands for, if it is a run of digits that may
/// have a plus sign before it.
pub open spec fn parsed_unsigned(text: Seq<char>, max: nat) -> Option<nat> {
    if text.len() > 0 && text[0] == '+' {
        parsed_digits(text.subrange(1, text.len() as int), max)
    } else {
        parsed_digits(text, max)
    }
}

/// The decimal digit that stands for `value`.
pub open spec fn digit_char(value: nat) -> char {
    ('0' as u32 + value) as char
}

/// The decimal form of `value`.
pub open spec fn decimal(value: nat) -> Seq<char>
    decreases value,
{
    if value < 10 {
        seq![digit_char(value)]
    } else {
        decimal(value / 10).push(digit_char(value % 10))
    }
}

/// `str::trim`: the text without the white space at its ends.
pub assume_specification[ str::trim ](s: &str) -> (inner: &str)
    ensures
        inner@ == trimmed(s@),
;

/// `String::push`: appends a character.
pub assume_specification[ String::push ](s: &mut String, c: char)
    ensures
        final(s)@ == old(s)@.push(c),
;

/// `core::str::from_utf8`: the text that the bytes encode, where they are valid UTF-8.
#[verifier::external_body]
pub(crate) fn utf8_text(bytes: &[u8]) -> (text: Option<&str>)
    ensures
        text is Some <==> valid_utf8(bytes@),
        text is Some ==> text->0.spec_bytes() == bytes@,
{
    core::str::from_utf8(bytes).ok()
}

/// `str::strip_prefix`: the text after `prefix`, where it begins with it.
#[verifier::external_body]
pub(crate) fn after_prefix<'a>(text: &'a str, prefix: &str) -> (rest: Option<&'a str>)
    ensures
        rest is Some <==> begins_with(text@, prefix@),
        rest is Some ==> rest->0@ == text@.subrange(prefix@.len() as int, text@.len() as int),
{
    text.strip_prefix(prefix)
}

/// `str::split_once`: what stands before and after the first separator, if there is one.
#[verifier::external_body]
pub(crate) fn split_at_separator<'a>(text: &'a str, separator: char) -> (parts: Option<
    (&'a str, &'a str),
>)
    ensures
        parts is None <==> !text@.contains(separator),
        match parts {
            Some((head, tail)) => text@ == head@.push(separator) + tail@ && !head@.contains(
                separator,
            ),
            None => true,
        },
{
    text.split_once(separator)
}

/// The bytes of a text and its characters determine each other.
pub proof fn bytes_determine_text(left: Seq<char>, right: Seq<char>)
    requires
        encode_utf8(left) == encode_utf8(right),
    ensures
        left == right,
{
    encode_utf8_decode_utf8(left);
    encode_utf8_decode_utf8(right);
}

/// The text that valid UTF-8 stands for.
pub proof fn text_of_bytes(text: Seq<char>, bytes: Seq<u8>)
    requires
        encode_utf8(text) == bytes,
    ensures
        text == decode_utf8(bytes),
{
    encode_utf8_decode_utf8(text);
}

/// `text` without the white space at its start.
pub open spec fn trimmed_start(text: Seq<char>) -> Seq<char>
    decreases text.len(),
{
    if text.len() > 0 && is_white_space(text[0]) {
        trimmed_start(text.subrange(1, text.len() as int))
    } else {
        text
    }
}

/// `text` without the white space at its end.
pub open spec fn trimmed_end(text: Seq<char>) -> Seq<char>
    decreases text.len(),
{
    if text.len() > 0 && is_white_space(text.last()) {
        trimmed_end(text.drop_last())
    } else {
        text
    }
}

/// Trimming is trimming at the start and at the end.
pub proof fn lemma_trim_halves(text: Seq<char>)
    ensures
        trimmed(text) == trimmed_end(trimmed_start(text)),
    decreases text.len(),
{
    if text.len() > 0 && is_white_space(text[0]) {
        lemma_trim_halves(text.subrange(1, text.len() as int));
    } else if text.len() > 0 && is_white_space(text.last()) {
        let rest = text.drop_last();
        lemma_trim_halves(rest);
        assert(rest.len() > 0);
        assert(rest[0] == text[0]);
    }
}

/// Trimming at the start goes no further than a character that stays.
pub proof fn lemma_trim_start_stops(head: Seq<char>, mark: char, tail: Seq<char>)
    requires
        !is_white_space(mark),
    ensures
        trimmed_start(head.push(mark) + tail) == trimmed_start(head).push(mark) + tail,
    decreases head.len(),
{
    let text = head.push(mark) + tail;
    if head.len() > 0 && is_white_space(head[0]) {
        let rest = head.subrange(1, head.len() as int);
        lemma_trim_start_stops(rest, mark, tail);
        assert(text.subrange(1, text.len() as int) =~= rest.push(mark) + tail);
    }
}

/// Trimming at the end goes no further than a character that stays.
pub proof fn lemma_trim_end_stops(head: Seq<char>, mark: char, tail: Seq<char>)
    requires
        !is_white_space(mark),
    ensures
        trimmed_end(head.push(mark) + tail) == head.push(mark) + trimmed_end(tail),
    decreases tail.len(),
{
    let text = head.push(mark) + tail;
    if tail.len() > 0 && is_white_space(tail.last()) {
        lemma_trim_end_stops(head, mark, tail.drop_last());
        assert(text.drop_last() =~= head.push(mark) + tail.drop_last());
    } else if tail.len() == 0 {
        assert(text =~= head.push(mark));
        assert(text.last() == mark);
    }
}

proof fn lemma_trim_last(text: Seq<char>)
    requires
        text.len() > 0,
        is_white_space(text.last()),
    ensures
        trimmed(text) == trimmed(text.drop_last()),
    decreases text.len(),
{
    if is_white_space(text[0]) {
        let rest = text.subrange(1, text.len() as int);
        if text.len() == 1 {
            assert(rest =~= text.drop_last());
        } else {
            lemma_trim_last(rest);
            let shorter = text.drop_last();
            assert(rest.drop_last() =~= shorter.subrange(1, shorter.len() as int));
        }
    }
}

/// What is trimmed at the end first is trimmed all the same.
pub proof fn lemma_trim_end_first(text: Seq<char>)
    ensures
        trimmed(trimmed_end(text)) == trimmed(text),
    decreases text.len(),
{
    if text.len() > 0 && is_white_space(text.last()) {
        lemma_trim_end_first(text.drop_last());
        lemma_trim_last(text);
    }
}

/// What was trimmed has nothing left to trim.
pub proof fn lemma_trim_again(text: Seq<char>)
    ensures
        trimmed(trimmed(text)) == trimmed(text),
    decreases text.len(),
{
    if text.len() > 0 && is_white_space(text[0]) {
        lemma_trim_again(text.subrange(1, text.len() as int));
    } else if text.len() > 0 && is_white_space(text.last()) {
        lemma_trim_again(text.drop_last());
    }
}

/// Trimming adds no characters.
pub proof fn lemma_trimmed_within(text: Seq<char>, c: char)
    requires
        trimmed(text).contains(c),
    ensures
        text.contains(c),
    decreases text.len(),
{
    if text.len() > 0 && is_white_space(text[0]) {
        let rest = text.subrange(1, text.len() as int);
        lemma_trimmed_within(rest, c);
        let i = choose|i: int| 0 <= i < rest.len() && rest[i] == c;
        assert(text[i + 1] == c);
    } else if text.len() > 0 && is_white_space(text.last()) {
        let rest = text.drop_last();
        lemma_trimmed_within(rest, c);
        let i = choose|i: int| 0 <= i < rest.len() && rest[i] == c;
        assert(text[i] == c);
    }
}

/// The first field ends at the first separator.
pub proof fn lemma_first_field(head: Seq<char>, tail: Seq<char>, limit: nat)
    requires
        limit > 1,
        !head.contains(FIELD_SEPARATOR),
    ensures
        fields(head.push(FIELD_SEPARATOR) + tail, limit) == seq![head] + fields(
            tail,
            (limit - 1) as nat,
        ),
{
    let text = head.push(FIELD_SEPARATOR) + tail;
    text.index_of_first_ensures(FIELD_SEPARATOR);
    assert(text[head.len() as int] == FIELD_SEPARATOR);
    let at = text.index_of_first(FIELD_SEPARATOR)->0;
    if at < head.len() {
        assert(head[at] == FIELD_SEPARATOR);
        assert(head.contains(FIELD_SEPARATOR));
    }
    assert(text.subrange(0, at) =~= head);
    assert(text.subrange(at + 1, text.len() as int) =~= tail);
}

/// A text with a separator is a first field, the separator and the rest.
pub proof fn lemma_split_first(text: Seq<char>) -> (parts: (Seq<char>, Seq<char>))
    requires
        text.contains(FIELD_SEPARATOR),
    ensures
        !parts.0.contains(FIELD_SEPARATOR),
        text == parts.0.push(FIELD_SEPARATOR) + parts.1,
{
    text.index_of_first_ensures(FIELD_SEPARATOR);
    let at = text.index_of_first(FIELD_SEPARATOR)->0;
    let head = text.subrange(0, at);
    let tail = text.subrange(at + 1, text.len() as int);
    assert forall|i: int| 0 <= i < head.len() implies head[i] != FIELD_SEPARATOR by {
        assert(text[i] == head[i]);
    }
    assert(text =~= head.push(FIELD_SEPARATOR) + tail);
    (head, tail)
}

/// A text without a separator is one field.
pub proof fn lemma_only_field(text: Seq<char>, limit: nat)
    requires
        !text.contains(FIELD_SEPARATOR),
    ensures
        fields(text, limit) == seq![text],
{
    text.index_of_first_ensures(FIELD_SEPARATOR);
}

/// The fields before the last possible one are free of separators.
pub proof fn lemma_fields_are_plain(text: Seq<char>, limit: nat, index: int)
    requires
        0 <= index < fields(text, limit).len(),
        index + 1 < limit,
    ensures
        !fields(text, limit)[index].contains(FIELD_SEPARATOR),
    decreases limit,
{
    if text.contains(FIELD_SEPARATOR) {
        let (head, tail) = lemma_split_first(text);
        lemma_first_field(head, tail, limit);
        if index > 0 {
            lemma_fields_are_plain(tail, (limit - 1) as nat, index - 1);
        }
    } else {
        lemma_only_field(text, limit);
    }
}

/// The bytes of two texts, one behind the other.
pub proof fn lemma_encode_concat(left: Seq<char>, right: Seq<char>)
    ensures
        encode_utf8(left + right) == encode_utf8(left) + encode_utf8(right),
    decreases left.len(),
{
    if left.len() == 0 {
        assert(left + right =~= right);
        assert(encode_utf8(left) + encode_utf8(right) =~= encode_utf8(right));
    } else {
        lemma_encode_concat(left.drop_first(), right);
        assert((left + right).drop_first() =~= left.drop_first() + right);
        assert(encode_utf8(left + right) =~= encode_utf8(left) + encode_utf8(right));
    }
}

/// Whether two texts are the same.
pub fn same_text(left: &str, right: &str) -> (same: bool)
    ensures
        same == (left@ == right@),
{
    let same = same_bytes(left.as_bytes(), right.as_bytes());
    proof {
        if same {
            bytes_determine_text(left@, right@);
        }
    }
    same
}

/// Whether `text` begins with `prefix`.
pub fn text_begins_with(text: &str, prefix: &str) -> (found: bool)
    ensures
        found == begins_with(text@, prefix@),
{
    after_prefix(text, prefix).is_some()
}

/// The characters of `text`.
pub fn characters(text: &str) -> (chars: Vec<char>)
    ensures
        chars@ == text@,
{
    let mut chars: Vec<char> = Vec::new();
    for c in iter: text.chars()
        invariant
            chars@ == iter.seq().take(iter.index()),
            iter.seq() == text@,
    {
        chars.push(c);
        assert(iter.seq().take(iter.index() + 1) =~= iter.seq().take(iter.index()).push(c));
    }
    assert(text@.take(text@.len() as int) =~= text@);
    chars
}

/// The fields of `text`, at most `limit` of them.
pub fn split_fields<'a>(text: &'a str, limit: usize) -> (parts: Vec<&'a str>)
    requires
        limit >= 1,
    ensures
        parts@.len() == fields(text@, limit as nat).len(),
        1 <= parts@.len() <= limit,
        forall|i: int|
            0 <= i < parts@.len() ==> (#[trigger] parts@[i])@ == fields(text@, limit as nat)[i],
{
    let mut parts: Vec<&'a str> = Vec::new();
    let mut rest: &'a str = text;
    let mut left: usize = limit;
    let ghost all = fields(text@, limit as nat);
    while left > 1
        invariant
            1 <= left <= limit,
            parts@.len() + left == limit,
            all == parts@.map_values(|p: &'a str| p@) + fields(rest@, left as nat),
            fields(rest@, left as nat).len() >= 1,
            all == fields(text@, limit as nat),
        decreases left,
    {
        let ghost before = parts@;
        let ghost rest_before = rest@;
        match split_at_separator(rest, FIELD_SEPARATOR) {
            Some((head, tail)) => {
                proof {
                    rest_before.index_of_first_ensures(FIELD_SEPARATOR);
                    let at = rest_before.index_of_first(FIELD_SEPARATOR)->0;
                    assert(rest_before[head@.len() as int] == FIELD_SEPARATOR);
                    if at < head@.len() {
                        assert(head@[at] == FIELD_SEPARATOR);
                        assert(head@.contains(FIELD_SEPARATOR));
                    }
                    assert(at == head@.len());
                    assert(rest_before.subrange(0, at) =~= head@);
                    assert(rest_before.subrange(at + 1, rest_before.len() as int) =~= tail@);
                }
                parts.push(head);
                rest = tail;
                left = left - 1;
                proof {
                    assert(parts@.map_values(|p: &'a str| p@) =~= before.map_values(
                        |p: &'a str| p@,
                    ).push(head@));
                    assert(all =~= parts@.map_values(|p: &'a str| p@) + fields(
                        rest@,
                        left as nat,
                    ));
                    assert(fields(rest@, left as nat).len() >= 1);
                }
            },
            None => {
                proof {
                    rest_before.index_of_first_ensures(FIELD_SEPARATOR);
                }
                parts.push(rest);
                proof {
                    assert(parts@.map_values(|p: &'a str| p@) =~= before.map_values(
                        |p: &'a str| p@,
                    ).push(rest@));
                    assert(all =~= parts@.map_values(|p: &'a str| p@));
                    assert forall|i: int| 0 <= i < parts@.len() implies (#[trigger] parts@[i])@
                        == all[i] by {
                        assert(parts@.map_values(|p: &'a str| p@)[i] == parts@[i]@);
                    }
                }
                return parts;
            },
        }
    }
    let ghost before = parts@;
    parts.push(rest);
    proof {
        assert(fields(rest@, 1) =~= seq![rest@]);
        assert(parts@.map_values(|p: &'a str| p@) =~= before.map_values(|p: &'a str| p@).push(
            rest@,
        ));
        assert(all =~= parts@.map_values(|p: &'a str| p@));
        assert forall|i: int| 0 <= i < parts@.len() implies (#[trigger] parts@[i])@ == all[i] by {
            assert(parts@.map_values(|p: &'a str| p@)[i] == parts@[i]@);
        }
    }
    parts
}

/// Field number `index` of `parts`, trimmed, or `default` where there is none.
pub fn trimmed_field<'a>(parts: &Vec<&'a str>, index: usize, default: &'a str) -> (field: &'a str)
    ensures
        index < parts@.len() ==> field@ == trimmed(parts@[index as int]@),
        index >= parts@.len() ==> field@ == default@,
{
    if index < parts.len() {
        parts[index].trim()
    } else {
        default
    }
}

/// A longer run of digits stands for no smaller a number.
proof fn lemma_digits_grow(digits: Seq<char>, upto: int)
    requires
        0 <= upto <= digits.len(),
        forall|i: int| 0 <= i < digits.len() ==> is_digit(#[trigger] digits[i]),
    ensures
        digits_value(digits.subrange(0, upto)) <= digits_value(digits),
    decreases digits.len() - upto,
{
    if upto == digits.len() {
        assert(digits.subrange(0, upto) =~= digits);
    } else {
        lemma_digits_grow(digits, upto + 1);
        assert(digits.subrange(0, upto + 1).drop_last() =~= digits.subrange(0, upto));
    }
}

/// Reads the characters from position `start` on as a decimal number not above `max`.
fn parse_digits(chars: &Vec<char>, start: usize, max: u64) -> (value: Option<u64>)
    requires
        start <= chars@.len(),
    ensures
        match value {
            Some(v) => parsed_digits(
                chars@.subrange(start as int, chars@.len() as int),
                max as nat,
            ) == Some(v as nat),
            None => parsed_digits(
                chars@.subrange(start as int, chars@.len() as int),
                max as nat,
            ) is None,
        },
{
    let ghost digits = chars@.subrange(start as int, chars@.len() as int);
    if start == chars.len() {
        return None;
    }
    let mut i: usize = start;
    while i < chars.len()
        invariant
            start <= i <= chars@.len(),
            digits == chars@.subrange(start as int, chars@.len() as int),
            forall|j: int| 0 <= j < i - start ==> is_digit(#[trigger] digits[j]),
        decreases chars.len() - i,
    {
        let c: char = chars[i];
        if c < '0' || c > '9' {
            assert(!is_digit(digits[i - start]));
            return None;
        }
        i += 1;
    }
    let mut value: u64 = 0;
    i = start;
    while i < chars.len()
        invariant
            start <= i <= chars@.len(),
            digits == chars@.subrange(start as int, chars@.len() as int),
            forall|j: int| 0 <= j < digits.len() ==> is_digit(#[trigger] digits[j]),
            value == digits_value(digits.subrange(0, i - start)),
            value <= max,
        decreases chars.len() - i,
    {
        assert(is_digit(digits[i - start]));
        let digit: u64 = chars[i] as u64 - '0' as u64;
        assert(digits.subrange(0, i - start + 1).drop_last() =~= digits.subrange(0, i - start));
        proof {
            lemma_digits_grow(digits, i - start + 1);
        }
        if value > (u64::MAX - digit) / 10 {
            return None;
        }
        value = value * 10 + digit;
        if value > max {
            return None;
        }
        i += 1;
    }
    assert(digits.subrange(0, i - start) =~= digits);
    Some(value)
}

/// The number that a run of decimal digits stands for. Signs, spaces and numbers beyond
/// 64 bits are refused.
pub fn parse_generation_id(value: &str) -> (generation: Option<u64>)
    ensures
        match generation {
            Some(v) => parsed_digits(value@, u64::MAX as nat) == Some(v as nat),
            None => parsed_digits(value@, u64::MAX as nat) is None,
        },
{
    let chars = characters(value);
    assert(chars@.subrange(0, chars@.len() as int) =~= value@);
    parse_digits(&chars, 0, u64::MAX)
}

/// The 16-bit number that a run of decimal digits, which a plus sign may precede, stands
/// for.
pub fn parse_u16(value: &str) -> (number: Option<u16>)
    ensures
        match number {
            Some(v) => parsed_unsigned(value@, u16::MAX as nat) == Some(v as nat),
            None => parsed_unsigned(value@, u16::MAX as nat) is None,
        },
{
    match parse_unsigned(value, u16::MAX as u64) {
        Some(v) => Some(v as u16),
        None => None,
    }
}

/// The number not above `max` that a run of decimal digits, which a plus sign may precede,
/// stands for.
pub fn parse_unsigned(value: &str, max: u64) -> (number: Option<u64>)
    ensures
        match number {
            Some(v) => parsed_unsigned(value@, max as nat) == Some(v as nat) && v <= max,
            None => parsed_unsigned(value@, max as nat) is None,
        },
{
    let chars = characters(value);
    assert(chars@.subrange(0, chars@.len() as int) =~= value@);
    if chars.len() > 0 && chars[0] == '+' {
        parse_digits(&chars, 1, max)
    } else {
        parse_digits(&chars, 0, max)
    }
}

/// Appends the decimal form of `value` to `out`.
pub fn push_decimal(out: &mut String, value: u64)
    ensures
        final(out)@ == old(out)@ + decimal(value as nat),
    decreases value,
{
    let ghost before = out@;
    if value >= 10 {
        push_decimal(out, value / 10);
    }
    out.push((48 + (value % 10) as u8) as char);
    assert(out@ =~= before + decimal(value as nat));
}

/// The decimal form of `value`.
pub fn decimal_text(value: u64) -> (text: String)
    ensures
        text@ == decimal(value as nat),
{
    let mut text = String::new();
    push_decimal(&mut text, value);
    assert(text@ =~= decimal(value as nat));
    text
}

} // verus!
