//! Reading text files byte by byte: lines, whitespace-separated fields and
//! decimal numbers.

use vstd::prelude::*;
use vstd::slice::slice_subrange;

verus! {

/// Whether `byte` is ASCII whitespace: a space, a tab, a line feed, a form
/// feed or a carriage return.
pub open spec fn is_space(byte: u8) -> bool {
    byte == 0x20 || byte == 0x09 || byte == 0x0a || byte == 0x0c || byte == 0x0d
}

/// Whether `byte` is an ASCII decimal digit.
pub open spec fn is_digit(byte: u8) -> bool {
    0x30 <= byte <= 0x39
}

/// The first position from `start` on that holds no whitespace, or the
/// length of `text` if there is none.
pub open spec fn skip_spaces(text: Seq<u8>, start: int) -> int
    decreases text.len() - start,
{
    if 0 <= start < text.len() && is_space(text[start]) {
        skip_spaces(text, start + 1)
    } else {
        start
    }
}

/// The first position from `start` on that holds whitespace, or the length
/// of `text` if there is none.
pub open spec fn field_end(text: Seq<u8>, start: int) -> int
    decreases text.len() - start,
{
    if 0 <= start < text.len() && !is_space(text[start]) {
        field_end(text, start + 1)
    } else {
        start
    }
}

/// The position of the first line feed from `start` on, or the length of
/// `text` if there is none.
pub open spec fn line_end(text: Seq<u8>, start: int) -> int
    decreases text.len() - start,
{
    if 0 <= start < text.len() && text[start] != 0x0a {
        line_end(text, start + 1)
    } else {
        start
    }
}

/// The position where line `n` of `text` starts, counting from 0. Every
/// line feed ends a line, and the next one starts right after it.
pub open spec fn line_start(text: Seq<u8>, n: nat) -> int
    decreases n,
{
    if n == 0 {
        0
    } else {
        line_end(text, line_start(text, (n - 1) as nat)) + 1
    }
}

/// Whether `text` has a line `n`: whether that line starts before the end
/// of the text. A line feed at the very end starts no further line.
pub open spec fn has_line(text: Seq<u8>, n: nat) -> bool {
    line_start(text, n) < text.len()
}

/// The line of `text` that starts at `start`, without its line ending: a
/// line feed, or a carriage return and a line feed. A carriage return that
/// no line feed follows belongs to the line.
pub open spec fn line_from(text: Seq<u8>, start: int) -> Seq<u8> {
    let end = line_end(text, start);
    if end < text.len() && start < end && text[end - 1] == 0x0d {
        text.subrange(start, end - 1)
    } else {
        text.subrange(start, end)
    }
}

/// Line `n` of `text`, counting from 0.
pub open spec fn line(text: Seq<u8>, n: nat) -> Seq<u8> {
    line_from(text, line_start(text, n))
}

/// The number that the decimal digits `digits` write.
pub open spec fn digits_value(digits: Seq<u8>) -> int
    decreases digits.len(),
{
    if digits.len() == 0 {
        0
    } else {
        10 * digits_value(digits.drop_last()) + (digits.last() - 0x30)
    }
}

/// Whether every byte of `text` is a decimal digit.
pub open spec fn all_digits(text: Seq<u8>) -> bool {
    forall|i: int| 0 <= i < text.len() ==> is_digit(#[trigger] text[i])
}

/// `text` without the plus sign that may lead a number.
pub open spec fn unsigned_part(text: Seq<u8>) -> Seq<u8> {
    if text.len() > 0 && text[0] == 0x2b {
        text.subrange(1, text.len() as int)
    } else {
        text
    }
}

/// The number that `text` writes, if it writes one that is at most `max`:
/// one or more decimal digits, which a single plus sign may precede.
/// Leading zeros are allowed.
pub open spec fn number(text: Seq<u8>, max: int) -> Option<int> {
    let digits = unsigned_part(text);
    if digits.len() > 0 && all_digits(digits) && digits_value(digits) <= max {
        Some(digits_value(digits))
    } else {
        None
    }
}

/// The digits read so far never write more than all of them do.
proof fn lemma_value_grows(digits: Seq<u8>, n: int)
    requires
        all_digits(digits),
        0 <= n <= digits.len(),
    ensures
        0 <= digits_value(digits.take(n)) <= digits_value(digits),
    decreases digits.len() - n,
{
    if n == digits.len() {
        assert(digits.take(n) =~= digits);
        lemma_value_nonnegative(digits);
    } else {
        lemma_value_grows(digits, n + 1);
        let longer = digits.take(n + 1);
        assert(longer.drop_last() =~= digits.take(n));
        lemma_value_nonnegative(digits.take(n));
    }
}

/// Digits write no negative number.
proof fn lemma_value_nonnegative(digits: Seq<u8>)
    requires
        all_digits(digits),
    ensures
        0 <= digits_value(digits),
    decreases digits.len(),
{
    if digits.len() > 0 {
        lemma_value_nonnegative(digits.drop_last());
    }
}

/// Reads the number that `text` writes, if it writes one that is at most
/// `max`.
pub fn parse_number(text: &[u8], max: u32) -> (value: Option<u32>)
    ensures
        match value {
            Some(v) => number(text@, max as int) == Some(v as int),
            None => number(text@, max as int) is None,
        },
{
    let length: usize = text.len();
    let first: usize = if length > 0 && text[0] == 0x2b {
        1
    } else {
        0
    };
    let ghost digits = unsigned_part(text@);
    if first == length {
        return None;
    }
    let mut value: u64 = 0;
    let mut index: usize = first;
    while index < length
        invariant
            first <= index <= length,
            length == text@.len(),
            digits == text@.subrange(first as int, length as int),
            digits == unsigned_part(text@),
            all_digits(digits.take(index - first)),
            value == digits_value(digits.take(index - first)),
            value <= max,
        decreases length - index,
    {
        let byte: u8 = text[index];
        let ghost seen = digits.take(index - first);
        let ghost longer = digits.take(index - first + 1);
        assert(longer.drop_last() =~= seen);
        if byte < 0x30 || byte > 0x39 {
            assert(!is_digit(digits[index - first]));
            return None;
        }
        let next: u64 = 10 * value + (byte - 0x30) as u64;
        if next > max as u64 {
            proof {
                if all_digits(digits) {
                    lemma_value_grows(digits, index - first + 1);
                }
            }
            return None;
        }
        value = next;
        index += 1;
    }
    assert(digits.take(index - first) =~= digits);
    Some(value as u32)
}

/// Finds the first position from `start` on that holds no whitespace.
pub fn find_field_start(text: &[u8], start: usize) -> (position: usize)
    requires
        start <= text@.len(),
    ensures
        position == skip_spaces(text@, start as int),
        start <= position <= text@.len(),
{
    let mut position: usize = start;
    while position < text.len() && is_space_byte(text[position])
        invariant
            start <= position <= text@.len(),
            skip_spaces(text@, start as int) == skip_spaces(text@, position as int),
        decreases text@.len() - position,
    {
        position += 1;
    }
    position
}

/// Finds the first position from `start` on that holds whitespace.
pub fn find_field_end(text: &[u8], start: usize) -> (position: usize)
    requires
        start <= text@.len(),
    ensures
        position == field_end(text@, start as int),
        start <= position <= text@.len(),
{
    let mut position: usize = start;
    while position < text.len() && !is_space_byte(text[position])
        invariant
            start <= position <= text@.len(),
            field_end(text@, start as int) == field_end(text@, position as int),
        decreases text@.len() - position,
    {
        position += 1;
    }
    position
}

/// Finds the first line feed from `start` on.
pub fn find_line_end(text: &[u8], start: usize) -> (position: usize)
    requires
        start <= text@.len(),
    ensures
        position == line_end(text@, start as int),
        start <= position <= text@.len(),
{
    let mut position: usize = start;
    while position < text.len() && text[position] != 0x0a
        invariant
            start <= position <= text@.len(),
            line_end(text@, start as int) == line_end(text@, position as int),
        decreases text@.len() - position,
    {
        position += 1;
    }
    position
}

/// Tests whether `byte` is ASCII whitespace.
pub fn is_space_byte(byte: u8) -> (space: bool)
    ensures
        space == is_space(byte),
{
    byte == 0x20 || byte == 0x09 || byte == 0x0a || byte == 0x0c || byte == 0x0d
}

/// Reads the line that starts at `start`: returns it without its line
/// ending, and the position where the next line starts, or the length of
/// `text` if no line follows.
pub fn read_line(text: &[u8], start: usize) -> (found: (&[u8], usize))
    requires
        start < text@.len(),
    ensures
        found.0@ == line_from(text@, start as int),
        found.1 == if line_end(text@, start as int) < text@.len() {
            line_end(text@, start as int) + 1
        } else {
            text@.len() as int
        },
{
    let end: usize = find_line_end(text, start);
    let stop: usize = if end < text.len() && start < end && text[end - 1] == 0x0d {
        end - 1
    } else {
        end
    };
    let next: usize = if end < text.len() {
        end + 1
    } else {
        end
    };
    (slice_subrange(text, start, stop), next)
}

} // verus!
