//! The address of a backend as it is written: a host, and after a colon a
//! port, which is 80 where none is written.

use vstd::prelude::*;
use vstd::string::*;

verus! {

/// The place of the first colon of `text` at or after `from`, or the length
/// of `text` where there is none.
pub open spec fn field_end(text: Seq<char>, from: int) -> int
    decreases text.len() - from,
{
    if from >= text.len() {
        text.len() as int
    } else if text[from] == ':' {
        from
    } else {
        field_end(text, from + 1)
    }
}

/// Whether `c` is a decimal digit.
pub open spec fn is_digit(c: char) -> bool {
    '0' <= c <= '9'
}

/// The number that the decimal digits `digits` write.
pub open spec fn decimal(digits: Seq<char>) -> nat
    decreases digits.len(),
{
    if digits.len() == 0 {
        0
    } else {
        decimal(digits.drop_last()) * 10 + (digits.last() as nat - '0' as nat) as nat
    }
}

/// `text` without the plus sign that it may begin with.
pub open spec fn unsigned(text: Seq<char>) -> Seq<char> {
    if text.len() > 0 && text[0] == '+' {
        text.skip(1)
    } else {
        text
    }
}

/// Whether `text` is made of decimal digits.
pub open spec fn all_digits(text: Seq<char>) -> bool {
    forall|i: int| 0 <= i < text.len() ==> is_digit(#[trigger] text[i])
}

/// The port that `text` writes: decimal digits, after a plus sign or none,
/// which write a number of 16 bits.
pub open spec fn port_number(text: Seq<char>) -> Option<u16> {
    let digits = unsigned(text);
    if digits.len() > 0 && all_digits(digits) && decimal(digits) <= u16::MAX {
        Some(decimal(digits) as u16)
    } else {
        None
    }
}

/// The host and the port that `text` writes. The host is what stands before
/// the first colon. The port is what stands between the first colon and the
/// second, or the end; without a colon it is 80.
pub open spec fn authority(text: Seq<char>) -> Option<(Seq<char>, u16)> {
    let host_end = field_end(text, 0);
    let host = text.subrange(0, host_end);
    if host_end == text.len() {
        Some((host, 80u16))
    } else {
        match port_number(text.subrange(host_end + 1, field_end(text, host_end + 1))) {
            Some(port) => Some((host, port)),
            None => None,
        }
    }
}

/// The number that digits write is no smaller than what their first digits
/// write.
proof fn lemma_decimal_grows(digits: Seq<char>, count: int)
    requires
        0 <= count <= digits.len(),
        all_digits(digits),
    ensures
        decimal(digits.take(count)) <= decimal(digits),
    decreases digits.len() - count,
{
    if count == digits.len() {
        assert(digits.take(count) =~= digits);
    } else {
        lemma_decimal_grows(digits, count + 1);
        assert(digits.take(count + 1).drop_last() =~= digits.take(count));
        assert(is_digit(digits[count]));
    }
}

/// Finds the end of the field of `text` that starts at `from`.
fn find_field_end(text: &str, from: usize, len: usize) -> (end: usize)
    requires
        from <= len == text@.len(),
    ensures
        end == field_end(text@, from as int),
        from <= end <= len,
{
    let mut i: usize = from;
    while i < len
        invariant
            from <= i <= len == text@.len(),
            field_end(text@, from as int) == field_end(text@, i as int),
        decreases len - i,
    {
        if text.get_char(i) == ':' {
            return i;
        }
        i += 1;
    }
    i
}

/// Reads the port written in the characters of `text` from `from` to `to`.
fn parse_port(text: &str, from: usize, to: usize) -> (port: Option<u16>)
    requires
        from <= to <= text@.len(),
    ensures
        port == port_number(text@.subrange(from as int, to as int)),
{
    let ghost written = text@.subrange(from as int, to as int);
    let mut i: usize = from;
    if i < to && text.get_char(i) == '+' {
        assert(written[0] == '+');
        i += 1;
    } else if i < to {
        assert(written[0] == text@[from as int]);
    }
    let start = i;
    let ghost digits = text@.subrange(start as int, to as int);
    assert(digits =~= unsigned(written));
    if i == to {
        return None;
    }
    let mut value: u32 = 0;
    assert(digits.take(0) =~= Seq::<char>::empty());
    while i < to
        invariant
            start <= i <= to <= text@.len(),
            digits == text@.subrange(start as int, to as int),
            written == text@.subrange(from as int, to as int),
            digits == unsigned(written),
            forall|j: int| 0 <= j < i - start ==> is_digit(#[trigger] digits[j]),
            value == decimal(digits.take(i - start)),
            value <= u16::MAX,
        decreases to - i,
    {
        let c = text.get_char(i);
        assert(c == digits[i - start]);
        if c < '0' || c > '9' {
            assert(!is_digit(digits[i - start]));
            return None;
        }
        let digit: u32 = c as u32 - '0' as u32;
        proof {
            assert(digits.take(i - start + 1).drop_last() =~= digits.take(i - start));
            assert(digits.take(i - start + 1).last() == c);
        }
        value = value * 10 + digit;
        i += 1;
        if value > 65535 {
            proof {
                if all_digits(digits) {
                    lemma_decimal_grows(digits, i - start);
                }
            }
            return None;
        }
    }
    assert(digits.take(i - start) =~= digits);
    Some(value as u16)
}

/// Reads the host and the port that `text` writes.
pub fn parse_authority(text: &str) -> (parsed: Option<(String, u16)>)
    ensures
        match parsed {
            Some(found) => authority(text@) == Some((found.0@, found.1)),
            None => authority(text@) is None,
        },
{
    let len = text.unicode_len();
    let host_end = find_field_end(text, 0, len);
    let host = text.substring_char(0, host_end).to_owned();
    if host_end == len {
        Some((host, 80))
    } else {
        let port_end = find_field_end(text, host_end + 1, len);
        match parse_port(text, host_end + 1, port_end) {
            Some(port) => Some((host, port)),
            None => None,
        }
    }
}

} // verus!
