//! The mathematical model of digit sequences and of the Luhn checksum.
use vstd::prelude::*;

verus! {

/// Every element of `s` is a decimal digit.
pub open spec fn all_digits(s: Seq<u8>) -> bool {
    forall|i: int| 0 <= i < s.len() ==> s[i] <= 9
}

/// A digit doubled, with the digits of the product summed.
pub open spec fn doubled(d: u8) -> int {
    if 2 * d > 9 {
        2 * d - 9
    } else {
        2 * d
    }
}

/// What the digit `d` adds to the checksum sum.
pub open spec fn contribution(d: u8, double: bool) -> int {
    if double {
        doubled(d)
    } else {
        d as int
    }
}

/// The alternating sum of `s`, read from its last element towards its first;
/// `double` says whether the last element is doubled.
pub open spec fn weighted_sum(s: Seq<u8>, double: bool) -> int
    decreases s.len(),
{
    if s.len() == 0 {
        0
    } else {
        contribution(s.last(), double) + weighted_sum(s.drop_last(), !double)
    }
}

/// The digit that, appended to `body`, makes the whole sequence pass the
/// checksum: the last element of `body` is doubled first.
pub open spec fn check_digit(body: Seq<u8>) -> int {
    let r = weighted_sum(body, true) % 10;
    if r == 0 {
        0
    } else {
        10 - r
    }
}

/// A digit sequence passes the checksum: it is not empty, and its last digit
/// is the check digit of the digits before it. A single digit passes when
/// it is zero.
pub open spec fn luhn_valid(s: Seq<u8>) -> bool {
    if s.len() == 0 {
        false
    } else if s.len() == 1 {
        s[0] == 0
    } else {
        s.last() == check_digit(s.drop_last())
    }
}

/// `c` is one of the characters '0' to '9'.
pub open spec fn is_digit_char(c: char) -> bool {
    '0' <= c && c <= '9'
}

/// Every character of `t` is a decimal digit.
pub open spec fn all_digit_chars(t: Seq<char>) -> bool {
    forall|i: int| 0 <= i < t.len() ==> is_digit_char(t[i])
}

/// The value of the digit character `c`.
pub open spec fn digit_of(c: char) -> u8 {
    (c as u32 - '0' as u32) as u8
}

/// The character that writes the digit `d`.
pub open spec fn char_of(d: u8) -> char {
    (d + '0' as u32) as u8 as char
}

/// The digits written by the characters of `t`.
pub open spec fn parse_digits(t: Seq<char>) -> Seq<u8> {
    t.map_values(|c: char| digit_of(c))
}

/// The characters that write the digits of `s`, in order.
pub open spec fn render_digits(s: Seq<u8>) -> Seq<char> {
    s.map_values(|d: u8| char_of(d))
}

/// What holds of every sequence generated with total length `length` and
/// prefix `prefix`, whatever digits were drawn: it has `length` digits, it
/// starts with the prefix (save the last position, which always holds the
/// check digit), and it passes the checksum.
pub open spec fn generated_from(length: int, prefix: Seq<u8>, v: Seq<u8>) -> bool {
    &&& v.len() == length
    &&& all_digits(v)
    &&& forall|i: int| 0 <= i < prefix.len() && i < length - 1 ==> v[i] == prefix[i]
    &&& v.last() == check_digit(v.drop_last())
    &&& luhn_valid(v)
}

} // verus!
