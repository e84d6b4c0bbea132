//! The Luhn (mod 10) checksum: validation of digit sequences, and generation
//! of random digit sequences whose last digit is the check digit.
use vstd::prelude::*;

pub mod spec;

use crate::spec::{
    all_digit_chars, all_digits, check_digit, contribution, digit_of, doubled,
    generated_from, is_digit_char, luhn_valid, parse_digits, render_digits, weighted_sum,
};
use rand::rngs::ThreadRng;
use rand::Rng;
use vstd::arithmetic::div_mod::lemma_add_mod_noop;

verus! {

/// Why a generation request is refused.
#[derive(PartialEq, Eq, Debug, Structural)]
pub enum LuhnError {
    /// The length is zero, or shorter than the prefix.
    InvalidLength,
    /// A prefix element is not a decimal digit.
    InvalidPrefix,
}

/// rand's rngs::ThreadRng, the thread's random generator, carried through
/// as an opaque value.
#[verifier::external_type_specification]
#[verifier::external_body]
pub struct ExThreadRng(ThreadRng);

/// Relies on rand::thread_rng: a handle on the thread's random generator.
#[verifier::external_body]
fn new_rng() -> ThreadRng {
    rand::thread_rng()
}

/// Relies on rand::Rng::gen_range: a value of the half-open range `0..10`,
/// drawn uniformly (the range is not empty, so it does not panic).
#[verifier::external_body]
fn random_digit(rng: &mut ThreadRng) -> (r: u8)
    ensures
        r <= 9,
{
    rng.gen_range(0..10)
}

/// A digit doubled, with the digits of the product summed: 0..=9 map to
/// 0, 2, 4, 6, 8, 1, 3, 5, 7, 9.
fn double_digit(d: u8) -> (r: u8)
    requires
        d <= 9,
    ensures
        r as int == doubled(d),
        r <= 9,
{
    if d * 2 > 9 {
        d * 2 - 9
    } else {
        d * 2
    }
}

/// The check digit of `number`, the digits that precede it.
fn calculate_luhn_sum(number: &[u8]) -> (r: u8)
    requires
        all_digits(number@),
    ensures
        r as int == check_digit(number@),
        r <= 9,
{
    let mut double = true;
    let mut sum: u8 = 0;
    let ghost mut total: int = 0;
    let mut i: usize = number.len();
    assert(number@.take(i as int) =~= number@);
    while i > 0
        invariant
            i <= number@.len(),
            all_digits(number@),
            total + weighted_sum(number@.take(i as int), double) == weighted_sum(number@, true),
            sum as int == total % 10,
        decreases i,
    {
        let digit = number[i - 1];
        let add = if double {
            double_digit(digit)
        } else {
            digit
        };
        proof {
            let head = number@.take(i as int);
            assert(head.drop_last() =~= number@.take(i - 1));
            assert(add as int == contribution(head.last(), double));
            lemma_add_mod_noop(total, add as int, 10);
        }
        sum = (sum + add) % 10;
        proof {
            total = total + add as int;
        }
        double = !double;
        i = i - 1;
    }
    assert(number@.take(0) =~= Seq::<u8>::empty());
    assert(number@.take(number@.len() as int) =~= number@);
    if sum == 0 {
        0
    } else {
        10 - sum
    }
}

/// Whether `number` passes the Luhn checksum. The empty sequence does not; a
/// single digit does when it is zero.
pub fn validate(number: &[u8]) -> (r: bool)
    requires
        all_digits(number@),
    ensures
        r == luhn_valid(number@),
{
    let n = number.len();
    if n == 0 {
        false
    } else if n == 1 {
        number[0] == 0
    } else {
        let body = &number[0..n - 1];
        assert(body@ =~= number@.drop_last());
        number[n - 1] == calculate_luhn_sum(body)
    }
}

/// Relies on String::push: the character is appended at the end.
#[verifier::external_body]
fn push_char(s: &mut String, c: char)
    ensures
        final(s)@ == old(s)@.push(c),
{
    s.push(c)
}

/// The digits written by the characters of `text`.
fn digits_from_str(text: &str) -> (r: Vec<u8>)
    requires
        all_digit_chars(text@),
    ensures
        r@ == parse_digits(text@),
        all_digits(r@),
{
    let mut digits: Vec<u8> = Vec::new();
    for c in it: text.chars()
        invariant
            all_digit_chars(text@),
            it.seq() == text@,
            digits@ == parse_digits(text@.take(it.index() as int)),
    {
        proof {
            assert(is_digit_char(text@[it.index() as int]));
            assert(parse_digits(text@.take(it.index() + 1)) =~= parse_digits(
                text@.take(it.index() as int),
            ).push(digit_of(c)));
        }
        digits.push((c as u32 - '0' as u32) as u8);
    }
    proof {
        assert(text@.take(text@.len() as int) =~= text@);
    }
    digits
}

/// The characters that write `digits`, in order.
fn digits_to_string(digits: &[u8]) -> (r: String)
    requires
        all_digits(digits@),
    ensures
        r@ == render_digits(digits@),
{
    let mut text = String::new();
    let mut i: usize = 0;
    while i < digits.len()
        invariant
            i <= digits@.len(),
            all_digits(digits@),
            text@ == render_digits(digits@.take(i as int)),
        decreases digits@.len() - i,
    {
        let c = (digits[i] + '0' as u8) as char;
        proof {
            assert(render_digits(digits@.take(i + 1)) =~= render_digits(digits@.take(i as int)).push(
                c,
            ));
        }
        push_char(&mut text, c);
        i = i + 1;
    }
    proof {
        assert(digits@.take(digits@.len() as int) =~= digits@);
    }
    text
}

proof fn lemma_push_check_digit_valid(body: Seq<u8>)
    requires
        all_digits(body),
    ensures
        luhn_valid(body.push(check_digit(body) as u8)),
        all_digits(body.push(check_digit(body) as u8)),
{
    let v = body.push(check_digit(body) as u8);
    assert(v.drop_last() =~= body);
    if body.len() == 0 {
        assert(weighted_sum(body, true) == 0);
    }
}

/// Appends to `digits` its check digit, so that the result passes the
/// checksum.
pub fn push_check_digit(digits: &mut Vec<u8>)
    requires
        all_digits(old(digits)@),
    ensures
        final(digits)@ == old(digits)@.push(check_digit(old(digits)@) as u8),
        luhn_valid(final(digits)@),
{
    let c = calculate_luhn_sum(digits.as_slice());
    proof {
        lemma_push_check_digit_valid(digits@);
    }
    digits.push(c);
}

/// A random digit sequence of `length` digits that starts with `prefix` and
/// passes the checksum. The last position holds the check digit: where the
/// prefix is as long as `length`, its last digit is replaced by it.
pub fn generate_with_prefix(length: usize, prefix: &[u8]) -> (r: Result<Vec<u8>, LuhnError>)
    ensures
        r == Err::<Vec<u8>, LuhnError>(LuhnError::InvalidLength) <==> (length < 1
            || prefix@.len() > length),
        r == Err::<Vec<u8>, LuhnError>(LuhnError::InvalidPrefix) <==> (length >= 1
            && prefix@.len() <= length && !all_digits(prefix@)),
        r is Ok <==> (length >= 1 && prefix@.len() <= length && all_digits(prefix@)),
        r is Ok ==> generated_from(length as int, prefix@, r->Ok_0@),
{
    if length < 1 || prefix.len() > length {
        return Err(LuhnError::InvalidLength);
    }
    let mut k: usize = 0;
    while k < prefix.len()
        invariant
            k <= prefix@.len(),
            1 <= length,
            prefix@.len() <= length,
            forall|j: int| 0 <= j < k ==> prefix@[j] <= 9,
        decreases prefix@.len() - k,
    {
        if prefix[k] > 9 {
            return Err(LuhnError::InvalidPrefix);
        }
        k = k + 1;
    }
    let body_len = length - 1;
    let kept = if prefix.len() < body_len {
        prefix.len()
    } else {
        body_len
    };
    let mut number: Vec<u8> = Vec::with_capacity(length);
    let mut i: usize = 0;
    while i < kept
        invariant
            kept <= prefix@.len(),
            i <= kept,
            number@ == prefix@.take(i as int),
            all_digits(prefix@),
        decreases kept - i,
    {
        number.push(prefix[i]);
        proof {
            assert(number@ =~= prefix@.take(i + 1));
        }
        i = i + 1;
    }
    let mut rng = new_rng();
    while i < body_len
        invariant
            kept <= i <= body_len,
            number@.len() == i,
            all_digits(number@),
            number@.take(kept as int) == prefix@.take(kept as int),
        decreases body_len - i,
    {
        let d = random_digit(&mut rng);
        proof {
            assert(number@.push(d).take(kept as int) =~= number@.take(kept as int));
        }
        number.push(d);
        i = i + 1;
    }
    let ghost body = number@;
    push_check_digit(&mut number);
    proof {
        assert(number@.drop_last() =~= body);
        assert forall|j: int| 0 <= j < prefix@.len() && j < length - 1 implies number@[j]
            == prefix@[j] by {
            assert(body.take(kept as int)[j] == prefix@.take(kept as int)[j]);
        }
    }
    Ok(number)
}

/// A random digit sequence of `length` digits that passes the checksum.
pub fn generate(length: usize) -> (r: Result<Vec<u8>, LuhnError>)
    ensures
        r == Err::<Vec<u8>, LuhnError>(LuhnError::InvalidLength) <==> length < 1,
        r is Ok <==> length >= 1,
        r is Ok ==> generated_from(length as int, Seq::empty(), r->Ok_0@),
{
    let empty: Vec<u8> = Vec::new();
    let r = generate_with_prefix(length, empty.as_slice());
    assert(all_digits(empty@));
    r
}

/// Whether the digits written by `number` pass the Luhn checksum.
pub fn validate_str(number: &str) -> (r: bool)
    requires
        all_digit_chars(number@),
    ensures
        r == luhn_valid(parse_digits(number@)),
{
    let numbers = digits_from_str(number);
    validate(numbers.as_slice())
}

/// As `generate_with_prefix`, with the prefix and the result written as
/// strings of digit characters.
pub fn generate_with_prefix_str(length: usize, prefix: &str) -> (r: Result<String, LuhnError>)
    requires
        all_digit_chars(prefix@),
    ensures
        r == Err::<String, LuhnError>(LuhnError::InvalidLength) <==> (length < 1
            || prefix@.len() > length),
        r is Ok <==> (length >= 1 && prefix@.len() <= length),
        r is Ok ==> all_digit_chars(r->Ok_0@),
        r is Ok ==> generated_from(length as int, parse_digits(prefix@), parse_digits(r->Ok_0@)),
{
    let digits = digits_from_str(prefix);
    match generate_with_prefix(length, digits.as_slice()) {
        Ok(number) => {
            let text = digits_to_string(number.as_slice());
            proof {
                lemma_render_then_parse(number@);
            }
            Ok(text)
        },
        Err(e) => Err(e),
    }
}

/// As `generate`, with the result written as a string of digit characters.
pub fn generate_str(length: usize) -> (r: Result<String, LuhnError>)
    ensures
        r == Err::<String, LuhnError>(LuhnError::InvalidLength) <==> length < 1,
        r is Ok <==> length >= 1,
        r is Ok ==> all_digit_chars(r->Ok_0@),
        r is Ok ==> generated_from(length as int, Seq::empty(), parse_digits(r->Ok_0@)),
{
    match generate(length) {
        Ok(number) => {
            let text = digits_to_string(number.as_slice());
            proof {
                lemma_render_then_parse(number@);
            }
            Ok(text)
        },
        Err(e) => Err(e),
    }
}

/// Replacing the last digit of a sequence that passes the checksum by the
/// check digit of the digits before it gives the sequence back unchanged.
pub proof fn lemma_check_digit_reproduces(s: Seq<u8>)
    requires
        all_digits(s),
        luhn_valid(s),
    ensures
        s.drop_last().push(check_digit(s.drop_last()) as u8) == s,
{
    if s.len() == 1 {
        assert(weighted_sum(s.drop_last(), true) == 0);
    }
    assert(s.drop_last().push(check_digit(s.drop_last()) as u8) =~= s);
}

/// Writing a digit sequence as a string and reading the string back gives
/// the sequence; so the string form passes the checksum exactly when the
/// sequence does.
pub proof fn lemma_render_then_parse(s: Seq<u8>)
    requires
        all_digits(s),
    ensures
        all_digit_chars(render_digits(s)),
        parse_digits(render_digits(s)) == s,
        luhn_valid(parse_digits(render_digits(s))) == luhn_valid(s),
{
    assert(parse_digits(render_digits(s)) =~= s);
}

} // verus!
