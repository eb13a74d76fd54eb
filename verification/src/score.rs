//! Reading a score, an integer from 0 to 255, from a run of decimal digits.

use vstd::prelude::*;

verus! {

/// Whether `c` is one of the ten decimal digits `0` to `9`.
pub open spec fn is_digit(c: char) -> bool {
    '0' <= c <= '9'
}

/// The number that a decimal digit stands for.
pub open spec fn digit_value(c: char) -> nat
    recommends
        is_digit(c),
{
    (c as int - '0' as int) as nat
}

/// Whether every character of `digits` is a decimal digit.
pub open spec fn all_digits(digits: Seq<char>) -> bool {
    forall|i: int| 0 <= i < digits.len() ==> is_digit(#[trigger] digits[i])
}

/// The number that a run of decimal digits denotes, the first digit weighing
/// most.
pub open spec fn decimal_value(digits: Seq<char>) -> nat
    decreases digits.len(),
{
    if digits.len() == 0 {
        0
    } else {
        10 * decimal_value(digits.drop_last()) + digit_value(digits.last())
    }
}

/// The score that a digit run denotes: its decimal value where the run is not
/// empty, holds decimal digits only and denotes at most 255; else none.
pub open spec fn score_of(digits: Seq<char>) -> Option<u8> {
    if digits.len() > 0 && all_digits(digits) && decimal_value(digits) <= 255 {
        Some(decimal_value(digits) as u8)
    } else {
        None
    }
}

/// The decimal digit that stands for a number below ten.
pub open spec fn digit_of(d: nat) -> char
    recommends
        d < 10,
{
    (('0' as u8) + d) as u8 as char
}

/// The decimal numeral of a number, without leading zeros.
pub open spec fn numeral_of(n: nat) -> Seq<char>
    decreases n,
{
    if n < 10 {
        seq![digit_of(n)]
    } else {
        numeral_of(n / 10).push(digit_of(n % 10))
    }
}

/// A digit run denotes at least what any of its prefixes denotes.
pub proof fn lemma_decimal_value_grows(digits: Seq<char>, n: int)
    requires
        0 <= n <= digits.len(),
    ensures
        decimal_value(digits.take(n)) <= decimal_value(digits),
    decreases digits.len() - n,
{
    if n == digits.len() {
        assert(digits.take(n) == digits);
    } else {
        lemma_decimal_value_grows(digits, n + 1);
        assert(digits.take(n + 1).drop_last() == digits.take(n));
    }
}

/// A numeral is a run of digits that denotes its number.
pub proof fn lemma_numeral_denotes(n: nat)
    ensures
        numeral_of(n).len() > 0,
        all_digits(numeral_of(n)),
        decimal_value(numeral_of(n)) == n,
    decreases n,
{
    let digits = numeral_of(n);
    if n < 10 {
        assert(digits.drop_last() == Seq::<char>::empty());
        assert(decimal_value(digits.drop_last()) == 0);
        assert(digits.last() == digit_of(n));
    } else {
        lemma_numeral_denotes(n / 10);
        assert(digits.drop_last() == numeral_of(n / 10));
        assert(digits.last() == digit_of(n % 10));
        assert forall|i: int| 0 <= i < digits.len() implies is_digit(#[trigger] digits[i]) by {
            if i < digits.len() - 1 {
                assert(digits[i] == numeral_of(n / 10)[i]);
            }
        }
    }
}

/// Every score is read back from its numeral.
pub proof fn lemma_score_of_numeral(score: u8)
    ensures
        score_of(numeral_of(score as nat)) == Some(score),
{
    lemma_numeral_denotes(score as nat);
}

/// Reads a score from a run of decimal digits.
///
/// Leading zeros are accepted. A run that is empty, holds anything but the
/// digits `0` to `9`, or denotes more than 255 has no score.
pub fn parse_score(digits: &str) -> (score: Option<u8>)
    ensures
        score == score_of(digits@),
{
    if digits.is_empty() {
        return None;
    }
    let mut value: u16 = 0;
    for c in chars: digits.chars()
        invariant
            chars.seq() == digits@,
            all_digits(digits@.take(chars.index())),
            value == decimal_value(digits@.take(chars.index())),
            value <= 255,
    {
        if !('0' <= c && c <= '9') {
            return None;
        }
        let d: u16 = (c as u8 - '0' as u8) as u16;
        proof {
            let i = chars.index();
            assert(digits@.take(i + 1).drop_last() == digits@.take(i));
            assert(digits@.take(i + 1).last() == c);
            lemma_decimal_value_grows(digits@, i + 1);
        }
        if value * 10 + d > 255 {
            return None;
        }
        value = value * 10 + d;
    }
    assert(digits@.take(digits@.len() as int) == digits@);
    Some(value as u8)
}

} // verus!
