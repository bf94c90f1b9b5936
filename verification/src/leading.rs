//! The first and the last digit of a decimal numeral, and how the first
//! digit moves when numbers of one length are added.

use vstd::prelude::*;
use crate::decimal::decimal_digits;
use crate::decimal::decimal_length;
use crate::decimal::digit_count;
use crate::decimal::lemma_digit_count_step;

verus! {

/// The most significant digit of the decimal numeral of `n`.
pub open spec fn leading_digit(n: nat) -> nat
    decreases n,
{
    if n < 10 {
        n
    } else {
        leading_digit(n / 10)
    }
}

/// The leading digit is the first digit of the numeral.
pub proof fn lemma_leading_digit_is_first(n: nat)
    ensures
        leading_digit(n) == decimal_digits(n)[0],
    decreases n,
{
    if n >= 10 {
        lemma_leading_digit_is_first(n / 10);
    }
}

/// The leading digit of a positive number is one of `1` to `9`, and it is
/// among the number's digits.
pub proof fn lemma_leading_digit_occurs(n: nat)
    ensures
        leading_digit(n) <= 9,
        n > 0 ==> leading_digit(n) >= 1,
        digit_count(n, leading_digit(n) as u32) >= 1,
    decreases n,
{
    lemma_digit_count_step(n, leading_digit(n) as u32);
    if n >= 10 {
        lemma_leading_digit_occurs(n / 10);
    }
}

/// The last digit of a number is among its digits.
pub proof fn lemma_last_digit_occurs(n: nat)
    ensures
        digit_count(n, (n % 10) as u32) >= 1,
{
    lemma_digit_count_step(n, (n % 10) as u32);
}

/// Only the numbers below ten are written with a single digit.
pub proof fn lemma_single_digit(n: nat)
    ensures
        decimal_length(n) >= 1,
        decimal_length(n) == 1 <==> n < 10,
    decreases n,
{
    if n >= 10 {
        lemma_single_digit(n / 10);
    }
}

/// A larger number is written with at least as many digits.
pub proof fn lemma_length_monotone(m: nat, n: nat)
    requires
        m <= n,
    ensures
        decimal_length(m) <= decimal_length(n),
    decreases n,
{
    if m >= 10 {
        lemma_length_monotone(m / 10, n / 10);
    }
}

/// Of two numbers of one length, the larger has the larger leading digit,
/// or the same.
pub proof fn lemma_leading_digit_monotone(m: nat, n: nat)
    requires
        m <= n,
        decimal_length(m) == decimal_length(n),
    ensures
        leading_digit(m) <= leading_digit(n),
    decreases n,
{
    if n >= 10 {
        lemma_leading_digit_monotone(m / 10, n / 10);
    }
}

/// Where two numbers and their sum are all of one length, the leading digit
/// of the sum is at least the sum of their leading digits.
pub proof fn lemma_leading_digit_of_sum(a: nat, b: nat)
    requires
        decimal_length(a) == decimal_length(b),
        decimal_length(a) == decimal_length(a + b),
    ensures
        leading_digit(a + b) >= leading_digit(a) + leading_digit(b),
    decreases a,
{
    lemma_single_digit(a);
    lemma_single_digit(b);
    lemma_single_digit(a + b);
    if a >= 10 {
        // Dropping the last digits leaves two numbers whose sum is, or is
        // one less than, the sum without its last digit.
        let below = a / 10 + b / 10;
        let tens = (a + b) / 10;
        lemma_length_monotone(a / 10, below);
        lemma_length_monotone(below, tens);
        lemma_leading_digit_of_sum(a / 10, b / 10);
        lemma_leading_digit_monotone(below, tens);
    }
}

} // verus!
