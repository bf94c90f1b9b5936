//! Why 142857 is the least positive integer whose first six multiples are
//! written with the same digits.
//!
//! The six multiples of a solution are of one length, so they begin with six
//! different digits, and each of these occurs in the solution: it has at
//! least six digits. With exactly six, it holds each of its digits once and
//! no zero. Its multiples end in digits of the solution too, which leaves
//! `7` for its last digit and `1`, `2`, `4`, `5`, `7`, `8` for its digits. Of
//! the numbers written so, only 142857 has a double and a triple written
//! with these digits again.

use vstd::prelude::*;
use crate::decimal::decimal_length;
use crate::decimal::digit_count;
use crate::decimal::lemma_digit_count_step;
use crate::decimal::lemma_digit_count_total;
use crate::leading::leading_digit;
use crate::leading::lemma_last_digit_occurs;
use crate::leading::lemma_leading_digit_occurs;
use crate::leading::lemma_leading_digit_of_sum;
use crate::search::has_permuted_multiples;
use crate::search::is_least_solution;
use crate::search::lemma_same_digits_by_count;

verus! {

/// The digit of `n` at the given place, the units being place zero.
pub open spec fn digit_at(n: nat, place: nat) -> nat
    decreases place,
{
    if place == 0 {
        n % 10
    } else {
        digit_at(n / 10, (place - 1) as nat)
    }
}

/// One if the digit `at` is the digit `d`, else nothing.
pub open spec fn one_if(at: nat, d: u32) -> nat {
    if at == d {
        1
    } else {
        0
    }
}

/// The numbers that begin with `1`, end in `7` and hold `2`, `4`, `5` and
/// `8` in between, each once.
pub open spec fn is_arrangement(x: nat) -> bool {
    ||| x == 124_587 || x == 124_857 || x == 125_487 || x == 125_847
    ||| x == 128_457 || x == 128_547 || x == 142_587 || x == 142_857
    ||| x == 145_287 || x == 145_827 || x == 148_257 || x == 148_527
    ||| x == 152_487 || x == 152_847 || x == 154_287 || x == 154_827
    ||| x == 158_247 || x == 158_427 || x == 182_457 || x == 182_547
    ||| x == 184_257 || x == 184_527 || x == 185_247 || x == 185_427
}

/// The six multiples of a solution begin with six different digits, the
/// solution itself with `1`, and each of the six is a digit of the solution.
pub proof fn lemma_six_leading_digits(x: nat)
    requires
        x > 0,
        has_permuted_multiples(x),
    ensures
        1 == leading_digit(x) < leading_digit(2 * x) < leading_digit(3 * x) < leading_digit(4 * x)
            < leading_digit(5 * x) < leading_digit(6 * x) <= 9,
        digit_count(x, leading_digit(x) as u32) >= 1,
        digit_count(x, leading_digit(2 * x) as u32) >= 1,
        digit_count(x, leading_digit(3 * x) as u32) >= 1,
        digit_count(x, leading_digit(4 * x) as u32) >= 1,
        digit_count(x, leading_digit(5 * x) as u32) >= 1,
        digit_count(x, leading_digit(6 * x) as u32) >= 1,
{
    lemma_same_digits_by_count(x, 2 * x);
    lemma_same_digits_by_count(x, 3 * x);
    lemma_same_digits_by_count(x, 4 * x);
    lemma_same_digits_by_count(x, 5 * x);
    lemma_same_digits_by_count(x, 6 * x);
    lemma_leading_digit_of_sum(x, x);
    lemma_leading_digit_of_sum(2 * x, x);
    lemma_leading_digit_of_sum(3 * x, x);
    lemma_leading_digit_of_sum(4 * x, x);
    lemma_leading_digit_of_sum(5 * x, x);
    lemma_leading_digit_occurs(x);
    lemma_leading_digit_occurs(2 * x);
    lemma_leading_digit_occurs(3 * x);
    lemma_leading_digit_occurs(4 * x);
    lemma_leading_digit_occurs(5 * x);
    lemma_leading_digit_occurs(6 * x);
}

/// A solution has at least six digits.
pub proof fn lemma_solution_has_six_digits(x: nat)
    requires
        x > 0,
        has_permuted_multiples(x),
    ensures
        decimal_length(x) >= 6,
{
    lemma_six_leading_digits(x);
    lemma_digit_count_total(x);
}

/// The numbers of six digits are those from 100000 to 999999.
pub proof fn lemma_six_digit_range(n: nat)
    ensures
        decimal_length(n) == 6 <==> 100_000 <= n < 1_000_000,
        decimal_length(n) < 6 <==> n < 100_000,
{
    reveal_with_fuel(decimal_length, 7);
}

/// A six-digit number is the sum of its six digits, each times the power of
/// ten of its place, and it begins with the digit at the highest place.
pub proof fn lemma_six_places(n: nat)
    requires
        100_000 <= n < 1_000_000,
    ensures
        leading_digit(n) == digit_at(n, 5),
        n == 100_000 * digit_at(n, 5) + 10_000 * digit_at(n, 4) + 1_000 * digit_at(n, 3) + 100
            * digit_at(n, 2) + 10 * digit_at(n, 1) + digit_at(n, 0),
        1 <= digit_at(n, 5) <= 9,
        digit_at(n, 4) <= 9,
        digit_at(n, 3) <= 9,
        digit_at(n, 2) <= 9,
        digit_at(n, 1) <= 9,
        digit_at(n, 0) <= 9,
{
    reveal_with_fuel(leading_digit, 6);
    reveal_with_fuel(digit_at, 6);
}

/// A digit occurs in a six-digit number as often as it stands at one of the
/// six places.
pub proof fn lemma_six_digit_count(n: nat, d: u32)
    requires
        100_000 <= n < 1_000_000,
    ensures
        digit_count(n, d) == one_if(digit_at(n, 5), d) + one_if(digit_at(n, 4), d) + one_if(
            digit_at(n, 3),
            d,
        ) + one_if(digit_at(n, 2), d) + one_if(digit_at(n, 1), d) + one_if(digit_at(n, 0), d),
{
    reveal_with_fuel(digit_at, 6);
    lemma_digit_count_step(n, d);
    lemma_digit_count_step(n / 10, d);
    lemma_digit_count_step(n / 10 / 10, d);
    lemma_digit_count_step(n / 10 / 10 / 10, d);
    lemma_digit_count_step(n / 10 / 10 / 10 / 10, d);
    lemma_digit_count_step(n / 10 / 10 / 10 / 10 / 10, d);
}

/// The digits of a six-digit solution are `1`, `2`, `4`, `5`, `7` and `8`,
/// each once, and the last of them is `7`.
pub proof fn lemma_six_digit_solution_digits(x: nat)
    requires
        decimal_length(x) == 6,
        has_permuted_multiples(x),
    ensures
        leading_digit(x) == 1,
        x % 10 == 7,
        digit_count(x, 0) == 0,
        digit_count(x, 1) == 1,
        digit_count(x, 2) == 1,
        digit_count(x, 3) == 0,
        digit_count(x, 4) == 1,
        digit_count(x, 5) == 1,
        digit_count(x, 6) == 0,
        digit_count(x, 7) == 1,
        digit_count(x, 8) == 1,
        digit_count(x, 9) == 0,
{
    lemma_six_digit_range(x);
    lemma_six_leading_digits(x);
    lemma_digit_count_total(x);
    lemma_six_places(x);
    lemma_six_digit_count(x, 1);
    lemma_same_digits_by_count(x, 2 * x);
    lemma_same_digits_by_count(x, 3 * x);
    lemma_same_digits_by_count(x, 4 * x);
    lemma_same_digits_by_count(x, 5 * x);
    lemma_same_digits_by_count(x, 6 * x);
    lemma_last_digit_occurs(x);
    lemma_last_digit_occurs(2 * x);
    lemma_last_digit_occurs(3 * x);
    lemma_last_digit_occurs(4 * x);
    lemma_last_digit_occurs(5 * x);
    lemma_last_digit_occurs(6 * x);
}

/// The numbers with `1` before and `7` behind four different digits out of
/// `2`, `4`, `5`, `8`.
pub proof fn lemma_arrangements(b: nat, c: nat, d: nat, e: nat)
    requires
        b == 2 || b == 4 || b == 5 || b == 8,
        c == 2 || c == 4 || c == 5 || c == 8,
        d == 2 || d == 4 || d == 5 || d == 8,
        e == 2 || e == 4 || e == 5 || e == 8,
        b != c && b != d && b != e && c != d && c != e && d != e,
    ensures
        is_arrangement(100_000 + 10_000 * b + 1_000 * c + 100 * d + 10 * e + 7),
{
}

/// A six-digit solution is one of twenty-four numbers.
pub proof fn lemma_six_digit_solution_is_arrangement(x: nat)
    requires
        decimal_length(x) == 6,
        has_permuted_multiples(x),
    ensures
        is_arrangement(x),
{
    lemma_six_digit_range(x);
    lemma_six_digit_solution_digits(x);
    lemma_six_places(x);
    let b = digit_at(x, 4);
    let c = digit_at(x, 3);
    let d = digit_at(x, 2);
    let e = digit_at(x, 1);
    assert(x == 100_000 + 10_000 * b + 1_000 * c + 100 * d + 10 * e + 7);
    assert(b != 0 && c != 0 && d != 0 && e != 0) by {
        lemma_six_digit_count(x, 0);
    }
    assert(b != 1 && c != 1 && d != 1 && e != 1) by {
        lemma_six_digit_count(x, 1);
    }
    assert(b != 3 && c != 3 && d != 3 && e != 3) by {
        lemma_six_digit_count(x, 3);
    }
    assert(b != 6 && c != 6 && d != 6 && e != 6) by {
        lemma_six_digit_count(x, 6);
    }
    assert(b != 7 && c != 7 && d != 7 && e != 7) by {
        lemma_six_digit_count(x, 7);
    }
    assert(b != 9 && c != 9 && d != 9 && e != 9) by {
        lemma_six_digit_count(x, 9);
    }
    assert(b != c && b != d && b != e && c != d && c != e && d != e) by {
        lemma_six_digit_count(x, 2);
        lemma_six_digit_count(x, 4);
        lemma_six_digit_count(x, 5);
        lemma_six_digit_count(x, 8);
    }
    lemma_arrangements(b, c, d, e);
}

/// 142857 is the only solution of six digits: the double or the triple of
/// any other arrangement holds a `0`, `3`, `6` or `9`.
pub proof fn lemma_six_digit_solution_is_142857(x: nat)
    requires
        decimal_length(x) == 6,
        has_permuted_multiples(x),
    ensures
        x == 142_857,
{
    lemma_six_digit_solution_is_arrangement(x);
    lemma_six_digit_solution_digits(x);
    lemma_same_digits_by_count(x, 2 * x);
    lemma_same_digits_by_count(x, 3 * x);
    reveal_with_fuel(digit_at, 6);
    if x == 124_587 {
        lemma_six_digit_count(249_174, 9);
    } else if x == 124_857 {
        lemma_six_digit_count(249_714, 9);
    } else if x == 125_487 {
        lemma_six_digit_count(250_974, 0);
    } else if x == 125_847 {
        lemma_six_digit_count(251_694, 6);
    } else if x == 128_457 {
        lemma_six_digit_count(256_914, 6);
    } else if x == 128_547 {
        lemma_six_digit_count(257_094, 0);
    } else if x == 142_587 {
        lemma_six_digit_count(427_761, 6);
    } else if x == 145_287 {
        lemma_six_digit_count(290_574, 9);
    } else if x == 145_827 {
        lemma_six_digit_count(291_654, 9);
    } else if x == 148_257 {
        lemma_six_digit_count(296_514, 9);
    } else if x == 148_527 {
        lemma_six_digit_count(297_054, 9);
    } else if x == 152_487 {
        lemma_six_digit_count(304_974, 3);
    } else if x == 152_847 {
        lemma_six_digit_count(305_694, 3);
    } else if x == 154_287 {
        lemma_six_digit_count(308_574, 3);
    } else if x == 154_827 {
        lemma_six_digit_count(309_654, 3);
    } else if x == 158_247 {
        lemma_six_digit_count(316_494, 3);
    } else if x == 158_427 {
        lemma_six_digit_count(316_854, 3);
    } else if x == 182_457 {
        lemma_six_digit_count(364_914, 3);
    } else if x == 182_547 {
        lemma_six_digit_count(365_094, 3);
    } else if x == 184_257 {
        lemma_six_digit_count(368_514, 3);
    } else if x == 184_527 {
        lemma_six_digit_count(369_054, 3);
    } else if x == 185_247 {
        lemma_six_digit_count(370_494, 3);
    } else if x == 185_427 {
        lemma_six_digit_count(370_854, 3);
    }
}

/// The first six multiples of 142857 are written with the same digits.
pub proof fn lemma_142857_is_a_solution()
    ensures
        has_permuted_multiples(142_857),
{
    reveal_with_fuel(digit_at, 6);
    assert forall|d: u32| #[trigger] digit_count(142_857, d) == digit_count(285_714, d) by {
        lemma_six_digit_count(142_857, d);
        lemma_six_digit_count(285_714, d);
    }
    assert forall|d: u32| #[trigger] digit_count(142_857, d) == digit_count(428_571, d) by {
        lemma_six_digit_count(142_857, d);
        lemma_six_digit_count(428_571, d);
    }
    assert forall|d: u32| #[trigger] digit_count(142_857, d) == digit_count(571_428, d) by {
        lemma_six_digit_count(142_857, d);
        lemma_six_digit_count(571_428, d);
    }
    assert forall|d: u32| #[trigger] digit_count(142_857, d) == digit_count(714_285, d) by {
        lemma_six_digit_count(142_857, d);
        lemma_six_digit_count(714_285, d);
    }
    assert forall|d: u32| #[trigger] digit_count(142_857, d) == digit_count(857_142, d) by {
        lemma_six_digit_count(142_857, d);
        lemma_six_digit_count(857_142, d);
    }
    lemma_same_digits_by_count(142_857, 285_714);
    lemma_same_digits_by_count(142_857, 428_571);
    lemma_same_digits_by_count(142_857, 571_428);
    lemma_same_digits_by_count(142_857, 714_285);
    lemma_same_digits_by_count(142_857, 857_142);
}

/// No positive integer below 142857 is a solution.
pub proof fn lemma_no_smaller_solution(x: nat)
    requires
        1 <= x < 142_857,
    ensures
        !has_permuted_multiples(x),
{
    if has_permuted_multiples(x) {
        lemma_solution_has_six_digits(x);
        lemma_six_digit_range(x);
        lemma_six_digit_solution_is_142857(x);
    }
}

/// 142857 is the least solution, and nothing else is.
pub proof fn lemma_least_solution(x: nat)
    ensures
        is_least_solution(x) <==> x == 142_857,
{
    lemma_142857_is_a_solution();
    assert forall|y: nat| 1 <= y < 142_857 implies !has_permuted_multiples(y) by {
        lemma_no_smaller_solution(y);
    }
}

/// Zero passes the test, as all its multiples are zero: the search is for a
/// positive integer.
pub proof fn lemma_zero_has_permuted_multiples()
    ensures
        has_permuted_multiples(0),
{
}

} // verus!
