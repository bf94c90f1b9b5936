//! The test on one candidate and the search for the least candidate that
//! passes it.

use vstd::prelude::*;
use vstd::seq_lib::lemma_sorted_unique;
use crate::decimal::decimal_length;
use crate::decimal::digit_count;
use crate::decimal::digit_multiset;
use crate::decimal::digits;
use crate::decimal::lemma_digit_multiset_shape;
use crate::minimality::lemma_142857_is_a_solution;
use crate::minimality::lemma_least_solution;
use crate::minimality::lemma_no_smaller_solution;
use crate::sorting::ascending;

verus! {

/// `a` and `b` are written with the same decimal digits, each digit as often
/// in the one as in the other.
pub open spec fn same_digits(a: nat, b: nat) -> bool {
    digit_multiset(a) == digit_multiset(b)
}

/// `x`, `2x`, `3x`, `4x`, `5x` and `6x` are all written with the same
/// decimal digits.
pub open spec fn has_permuted_multiples(x: nat) -> bool {
    &&& same_digits(x, 2 * x)
    &&& same_digits(x, 3 * x)
    &&& same_digits(x, 4 * x)
    &&& same_digits(x, 5 * x)
    &&& same_digits(x, 6 * x)
}

/// `x` is the least positive integer whose first six multiples are all
/// written with the same digits.
pub open spec fn is_least_solution(x: nat) -> bool {
    &&& x >= 1
    &&& has_permuted_multiples(x)
    &&& forall|y: nat| 1 <= y < x ==> !has_permuted_multiples(y)
}

/// The multiples of a solution agree in their digits pair by pair, not only
/// each with the solution itself.
pub proof fn lemma_multiples_agree_pairwise(x: nat, j: nat, k: nat)
    requires
        has_permuted_multiples(x),
        1 <= j <= 6,
        1 <= k <= 6,
    ensures
        same_digits(j * x, k * x),
{
    assert(same_digits(x, j * x)) by {
        lemma_small_multiple(x, j);
    }
    assert(same_digits(x, k * x)) by {
        lemma_small_multiple(x, k);
    }
}

/// Each of the first six multiples of a solution has the digits of the
/// solution.
pub proof fn lemma_small_multiple(x: nat, k: nat)
    requires
        has_permuted_multiples(x),
        1 <= k <= 6,
    ensures
        same_digits(x, k * x),
{
    if k == 1 {
        assert(k * x == x);
    } else if k == 2 {
        assert(k * x == 2 * x);
    } else if k == 3 {
        assert(k * x == 3 * x);
    } else if k == 4 {
        assert(k * x == 4 * x);
    } else if k == 5 {
        assert(k * x == 5 * x);
    } else {
        assert(k * x == 6 * x);
    }
}

/// Two numbers have the same digit multiset exactly when every digit occurs
/// as often in the one as in the other; they are then of one length.
pub proof fn lemma_same_digits_by_count(a: nat, b: nat)
    ensures
        same_digits(a, b) <==> (forall|d: u32| #[trigger] digit_count(a, d) == digit_count(b, d)),
        same_digits(a, b) ==> decimal_length(a) == decimal_length(b),
{
    lemma_digit_multiset_shape(a);
    lemma_digit_multiset_shape(b);
    if same_digits(a, b) {
        assert forall|d: u32| #[trigger] digit_count(a, d) == digit_count(b, d) by {
            assert(digit_multiset(a).to_multiset().count(d) == digit_count(a, d));
            assert(digit_multiset(b).to_multiset().count(d) == digit_count(b, d));
        }
    }
    if forall|d: u32| #[trigger] digit_count(a, d) == digit_count(b, d) {
        assert forall|d: u32|
            digit_multiset(a).to_multiset().count(d) == digit_multiset(b).to_multiset().count(
                d,
            ) by {
            assert(digit_multiset(a).to_multiset().count(d) == digit_count(a, d));
            assert(digit_multiset(b).to_multiset().count(d) == digit_count(b, d));
        }
        assert(digit_multiset(a).to_multiset() =~= digit_multiset(b).to_multiset());
        lemma_sorted_unique(digit_multiset(a), digit_multiset(b), ascending());
    }
}

/// Tells whether two digit sequences are the same: as long as each other,
/// and with the same digit at every place.
pub fn same_sequence(first: &Vec<u32>, second: &Vec<u32>) -> (same: bool)
    ensures
        same == (first@ == second@),
{
    let same = first == second;
    proof {
        if same {
            assert(first@ =~= second@);
        }
    }
    same
}

/// Tells whether the first six multiples of `x` all have the same digit
/// multiset. The sixth multiple has to fit the integer type.
pub fn condition(x: u32) -> (holds: bool)
    requires
        6 * x <= u32::MAX,
    ensures
        holds == has_permuted_multiples(x as nat),
{
    let once = digits(x);
    let a = same_sequence(&once, &digits(2 * x));
    let b = same_sequence(&once, &digits(3 * x));
    let c = same_sequence(&once, &digits(4 * x));
    let d = same_sequence(&once, &digits(5 * x));
    let e = same_sequence(&once, &digits(6 * x));
    a && b && c && d && e
}

/// Searches upward from one for the least positive integer whose first six
/// multiples are all written with the same digits, and returns it.
pub fn solve() -> (least: i32)
    ensures
        least == 142_857,
        is_least_solution(least as nat),
{
    let mut number: u32 = 1;
    while !condition(number)
        invariant
            1 <= number <= 142_857,
        decreases 142_857 - number,
    {
        proof {
            // The search cannot pass 142857, which meets the condition.
            lemma_142857_is_a_solution();
        }
        number += 1;
    }
    proof {
        // It cannot stop before 142857 either.
        if number < 142_857 {
            lemma_no_smaller_solution(number as nat);
        }
        lemma_least_solution(142_857);
    }
    number as i32
}

} // verus!
