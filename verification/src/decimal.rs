//! The decimal numeral of a natural number: its digits in writing order,
//! and its digit multiset, which is the same digits in ascending order.

use vstd::prelude::*;
use vstd::relations::sorted_by;
use vstd::seq_lib::group_to_multiset_ensures;
use vstd::seq_lib::lemma_sorted_unique;
use crate::sorting::ascending;
use crate::sorting::sort_ascending;

verus! {

/// The digits of `n` in base ten, most significant first, without leading
/// zeros. Zero is written with the single digit `0`.
pub open spec fn decimal_digits(n: nat) -> Seq<u32>
    decreases n,
{
    if n < 10 {
        seq![n as u32]
    } else {
        decimal_digits(n / 10).push((n % 10) as u32)
    }
}

/// How many digits the decimal numeral of `n` has.
pub open spec fn decimal_length(n: nat) -> nat
    decreases n,
{
    if n < 10 {
        1
    } else {
        1 + decimal_length(n / 10)
    }
}

/// The number that a sequence of digits denotes when read as a decimal
/// numeral, most significant digit first.
pub open spec fn numeral_value(numeral: Seq<u32>) -> nat
    decreases numeral.len(),
{
    if numeral.len() == 0 {
        0
    } else {
        10 * numeral_value(numeral.drop_last()) + numeral.last() as nat
    }
}

/// How often the digit `d` occurs in the decimal numeral of `n`.
pub open spec fn digit_count(n: nat, d: u32) -> nat {
    decimal_digits(n).to_multiset().count(d)
}

/// All the occurrences of the ten digits in the numeral of `n`.
pub open spec fn digit_count_total(n: nat) -> nat {
    digit_count(n, 0) + digit_count(n, 1) + digit_count(n, 2) + digit_count(n, 3)
        + digit_count(n, 4) + digit_count(n, 5) + digit_count(n, 6) + digit_count(n, 7)
        + digit_count(n, 8) + digit_count(n, 9)
}

/// The digit multiset of `n`: its decimal digits in ascending order, equal
/// digits side by side.
pub open spec fn digit_multiset(n: nat) -> Seq<u32> {
    decimal_digits(n).sort_by(ascending())
}

/// `s` holds exactly the decimal digits of `n`, each as often as the numeral
/// of `n` does, and holds them in ascending order.
pub open spec fn is_digit_multiset_of(s: Seq<u32>, n: nat) -> bool {
    &&& sorted_by(s, ascending())
    &&& s.to_multiset() == decimal_digits(n).to_multiset()
}

/// The decimal numeral of `n` has `decimal_length(n)` digits, each of them
/// at most nine, and a positive number does not begin with a zero.
pub proof fn lemma_decimal_digits_shape(n: nat)
    ensures
        decimal_digits(n).len() == decimal_length(n),
        decimal_length(n) >= 1,
        forall|i: int| 0 <= i < decimal_digits(n).len() ==> #[trigger] decimal_digits(n)[i] <= 9,
        n > 0 ==> decimal_digits(n)[0] != 0,
    decreases n,
{
    if n >= 10 {
        lemma_decimal_digits_shape(n / 10);
    }
}

/// The decimal numeral of `n` denotes `n`.
pub proof fn lemma_decimal_digits_value(n: nat)
    ensures
        numeral_value(decimal_digits(n)) == n,
    decreases n,
{
    if n < 10 {
        assert(decimal_digits(n).drop_last() =~= Seq::<u32>::empty());
        assert(numeral_value(decimal_digits(n).drop_last()) == 0);
    } else {
        lemma_decimal_digits_value(n / 10);
        assert(decimal_digits(n).drop_last() =~= decimal_digits(n / 10));
    }
}

/// Counting a digit place by place: the last digit of `n` counts once, and
/// the digits before it are those of `n / 10`.
pub proof fn lemma_digit_count_step(n: nat, d: u32)
    ensures
        n < 10 ==> digit_count(n, d) == (if d == n { 1nat } else { 0nat }),
        n >= 10 ==> digit_count(n, d) == digit_count(n / 10, d) + (if d == n % 10 {
            1nat
        } else {
            0nat
        }),
{
    broadcast use group_to_multiset_ensures;
    broadcast use vstd::multiset::group_multiset_axioms;
    if n < 10 {
        assert(decimal_digits(n) =~= Seq::<u32>::empty().push(n as u32));
        assert(Seq::<u32>::empty().to_multiset().count(d) == 0) by {
            assert(!Seq::<u32>::empty().contains(d));
        }
    }
}

/// Every place of a numeral holds one of the ten digits: their counts add up
/// to the numeral's length, and nothing else occurs in it.
pub proof fn lemma_digit_count_total(n: nat)
    ensures
        digit_count_total(n) == decimal_length(n),
        forall|d: u32| d > 9 ==> #[trigger] digit_count(n, d) == 0,
    decreases n,
{
    lemma_digit_count_step(n, 0);
    lemma_digit_count_step(n, 1);
    lemma_digit_count_step(n, 2);
    lemma_digit_count_step(n, 3);
    lemma_digit_count_step(n, 4);
    lemma_digit_count_step(n, 5);
    lemma_digit_count_step(n, 6);
    lemma_digit_count_step(n, 7);
    lemma_digit_count_step(n, 8);
    lemma_digit_count_step(n, 9);
    if n >= 10 {
        lemma_digit_count_total(n / 10);
    }
    assert forall|d: u32| d > 9 implies #[trigger] digit_count(n, d) == 0 by {
        lemma_digit_count_step(n, d);
    }
}

/// The digit multiset of `n` is as long as the numeral of `n`, ascends, and
/// holds every digit as often as the numeral does.
pub proof fn lemma_digit_multiset_shape(n: nat)
    ensures
        is_digit_multiset_of(digit_multiset(n), n),
        digit_multiset(n).len() == decimal_length(n),
        forall|i: int, j: int|
            0 <= i <= j < digit_multiset(n).len() ==> digit_multiset(n)[i] <= digit_multiset(n)[j],
        forall|i: int| 0 <= i < digit_multiset(n).len() ==> #[trigger] digit_multiset(n)[i] <= 9,
        forall|d: u32| #[trigger] digit_multiset(n).to_multiset().count(d) == digit_count(n, d),
{
    broadcast use group_to_multiset_ensures;
    let numeral = decimal_digits(n);
    let sorted = digit_multiset(n);
    numeral.lemma_sort_by_ensures(ascending());
    lemma_decimal_digits_shape(n);
    assert(sorted.len() == numeral.len()) by {
        assert(sorted.to_multiset().len() == numeral.to_multiset().len());
    }
    assert forall|i: int, j: int| 0 <= i <= j < sorted.len() implies sorted[i] <= sorted[j] by {
        if i < j {
            assert(ascending()(sorted[i], sorted[j]));
        }
    }
    assert forall|i: int| 0 <= i < sorted.len() implies #[trigger] sorted[i] <= 9 by {
        assert(sorted.contains(sorted[i]));
        assert(numeral.contains(sorted[i]));
    }
}

/// A number has one digit multiset only: two ascending sequences that both
/// hold the digits of `n` are the same sequence, and that sequence is
/// `digit_multiset(n)`.
pub proof fn lemma_digit_multiset_unique(n: nat, first: Seq<u32>, second: Seq<u32>)
    requires
        is_digit_multiset_of(first, n),
        is_digit_multiset_of(second, n),
    ensures
        first == second,
        first == digit_multiset(n),
{
    lemma_digit_multiset_shape(n);
    lemma_sorted_unique(first, second, ascending());
    lemma_sorted_unique(first, digit_multiset(n), ascending());
}

/// Writes `number` in base ten, most significant digit first.
pub fn split_digits(number: u32) -> (numeral: Vec<u32>)
    ensures
        numeral@ == decimal_digits(number as nat),
{
    let mut rest: u32 = number;
    let mut numeral: Vec<u32> = Vec::new();
    while rest >= 10
        invariant
            decimal_digits(number as nat) == decimal_digits(rest as nat) + numeral@,
        decreases rest,
    {
        numeral.insert(0, rest % 10);
        rest = rest / 10;
    }
    numeral.insert(0, rest);
    numeral
}

/// The digit multiset of `number`: its decimal digits, sorted ascending.
/// It has as many entries as the numeral of `number` has digits.
pub fn digits(number: u32) -> (sorted: Vec<u32>)
    ensures
        sorted@ == digit_multiset(number as nat),
        is_digit_multiset_of(sorted@, number as nat),
        sorted@.len() == decimal_length(number as nat),
        forall|i: int, j: int| 0 <= i <= j < sorted@.len() ==> sorted@[i] <= sorted@[j],
        forall|i: int| 0 <= i < sorted@.len() ==> #[trigger] sorted@[i] <= 9,
{
    let numeral = split_digits(number);
    let sorted = sort_ascending(numeral);
    proof {
        lemma_digit_multiset_shape(number as nat);
    }
    sorted
}

/// Calling `digits` again on the same number gives the same sequence again:
/// whatever two calls on one number return, they return the same.
pub proof fn lemma_digits_repeatable(number: u32, first: Vec<u32>, second: Vec<u32>)
    requires
        call_ensures(digits, (number,), first),
        call_ensures(digits, (number,), second),
    ensures
        first@ == second@,
{
}

} // verus!
