use permuted_multiples::condition;
use permuted_multiples::digits;
use permuted_multiples::search::same_sequence;
use permuted_multiples::solve;

#[test]
fn condition_holds_for_142857() {
    assert!(condition(142_857));
    let expected: Vec<u32> = vec![1, 2, 4, 5, 7, 8];
    assert_eq!(digits(142_857), expected);
    assert_eq!(digits(285_714), expected);
    assert_eq!(digits(428_571), expected);
    assert_eq!(digits(571_428), expected);
    assert_eq!(digits(714_285), expected);
    assert_eq!(digits(857_142), expected);
}

#[test]
fn condition_fails_for_every_positive_number_below_142857() {
    for x in 1..142_857u32 {
        assert!(!condition(x), "{}", x);
    }
}

#[test]
fn solve_returns_142857() {
    assert_eq!(solve(), 142_857);
}

#[test]
fn solve_returns_a_number_that_passes_the_condition() {
    let least = solve();
    assert!(least > 0);
    assert!(condition(least as u32));
}

#[test]
fn condition_holds_for_zero() {
    assert!(condition(0));
}

#[test]
fn condition_fails_for_small_numbers() {
    assert!(!condition(1));
    assert!(!condition(9));
    assert!(!condition(10));
    assert!(!condition(100_000));
}

#[test]
fn condition_asks_for_all_six_multiples() {
    assert_eq!(digits(125_874), digits(251_748));
    assert_ne!(digits(125_874), digits(3 * 125_874));
    assert!(!condition(125_874));
}

#[test]
fn condition_fails_when_only_some_pairs_agree() {
    // 142587: the double agrees, the triple does not.
    assert_eq!(digits(142_587), digits(285_174));
    assert_ne!(digits(142_587), digits(427_761));
    assert!(!condition(142_587));
}

#[test]
fn condition_holds_for_the_next_solutions() {
    assert!(condition(1_428_570));
    assert!(condition(1_429_857));
    assert!(!condition(142_858));
    assert!(!condition(1_428_571));
}

#[test]
fn condition_takes_the_largest_number_whose_sixfold_fits() {
    let largest: u32 = u32::MAX / 6;
    assert_eq!(largest, 715_827_882);
    assert!(!condition(largest));
}

#[test]
fn same_sequence_compares_length_and_every_place() {
    assert!(same_sequence(&vec![], &vec![]));
    assert!(same_sequence(&vec![1, 2, 3], &vec![1, 2, 3]));
    assert!(!same_sequence(&vec![1, 2, 3], &vec![1, 2]));
    assert!(!same_sequence(&vec![1, 2], &vec![1, 2, 3]));
    assert!(!same_sequence(&vec![1, 2, 3], &vec![1, 2, 4]));
    assert!(!same_sequence(&vec![1, 2, 3], &vec![3, 2, 1]));
    assert!(!same_sequence(&vec![], &vec![0]));
}
