use permuted_multiples::decimal::split_digits;
use permuted_multiples::digits;
use permuted_multiples::sorting::sort_ascending;

fn sorted_numeral(n: u32) -> Vec<u32> {
    let mut written: Vec<u32> = n
        .to_string()
        .chars()
        .map(|c| c.to_digit(10).unwrap())
        .collect();
    written.sort();
    written
}

#[test]
fn digits_of_123_321_and_111() {
    assert_eq!(digits(123), vec![1, 2, 3]);
    assert_eq!(digits(321), vec![1, 2, 3]);
    assert_eq!(digits(111), vec![1, 1, 1]);
}

#[test]
fn digits_of_zero_is_a_single_zero() {
    assert_eq!(digits(0), vec![0]);
}

#[test]
fn digits_of_single_digit_numbers() {
    for n in 0..10u32 {
        assert_eq!(digits(n), vec![n]);
    }
}

#[test]
fn digits_keep_zeros_and_repeats() {
    assert_eq!(digits(10), vec![0, 1]);
    assert_eq!(digits(100), vec![0, 0, 1]);
    assert_eq!(digits(1_000_000), vec![0, 0, 0, 0, 0, 0, 1]);
    assert_eq!(digits(9_090), vec![0, 0, 9, 9]);
    assert_eq!(digits(7_077_707), vec![0, 0, 7, 7, 7, 7, 7]);
}

#[test]
fn digits_of_the_largest_number() {
    assert_eq!(digits(u32::MAX), vec![2, 2, 4, 4, 5, 6, 7, 9, 9, 9]);
    assert_eq!(digits(4_294_967_295).len(), 10);
}

#[test]
fn digits_are_as_many_as_the_numeral_has() {
    let samples: [u32; 14] = [
        0, 1, 9, 10, 11, 99, 100, 101, 999, 1_000, 65_535, 99_999, 100_000, u32::MAX,
    ];
    for n in samples {
        assert_eq!(digits(n).len(), n.to_string().len());
    }
    let mut power: u32 = 1;
    for length in 1..=10usize {
        assert_eq!(digits(power).len(), length);
        if length > 1 {
            assert_eq!(digits(power - 1).len(), length - 1);
        }
        if length < 10 {
            power *= 10;
        }
    }
}

#[test]
fn digits_ascend() {
    for n in (0..200_000u32).chain([999_999, 1_234_567_890, 4_000_000_000, u32::MAX]) {
        let sorted = digits(n);
        for pair in sorted.windows(2) {
            assert!(pair[0] <= pair[1]);
        }
        for d in &sorted {
            assert!(*d <= 9);
        }
    }
}

#[test]
fn digits_agree_with_the_sorted_numeral() {
    for n in 0..50_000u32 {
        assert_eq!(digits(n), sorted_numeral(n));
    }
    for n in [
        125_874,
        251_748,
        142_857,
        999_999_999,
        1_000_000_000,
        2_147_483_647,
        2_147_483_648,
        4_294_967_294,
        u32::MAX,
    ] {
        assert_eq!(digits(n), sorted_numeral(n));
    }
}

#[test]
fn digits_twice_gives_the_same_sequence() {
    for n in [0u32, 7, 42, 1_203, 142_857, 987_654_321, u32::MAX] {
        let first = digits(n);
        let second = digits(n);
        assert_eq!(first, second);
    }
}

#[test]
fn digits_of_125874_and_of_its_double() {
    assert_eq!(digits(125_874), vec![1, 2, 4, 5, 7, 8]);
    assert_eq!(digits(251_748), vec![1, 2, 4, 5, 7, 8]);
    assert_eq!(digits(125_874), digits(2 * 125_874));
}

#[test]
fn digits_differ_where_a_count_differs() {
    assert_ne!(digits(112), digits(122));
    assert_ne!(digits(12), digits(120));
    assert_ne!(digits(1), digits(11));
}

#[test]
fn split_digits_writes_the_numeral() {
    assert_eq!(split_digits(0), vec![0]);
    assert_eq!(split_digits(7), vec![7]);
    assert_eq!(split_digits(10), vec![1, 0]);
    assert_eq!(split_digits(1_203), vec![1, 2, 0, 3]);
    assert_eq!(split_digits(142_857), vec![1, 4, 2, 8, 5, 7]);
    assert_eq!(split_digits(u32::MAX), vec![4, 2, 9, 4, 9, 6, 7, 2, 9, 5]);
}

#[test]
fn sort_ascending_orders_and_keeps_every_entry() {
    assert_eq!(sort_ascending(vec![]), Vec::<u32>::new());
    assert_eq!(sort_ascending(vec![5]), vec![5]);
    assert_eq!(sort_ascending(vec![2, 1]), vec![1, 2]);
    assert_eq!(sort_ascending(vec![1, 4, 2, 8, 5, 7]), vec![1, 2, 4, 5, 7, 8]);
    assert_eq!(sort_ascending(vec![3, 3, 1, 3, 1]), vec![1, 1, 3, 3, 3]);
    assert_eq!(sort_ascending(vec![9, 8, 7, 6, 5, 4, 3, 2, 1, 0]), vec![0, 1, 2, 3, 4, 5, 6, 7, 8, 9]);
    assert_eq!(sort_ascending(vec![u32::MAX, 0, 17]), vec![0, 17, u32::MAX]);
}
