//! The median windows.

use ric3::duration::Duration;
use ric3::percentile::{BoundedMedianCalculator, MedianCalculator};

/// A bounded window from which the given share leaves when it is full.
fn bounded(max_size: usize, removal_ratio: f64) -> BoundedMedianCalculator {
    BoundedMedianCalculator::new(max_size, (max_size as f64 * removal_ratio) as usize)
}

#[test]
fn test_median_calculator_odd() {
    let mut calculator = MedianCalculator::new();

    calculator.add(Duration::from_millis(3));
    calculator.add(Duration::from_millis(1));
    calculator.add(Duration::from_millis(5));
    calculator.add(Duration::from_millis(2));
    calculator.add(Duration::from_millis(4));

    // Sorted: [1, 2, 3, 4, 5], median = 3
    assert_eq!(calculator.median(), Some(Duration::from_millis(3)));
}

#[test]
fn test_median_calculator_even() {
    let mut calculator = MedianCalculator::new();

    calculator.add(Duration::from_millis(1));
    calculator.add(Duration::from_millis(2));
    calculator.add(Duration::from_millis(3));
    calculator.add(Duration::from_millis(4));

    // Sorted: [1, 2, 3, 4], lower median = 2
    assert_eq!(calculator.median(), Some(Duration::from_millis(2)));
}

#[test]
fn test_median_single_element() {
    let mut calculator = MedianCalculator::new();
    calculator.add(Duration::from_millis(42));
    assert_eq!(calculator.median(), Some(Duration::from_millis(42)));
}

#[test]
fn percentile_test_empty_data() {
    let calculator = MedianCalculator::new();
    assert_eq!(calculator.median(), None);
}

#[test]
fn test_reset() {
    let mut calculator = MedianCalculator::new();
    calculator.add(Duration::from_millis(1));
    calculator.add(Duration::from_millis(2));
    calculator.reset();
    assert_eq!(calculator.median(), None);
    assert_eq!(calculator.count(), 0);
}

#[test]
fn test_remove_largest() {
    let mut calculator = MedianCalculator::new();
    for i in 1..=5 {
        calculator.add(Duration::from_millis(i));
    }
    // [1, 2, 3, 4, 5]
    calculator.remove_largest(2); // Remove 4 and 5
    // [1, 2, 3]
    assert_eq!(calculator.count(), 3);
    assert_eq!(calculator.median(), Some(Duration::from_millis(2)));
}

#[test]
fn test_remove_smallest() {
    let mut calculator = MedianCalculator::new();
    for i in 1..=5 {
        calculator.add(Duration::from_millis(i));
    }
    // [1, 2, 3, 4, 5]
    calculator.remove_smallest(2); // Remove 1 and 2
    // [3, 4, 5]
    assert_eq!(calculator.count(), 3);
    assert_eq!(calculator.median(), Some(Duration::from_millis(4)));
}

#[test]
fn test_remove_all() {
    let mut calculator = MedianCalculator::new();
    calculator.add(Duration::from_millis(1));
    calculator.add(Duration::from_millis(2));
    calculator.remove_largest(5); // More than count, clears all
    assert_eq!(calculator.count(), 0);
    assert_eq!(calculator.median(), None);
}

#[test]
fn test_remove_zero() {
    let mut calculator = MedianCalculator::new();
    calculator.add(Duration::from_millis(1));
    calculator.add(Duration::from_millis(2));
    calculator.remove_largest(0); // No-op
    calculator.remove_smallest(0); // No-op
    assert_eq!(calculator.count(), 2);
}

#[test]
fn test_insertion_order_independence() {
    let mut calc1 = MedianCalculator::new();
    let mut calc2 = MedianCalculator::new();

    // Add in different orders
    calc1.add(Duration::from_millis(5));
    calc1.add(Duration::from_millis(1));
    calc1.add(Duration::from_millis(3));

    calc2.add(Duration::from_millis(1));
    calc2.add(Duration::from_millis(3));
    calc2.add(Duration::from_millis(5));

    assert_eq!(calc1.median(), calc2.median());
}

#[test]
fn test_bounded_calculator_under_limit() {
    // max_size=10, removal_ratio=0.2 -> removes 1+1=2 when full
    let mut calc = bounded(10, 0.2);

    for i in 1..=5 {
        calc.add(Duration::from_millis(i));
    }

    assert_eq!(calc.count(), 5);
    assert_eq!(calc.median(), Some(Duration::from_millis(3)));
}

#[test]
fn test_bounded_calculator_triggers_removal() {
    // max_size=10, removal_ratio=0.4 -> removes 2+2=4 when count >= 10
    let mut calc = bounded(10, 0.4);

    // Add 10 elements [1..=10]
    for i in 1..=10 {
        calc.add(Duration::from_millis(i));
    }
    assert_eq!(calc.count(), 10);

    // Add 11th element, should trigger removal first
    // Before: [1,2,3,4,5,6,7,8,9,10] count=10
    // Remove 2 largest (9,10) and 2 smallest (1,2)
    // After removal: [3,4,5,6,7,8] count=6
    // Then add 11: [3,4,5,6,7,8,11] count=7
    calc.add(Duration::from_millis(11));
    assert_eq!(calc.count(), 7);
}

#[test]
fn test_bounded_calculator_preserves_middle() {
    // max_size=100, removal_ratio=0.2 -> removes 10+10=20 when full
    let mut calc = bounded(100, 0.2);

    // Add 100 elements [1..=100]
    for i in 1..=100 {
        calc.add(Duration::from_millis(i));
    }

    // Median of [1..=100] is 50
    assert_eq!(calc.median(), Some(Duration::from_millis(50)));

    // Add 101st, triggers removal of 10 smallest and 10 largest
    // Removes [1..=10] and [91..=100], keeps [11..=90] (80 elements)
    // Then adds 101: [11..=90, 101] (81 elements)
    calc.add(Duration::from_millis(101));
    assert_eq!(calc.count(), 81);

    // Median of [11..=90, 101] -> sorted: [11,12,...,90,101]
    // 81 elements, median at index (81-1)/2 = 40 -> value is 11+40 = 51
    assert_eq!(calc.median(), Some(Duration::from_millis(51)));
}

#[test]
fn test_bounded_calculator_reset() {
    let mut calc = bounded(10, 0.2);
    for i in 1..=5 {
        calc.add(Duration::from_millis(i));
    }
    calc.reset();
    assert_eq!(calc.count(), 0);
    assert_eq!(calc.median(), None);
}

#[test]
fn default_window_is_empty() {
    let calculator = MedianCalculator::default();
    assert_eq!(calculator.count(), 0);
    assert_eq!(calculator.median(), None);
}

#[test]
fn equal_durations_all_count() {
    let mut calculator = MedianCalculator::new();
    for millis in [7, 7, 1, 7] {
        calculator.add(Duration::from_millis(millis));
    }
    assert_eq!(calculator.count(), 4);
    assert_eq!(calculator.median(), Some(Duration::from_millis(7)));
    calculator.remove_largest(3);
    assert_eq!(calculator.median(), Some(Duration::from_millis(1)));
}

#[test]
fn removing_exactly_all_clears() {
    let mut calculator = MedianCalculator::new();
    for millis in 1..=3 {
        calculator.add(Duration::from_millis(millis));
    }
    calculator.remove_smallest(3);
    assert_eq!(calculator.count(), 0);
    assert_eq!(calculator.median(), None);
}

#[test]
fn trimming_both_sides_keeps_an_odd_median() {
    let mut calculator = MedianCalculator::new();
    for millis in [50, 10, 40, 20, 30] {
        calculator.add(Duration::from_millis(millis));
    }
    let before = calculator.median();
    calculator.remove_largest(2);
    calculator.remove_smallest(2);
    assert_eq!(calculator.count(), 1);
    assert_eq!(calculator.median(), before);
}

#[test]
fn bounded_window_never_outgrows_its_size() {
    let mut calc = bounded(10, 0.2);
    for millis in 0..1000 {
        calc.add(Duration::from_millis(millis));
        assert!(calc.count() <= 10);
    }
}

#[test]
fn a_share_below_one_per_side_removes_nothing() {
    let mut calc = bounded(4, 0.25);
    for millis in 0..9 {
        calc.add(Duration::from_millis(millis));
    }
    assert_eq!(calc.count(), 9);
}

#[test]
fn durations_compare_by_length() {
    let second = Duration::new(1, 0);
    assert_eq!(second, Duration::from_millis(1000));
    assert_eq!(second.as_nanos(), 1_000_000_000);
    assert_eq!(Duration::new(2, 5_999_999).as_millis(), 2005);
    assert!(Duration::new(0, 999_999_999).shorter_than(&second));
    assert!(!second.shorter_than(&second));
    assert!(Duration::from_millis(2001).exceeds_multiple(&second, 2));
    assert!(!Duration::from_millis(2000).exceeds_multiple(&second, 2));
    assert!(!Duration::new(u64::MAX, 0).exceeds_multiple(&Duration::new(u64::MAX, 0), u32::MAX));
}
