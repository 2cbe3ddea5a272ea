//! Percentiles of counts.

use ric3::unsize_percentile_calculator::UnsizePercentileCalculator;

/// The rank of the percentile at `ratio` among `count` values.
fn rank(ratio: f64, count: usize) -> usize {
    if count == 0 {
        0
    } else {
        (ratio * (count - 1) as f64).round() as usize
    }
}

fn percentile(calculator: &mut UnsizePercentileCalculator, ratio: f64) -> Option<usize> {
    let rank = rank(ratio, calculator.count());
    calculator.percentile(rank)
}

#[test]
fn test_percentile_calculator() {
    let mut calculator = UnsizePercentileCalculator::new();

    // Add some test data
    calculator.add(1);
    calculator.add(2);
    calculator.add(3);
    calculator.add(4);
    calculator.add(5);

    // Test different percentiles
    assert_eq!(percentile(&mut calculator, 0.75), Some(4)); // 75th percentile
    assert_eq!(percentile(&mut calculator, 0.5), Some(3)); // 50th percentile (median)
    assert_eq!(percentile(&mut calculator, 0.25), Some(2)); // 25th percentile
}

#[test]
fn unsize_percentile_calculator_test_empty_data() {
    let mut calculator = UnsizePercentileCalculator::new();
    assert_eq!(percentile(&mut calculator, 0.75), None);
}

#[test]
fn values_are_sorted_before_they_are_ranked() {
    let mut calculator = UnsizePercentileCalculator::new();
    for value in [9, 2, 7, 2, 5] {
        calculator.add(value);
    }
    assert_eq!(calculator.percentile(0), Some(2));
    assert_eq!(calculator.percentile(1), Some(2));
    assert_eq!(calculator.percentile(2), Some(5));
    assert_eq!(calculator.percentile(3), Some(7));
    assert_eq!(calculator.percentile(4), Some(9));
    assert_eq!(calculator.count(), 5);
}

#[test]
fn the_order_of_insertion_does_not_show() {
    let mut ascending = UnsizePercentileCalculator::new();
    let mut descending = UnsizePercentileCalculator::new();
    for value in 0..10 {
        ascending.add(value);
        descending.add(9 - value);
    }
    for k in 0..10 {
        assert_eq!(ascending.percentile(k), descending.percentile(k));
    }
}

#[test]
fn counts_start_over_after_a_reset() {
    let mut calculator = UnsizePercentileCalculator::new();
    calculator.add(3);
    calculator.reset();
    assert_eq!(calculator.count(), 0);
    assert_eq!(calculator.percentile(0), None);
    calculator.add(8);
    assert_eq!(calculator.percentile(0), Some(8));
}

#[test]
fn extreme_ratios_give_the_extremes_again_and_again() {
    let mut calculator = UnsizePercentileCalculator::new();
    for value in [6, 1, 9, 4] {
        calculator.add(value);
    }
    for _ in 0..2 {
        assert_eq!(percentile(&mut calculator, 0.0), Some(1));
        assert_eq!(percentile(&mut calculator, 1.0), Some(9));
        assert_eq!(percentile(&mut calculator, 0.5), Some(6));
        assert_eq!(calculator.count(), 4);
    }
}
