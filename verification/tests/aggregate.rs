use minmax_sim::aggregate::estimate_sums;
use minmax_sim::aggregate::reduce;
use minmax_sim::sampler::FRACTION_MAX;
use minmax_sim::ConfigError;
use minmax_sim::PartialResult;

const SCALE: f64 = 9007199254740992.0; // 2^53

fn estimate(total_simulations: u64, num_threads: u64) -> (f64, f64) {
    let sums = estimate_sums(total_simulations, num_threads).unwrap();
    (
        sums.min_sum as f64 / SCALE / total_simulations as f64,
        sums.max_sum as f64 / SCALE / total_simulations as f64,
    )
}

#[test]
fn reduce_sums_both_fields() {
    let partials = vec![
        PartialResult { min_sum: 1, max_sum: 10 },
        PartialResult { min_sum: 2, max_sum: 20 },
        PartialResult { min_sum: 3, max_sum: 30 },
    ];
    let total = reduce(&partials);
    assert_eq!(total, PartialResult { min_sum: 6, max_sum: 60 });
}

#[test]
fn reduce_of_nothing_is_zero() {
    let total = reduce(&Vec::new());
    assert_eq!(total, PartialResult { min_sum: 0, max_sum: 0 });
}

#[test]
fn reduction_order_does_not_change_totals() {
    let a = PartialResult { min_sum: 11, max_sum: 40 };
    let b = PartialResult { min_sum: 5, max_sum: 17 };
    let c = PartialResult { min_sum: 23, max_sum: 99 };
    let orders = [
        vec![a, b, c],
        vec![a, c, b],
        vec![b, a, c],
        vec![b, c, a],
        vec![c, a, b],
        vec![c, b, a],
    ];
    let reference = reduce(&orders[0]);
    for order in &orders {
        // Integer sums: every order agrees exactly, not merely within a
        // rounding tolerance.
        assert_eq!(reduce(order), reference);
    }
}

#[test]
fn zero_threads_is_a_configuration_error() {
    assert_eq!(estimate_sums(100, 0), Err(ConfigError::ZeroThreads));
    assert_eq!(estimate_sums(0, 0), Err(ConfigError::ZeroThreads));
}

#[test]
fn any_positive_thread_count_succeeds() {
    for num_threads in [1u64, 2, 3, 16] {
        assert!(estimate_sums(1000, num_threads).is_ok());
    }
}

#[test]
fn estimate_respects_the_invariant_bounds() {
    let sums = estimate_sums(1000, 3).unwrap();
    assert!(sums.min_sum <= sums.max_sum);
    assert!(sums.max_sum <= 1000u128 * FRACTION_MAX as u128);
    let (expected_min, expected_max) = estimate(1000, 3);
    assert!((0.0..=1.0).contains(&expected_min));
    assert!((0.0..=1.0).contains(&expected_max));
    assert!(expected_min <= expected_max);
}

#[test]
fn estimate_converges_to_the_thirds() {
    let (expected_min, expected_max) = estimate(10_000_000, 4);
    assert!((expected_min - 1.0 / 3.0).abs() < 0.001);
    assert!((expected_max - 2.0 / 3.0).abs() < 0.001);
}

#[test]
fn thread_count_does_not_bias_the_estimate() {
    let total = 2_000_000u64;
    let (min_one, max_one) = estimate(total, 1);
    let (min_five, max_five) = estimate(total, 5);
    // Both converge to the same limits within sampling noise on the
    // order of 1/sqrt(total).
    assert!((min_one - 1.0 / 3.0).abs() < 0.002);
    assert!((min_five - 1.0 / 3.0).abs() < 0.002);
    assert!((max_one - 2.0 / 3.0).abs() < 0.002);
    assert!((max_five - 2.0 / 3.0).abs() < 0.002);
    assert!((min_one - min_five).abs() < 0.004);
    assert!((max_one - max_five).abs() < 0.004);
}

#[test]
fn zero_simulations_estimate_is_zero_sums() {
    let sums = estimate_sums(0, 2).unwrap();
    assert_eq!(sums, PartialResult { min_sum: 0, max_sum: 0 });
}
