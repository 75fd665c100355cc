use minmax_sim::sampler::run_batch;
use minmax_sim::sampler::run_batch_scalar;
use minmax_sim::sampler::FRACTION_MAX;

fn bound(num_samples: u64) -> u128 {
    num_samples as u128 * FRACTION_MAX as u128
}

const SCALE: f64 = 9007199254740992.0; // 2^53

#[test]
fn empty_run_is_exactly_zero() {
    for seed in [0u64, 1, 42, u64::MAX] {
        let batched = run_batch(0, seed);
        assert_eq!(batched.min_sum, 0);
        assert_eq!(batched.max_sum, 0);
        let scalar = run_batch_scalar(0, seed);
        assert_eq!(scalar.min_sum, 0);
        assert_eq!(scalar.max_sum, 0);
    }
}

#[test]
fn sums_stay_ordered_and_bounded() {
    for num_samples in [0u64, 1, 2, 3, 4, 5, 8, 33, 100, 1023] {
        for seed in [0u64, 1, 7, 0xdead_beef, u64::MAX] {
            let r = run_batch(num_samples, seed);
            assert!(r.min_sum <= r.max_sum);
            assert!(r.max_sum <= bound(num_samples));
            let s = run_batch_scalar(num_samples, seed);
            assert!(s.min_sum <= s.max_sum);
            assert!(s.max_sum <= bound(num_samples));
        }
    }
}

#[test]
fn both_paths_behave_on_small_fixed_seeds() {
    // A fixed seed and sample counts around the batch width: each path
    // individually keeps its sums ordered and within range.
    for num_samples in [4u64, 5, 8] {
        let seed = 123456789;
        let batched = run_batch(num_samples, seed);
        assert!(batched.min_sum <= batched.max_sum);
        assert!(batched.max_sum <= bound(num_samples));
        let scalar = run_batch_scalar(num_samples, seed);
        assert!(scalar.min_sum <= scalar.max_sum);
        assert!(scalar.max_sum <= bound(num_samples));
    }
}

#[test]
fn paths_agree_below_the_batch_width() {
    // With fewer samples than one batch the batched path degenerates to
    // the scalar loop over the same word stream, so the sums agree bit
    // for bit.
    for num_samples in 0u64..4 {
        for seed in [3u64, 999, 0x1234_5678_9abc_def0] {
            assert_eq!(run_batch(num_samples, seed), run_batch_scalar(num_samples, seed));
        }
    }
}

#[test]
fn runs_are_deterministic_in_the_seed() {
    let a = run_batch(257, 0xfeed);
    let b = run_batch(257, 0xfeed);
    assert_eq!(a, b);
    let c = run_batch_scalar(257, 0xfeed);
    let d = run_batch_scalar(257, 0xfeed);
    assert_eq!(c, d);
}

#[test]
fn seed_changes_the_stream() {
    // Would fail if the generator wrapper ignored its seed or state.
    let a = run_batch(1000, 1);
    let b = run_batch(1000, 2);
    assert_ne!(a, b);
}

#[test]
fn sample_means_track_the_thirds() {
    let num_samples = 100_000u64;
    let r = run_batch(num_samples, 0xabcdef);
    let mean_min = r.min_sum as f64 / SCALE / num_samples as f64;
    let mean_max = r.max_sum as f64 / SCALE / num_samples as f64;
    assert!((mean_min - 1.0 / 3.0).abs() < 0.01);
    assert!((mean_max - 2.0 / 3.0).abs() < 0.01);

    let s = run_batch_scalar(num_samples, 0xabcdef);
    let mean_min = s.min_sum as f64 / SCALE / num_samples as f64;
    let mean_max = s.max_sum as f64 / SCALE / num_samples as f64;
    assert!((mean_min - 1.0 / 3.0).abs() < 0.01);
    assert!((mean_max - 2.0 / 3.0).abs() < 0.01);
}
