use std::time::{Duration, Instant};

use quartz::backend::ScalarBackend;
use quartz::parity::{Comparison, Disagreement, ParityTolerance, ShapeMismatch};
use quartz::tensor::Tensor;

type Pair = fn(f32, f32) -> f32;

fn comparison() -> Comparison<
    f32,
    f64,
    fn(f32) -> u32,
    Pair,
    Pair,
    fn(f64, f32) -> f64,
    fn(f64, f32, f32) -> f64,
    fn(f64) -> bool,
    fn(f64, f64) -> bool,
    fn(f64, f64, f64) -> f64,
    fn(f64, usize) -> f64,
> {
    Comparison {
        zero: 0.0,
        infinity: f32::INFINITY,
        wide_zero: 0.0,
        wide_one: 1.0,
        wide_nan: f64::NAN,
        wide_infinity: f64::INFINITY,
        bits: |x| x.to_bits(),
        error: |a, b| (a - b).abs(),
        larger: |a, b| a.max(b),
        add_error: |sum, error| sum + error as f64,
        mac: |sum, a, b| sum + a as f64 * b as f64,
        is_zero: |sum| sum == 0.0,
        equal: |a, b| a == b,
        cosine: |dot, a, b| dot / (a.sqrt() * b.sqrt()),
        mean: |sum, n| sum / n as f64,
    }
}

#[test]
fn awkward_shape_backend_add_has_exact_parity() {
    let left = Tensor::new(
        vec![2, 3, 5],
        (0..30).map(|index| index as f32 * 0.125 - 1.5).collect(),
    )
    .unwrap();
    let right = Tensor::new(
        vec![2, 3, 5],
        (0..30)
            .map(|index| ((index * 7) % 13) as f32 * -0.0625)
            .collect(),
    )
    .unwrap();
    let started = Instant::now();
    let parity = match comparison().compare_backends(
        &ScalarBackend,
        &ScalarBackend,
        |backend: &ScalarBackend| backend.add(&left, &right, |a, b| a + b),
    ) {
        Ok(parity) => parity,
        Err(_) => panic!("the backends cannot be compared"),
    };
    let runtime = started.elapsed();
    assert_eq!(parity.reference_backend, "scalar-cpu");
    assert_eq!(parity.candidate_backend, "scalar-cpu");
    assert!(runtime <= Duration::from_secs(2));
    assert_eq!(parity.metrics.shape, [2, 3, 5]);
    assert_eq!(parity.metrics.elements, 30);
    assert_eq!(parity.metrics.cosine_similarity, 1.0);
    assert_eq!(parity.metrics.maximum_absolute_error, 0.0);
    assert_eq!(parity.metrics.mean_absolute_error, 0.0);
    parity
        .metrics
        .require(
                ParityTolerance {
            minimum_cosine_similarity: 1.0,
            maximum_absolute_error: 0.0,
            maximum_mean_absolute_error: 0.0,
        },
                |a, b| a < b,
                |a, b| a > b,
            )
        .unwrap();
}

#[test]
fn reports_shape_mismatch_before_comparing_values() {
    let actual = Tensor::zeros(vec![2, 3], 0.0).unwrap();
    let expected = Tensor::zeros(vec![3, 2], 0.0).unwrap();
    assert!(comparison().compare_tensors(&actual, &expected).is_err());
}

#[test]
fn counts_nan_and_infinity_and_rejects_them() {
    let actual = Tensor::new(vec![4], vec![1.0, f32::NAN, f32::INFINITY, 4.0]).unwrap();
    let expected = Tensor::new(vec![4], vec![1.0, 2.0, 3.0, f32::NEG_INFINITY]).unwrap();
    let metrics = comparison().compare_tensors(&actual, &expected).unwrap();
    assert_eq!(metrics.actual_nan_count, 1);
    assert_eq!(metrics.expected_nan_count, 0);
    assert_eq!(metrics.actual_infinity_count, 1);
    assert_eq!(metrics.expected_infinity_count, 1);
    assert!(metrics.cosine_similarity.is_nan());
    assert!(metrics.maximum_absolute_error.is_infinite());
    assert!(metrics.mean_absolute_error.is_infinite());
    assert!(
        metrics
            .require(
                ParityTolerance {
                minimum_cosine_similarity: 0.0,
                maximum_absolute_error: f32::INFINITY,
                maximum_mean_absolute_error: f64::INFINITY,
            },
                |a, b| a < b,
                |a, b| a > b,
            )
            .is_err()
    );
}

#[test]
fn a_measured_difference_is_reported() {
    let actual = Tensor::new(vec![2], vec![1.0, 2.0]).unwrap();
    let expected = Tensor::new(vec![2], vec![1.0, 2.5]).unwrap();
    let metrics = comparison().compare_tensors(&actual, &expected).unwrap();
    assert_eq!(metrics.maximum_absolute_error, 0.5);
    assert_eq!(metrics.mean_absolute_error, 0.25);
    let strict = ParityTolerance {
        minimum_cosine_similarity: 0.0,
        maximum_absolute_error: 0.25,
        maximum_mean_absolute_error: 1.0,
    };
    assert_eq!(
        metrics.require(strict, |a, b| a < b, |a, b| a > b),
        Err(Disagreement::MaximumError { measured: 0.5, limit: 0.25 })
    );
    let strict = ParityTolerance {
        minimum_cosine_similarity: 2.0,
        maximum_absolute_error: 0.25,
        maximum_mean_absolute_error: 1.0,
    };
    assert_eq!(
        metrics.require(strict, |a, b| a < b, |a, b| a > b),
        Err(Disagreement::Cosine { measured: metrics.cosine_similarity, limit: 2.0 })
    );
    let strict = ParityTolerance {
        minimum_cosine_similarity: 0.0,
        maximum_absolute_error: 1.0,
        maximum_mean_absolute_error: 0.125,
    };
    assert_eq!(
        metrics.require(strict, |a, b| a < b, |a, b| a > b),
        Err(Disagreement::MeanError { measured: 0.25, limit: 0.125 })
    );
}

#[test]
fn a_disagreement_tells_what_was_measured() {
    let show = |value: f32| format!("{value:.9}");
    let show_wide = |value: f64| format!("{value:.9}");
    let said = |error: Disagreement<f32, f64>| error.message(&show, &show_wide);
    assert_eq!(
        said(Disagreement::Cosine { measured: 0.5, limit: 0.75 }),
        "cosine similarity 0.500000000 is below 0.750000000"
    );
    assert_eq!(
        said(Disagreement::MaximumError { measured: 0.5, limit: 0.25 }),
        "maximum absolute error 0.500000000 exceeds 0.250000000"
    );
    assert_eq!(
        said(Disagreement::MeanError { measured: 0.25, limit: 0.125 }),
        "mean absolute error 0.250000000 exceeds 0.125000000"
    );
    assert_eq!(
        said(Disagreement::NonFinite {
            actual_nan: 1,
            actual_infinity: 2,
            expected_nan: 0,
            expected_infinity: 3,
        }),
        "parity comparison contains non-finite values: actual nan=1 inf=2, expected nan=0 inf=3"
    );
}

#[test]
fn a_shape_mismatch_names_both_shapes() {
    let actual = Tensor::zeros(vec![2, 3], 0.0).unwrap();
    let expected = Tensor::zeros(vec![3, 2], 0.0).unwrap();
    let error = comparison().compare_tensors(&actual, &expected).err().unwrap();
    assert_eq!(error, ShapeMismatch { actual: vec![2, 3], expected: vec![3, 2] });
    assert_eq!(error.message(), "parity shape mismatch: actual [2, 3], expected [3, 2]");
}
