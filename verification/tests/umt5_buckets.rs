use quartz::umt5_buckets::relative_bucket;

/// How many of `parts` logarithmic bins a distance lies beyond `exact`, on the way to `far`.
fn steps(n: usize, exact: usize, far: usize, parts: usize) -> usize {
    let ratio = (n as f32 / exact as f32).ln();
    let span = (far as f32 / exact as f32).ln();
    (ratio / span * parts as f32) as usize
}

#[test]
fn bucketing_places_near_positions_in_their_own_bucket() {
    // Bidirectional: 32 buckets total, 16 per direction, first 8 of each are exact.
    assert_eq!(relative_bucket(0, 32, 128, &steps), 0);
    assert_eq!(relative_bucket(1, 32, 128, &steps), 16 + 1, "positive offsets sit in the upper half");
    assert_eq!(relative_bucket(-1, 32, 128, &steps), 1);
    assert_eq!(relative_bucket(7, 32, 128, &steps), 16 + 7);
    assert_eq!(relative_bucket(-7, 32, 128, &steps), 7);
}

#[test]
fn bucketing_is_logarithmic_beyond_the_exact_range() {
    // Distant positions must compress into the remaining buckets, never run off the end.
    for rel in [8, 16, 64, 127, 128, 1000, 100_000] {
        let b = relative_bucket(rel, 32, 128, &steps);
        assert!((16..32).contains(&b), "rel {rel} -> bucket {b} out of the positive half");
        let b = relative_bucket(-rel, 32, 128, &steps);
        assert!((0..16).contains(&b), "rel -{rel} -> bucket {b} out of the negative half");
    }
}

#[test]
fn bucketing_is_monotonic_in_distance() {
    let mut prev = 0;
    for rel in 0..2000 {
        let b = relative_bucket(rel, 32, 128, &steps);
        assert!(b >= prev, "bucket must not decrease as distance grows ({rel})");
        prev = b;
    }
}

#[test]
fn bins_are_those_of_the_given_steps() {
    // Every other distance starts a bin of its own here.
    let halves = |n: usize, exact: usize, far: usize, parts: usize| {
        assert_eq!((exact, far, parts), (2, 40, 3));
        (n - exact) / 2
    };
    let found: Vec<usize> = (0..8).map(|rel| relative_bucket(-rel, 10, 40, &halves)).collect();
    assert_eq!(found, vec![0, 1, 2, 2, 3, 3, 4, 4]);
    assert_eq!(relative_bucket(1000, 10, 40, &halves), 9);
}

#[test]
fn bins_start_at_equal_ratios() {
    // Eight equal ratios lead from 8 to 128: 16, 32 and 64 start the third, fifth and seventh.
    assert_eq!(relative_bucket(-15, 32, 128, &steps), 9);
    assert_eq!(relative_bucket(-16, 32, 128, &steps), 10);
    assert_eq!(relative_bucket(-32, 32, 128, &steps), 12);
    assert_eq!(relative_bucket(-64, 32, 128, &steps), 14);
    assert_eq!(relative_bucket(i32::MIN, 32, 128, &steps), 15);
}

#[test]
fn few_buckets_share_one_per_direction() {
    assert_eq!(relative_bucket(5, 2, 128, &steps), 1);
    assert_eq!(relative_bucket(-5, 2, 128, &steps), 0);
    assert_eq!(relative_bucket(0, 3, 128, &steps), 0);
}
