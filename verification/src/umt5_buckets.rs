//! Relative-position buckets of the UMT5 text encoder.

use vstd::prelude::*;

verus! {

/// The distance of a relative position.
pub open spec fn distance(rel: i32) -> nat {
    if rel < 0 {
        (-rel) as nat
    } else {
        rel as nat
    }
}

/// How many of the buckets of one direction hold one distance each.
pub open spec fn exact_buckets(n_buckets: nat) -> nat {
    n_buckets / 2 / 2
}

/// The bucket of a relative position, of which `step` buckets lie beyond those that hold one
/// distance each. Positions ahead have the upper half of the buckets, and the last bucket of a half
/// holds whatever lies beyond.
pub open spec fn bucket(rel: i32, n_buckets: nat, step: nat) -> nat {
    let half = n_buckets / 2;
    let exact = exact_buckets(n_buckets);
    (if rel > 0 {
        half
    } else {
        0
    }) + if distance(rel) < exact {
        distance(rel)
    } else if exact + step < half - 1 {
        exact + step
    } else {
        (half - 1) as nat
    }
}

/// What the number of steps of a distance is computed from: the distance, the distance that the
/// steps start at, the one that they lead to, and how many there are.
pub open spec fn ways(n: usize, n_buckets: usize, max_distance: usize) -> (
    usize,
    usize,
    usize,
    usize,
) {
    let half = n_buckets / 2;
    (n, half / 2, max_distance, (half - half / 2) as usize)
}

/// The steps of a distance can be computed and counted.
pub open spec fn countable<F: Fn(usize, usize, usize, usize) -> usize>(
    step: F,
    n: usize,
    n_buckets: usize,
    max_distance: usize,
) -> bool {
    exact_buckets(n_buckets as nat) <= n ==> {
        &&& call_requires(step, ways(n, n_buckets, max_distance))
        &&& forall|s: usize| #[trigger]
            call_ensures(step, ways(n, n_buckets, max_distance), s) ==> exact_buckets(
                n_buckets as nat,
            ) + s <= usize::MAX
    }
}

/// `index` is the bucket of a relative position.
pub open spec fn places<F: Fn(usize, usize, usize, usize) -> usize>(
    step: F,
    rel: i32,
    n_buckets: usize,
    max_distance: usize,
    index: usize,
) -> bool {
    if distance(rel) < exact_buckets(n_buckets as nat) {
        index == bucket(rel, n_buckets as nat, 0)
    } else {
        exists|s: usize| #[trigger]
            call_ensures(step, ways(distance(rel) as usize, n_buckets, max_distance), s) && index
                == bucket(rel, n_buckets as nat, s as nat)
    }
}

/// Every relative position has a bucket of its own direction: positions behind and the position
/// itself have the lower half of the buckets, positions ahead the upper half.
pub proof fn buckets_keep_to_their_half(rel: i32, n_buckets: nat, step: nat)
    requires
        n_buckets >= 2,
    ensures
        rel <= 0 ==> bucket(rel, n_buckets, step) < n_buckets / 2,
        rel > 0 ==> n_buckets / 2 <= bucket(rel, n_buckets, step) < 2 * (n_buckets / 2)
            <= n_buckets,
{
}

/// Distances below a quarter of the buckets have a bucket each.
pub proof fn near_positions_have_their_own_bucket(rel: i32, n_buckets: nat, step: nat)
    requires
        distance(rel) < n_buckets / 2 / 2,
    ensures
        rel <= 0 ==> bucket(rel, n_buckets, step) == distance(rel),
        rel > 0 ==> bucket(rel, n_buckets, step) == n_buckets / 2 + distance(rel),
{
}

/// Within a direction, a bucket never decreases as the distance and its steps grow.
pub proof fn buckets_follow_the_distance(
    near: i32,
    far: i32,
    n_buckets: nat,
    steps: nat,
    more: nat,
)
    requires
        n_buckets >= 2,
        distance(near) <= distance(far),
        steps <= more,
        near > 0 <==> far > 0,
    ensures
        bucket(near, n_buckets, steps) <= bucket(far, n_buckets, more),
{
}

/// T5's bidirectional relative-position bucket. Nearby positions get a bucket each, distant ones
/// are binned, and the sign chooses the half of the table. The number of bins that a distance lies
/// beyond the nearby ones is given by `step`, for the logarithmic bins the quotient of the
/// logarithms of `n / exact` and `max_distance / exact` times the number of bins, rounded down.
pub fn relative_bucket<F: Fn(usize, usize, usize, usize) -> usize>(
    rel: i32,
    n_buckets: usize,
    max_distance: usize,
    step: &F,
) -> (index: usize)
    requires
        n_buckets >= 2,
        countable(*step, distance(rel) as usize, n_buckets, max_distance),
    ensures
        places(*step, rel, n_buckets, max_distance, index),
        index < n_buckets,
{
    let half: usize = n_buckets / 2;
    let first: usize = if rel > 0 {
        half
    } else {
        0
    };
    let n: usize = if rel < 0 {
        (-(rel as i64)) as usize
    } else {
        rel as usize
    };
    let exact: usize = half / 2;
    if n < exact {
        return first + n;
    }
    let steps: usize = step(n, exact, max_distance, half - exact);
    proof {
        assert(call_ensures(*step, ways(n, n_buckets, max_distance), steps));
    }
    let large: usize = exact + steps;
    if large < half - 1 {
        first + large
    } else {
        first + (half - 1)
    }
}

} // verus!
