//! Element arithmetic supplied by the caller, and sums built from it.

use vstd::prelude::*;

verus! {

/// `mac` accepts every accumulator and every pair of factors.
pub open spec fn total3<T, F: Fn(T, T, T) -> T>(mac: F) -> bool {
    forall|a: T, b: T, c: T| #[trigger] call_requires(mac, (a, b, c))
}

/// `step` accepts every pair of arguments.
pub open spec fn total2<A, B, R, F: Fn(A, B) -> R>(step: F) -> bool {
    forall|a: A, b: B| #[trigger] call_requires(step, (a, b))
}

/// `step` accepts every triple of arguments.
pub open spec fn accepts3<A, B, C, R, F: Fn(A, B, C) -> R>(step: F) -> bool {
    forall|a: A, b: B, c: C| #[trigger] call_requires(step, (a, b, c))
}

/// `step` accepts every argument.
pub open spec fn total1<A, R, F: Fn(A) -> R>(step: F) -> bool {
    forall|a: A| #[trigger] call_requires(step, (a,))
}

/// `step` accepts every pair of arguments and always gives the same result for the same pair.
pub open spec fn function2<A, B, R, F: Fn(A, B) -> R>(step: F) -> bool {
    &&& total2(step)
    &&& forall|a: A, b: B, r: R, s: R|
        #![trigger call_ensures(step, (a, b), r), call_ensures(step, (a, b), s)]
        call_ensures(step, (a, b), r) && call_ensures(step, (a, b), s) ==> r == s
}

/// What `step` makes of a pair of arguments.
pub open spec fn applied2<A, B, R, F: Fn(A, B) -> R>(step: F, a: A, b: B) -> R {
    choose|r: R| call_ensures(step, (a, b), r)
}

/// `total` is what `mac` makes of `start` and the products named by `taps`, taken in order: each
/// tap names one element of `left` and one of `right`.
pub open spec fn accumulates<T, F: Fn(T, T, T) -> T>(
    mac: F,
    left: Seq<T>,
    right: Seq<T>,
    taps: Seq<(int, int)>,
    start: T,
    total: T,
) -> bool
    decreases taps.len(),
{
    if taps.len() == 0 {
        total == start
    } else {
        exists|partial: T|
            {
                &&& accumulates(mac, left, right, taps.drop_last(), start, partial)
                &&& #[trigger] call_ensures(
                    mac,
                    (partial, left[taps.last().0], right[taps.last().1]),
                    total,
                )
            }
    }
}

/// One more product extends a sum.
pub proof fn lemma_accumulates_push<T, F: Fn(T, T, T) -> T>(
    mac: F,
    left: Seq<T>,
    right: Seq<T>,
    taps: Seq<(int, int)>,
    tap: (int, int),
    start: T,
    partial: T,
    total: T,
)
    requires
        accumulates(mac, left, right, taps, start, partial),
        call_ensures(mac, (partial, left[tap.0], right[tap.1]), total),
    ensures
        accumulates(mac, left, right, taps.push(tap), start, total),
{
    let longer = taps.push(tap);
    assert(longer.drop_last() =~= taps);
    assert(longer.last() == tap);
    assert(call_ensures(mac, (partial, left[longer.last().0], right[longer.last().1]), total));
}

/// `n` consecutive taps from the given starting elements.
pub open spec fn run(left: int, right: int, n: nat) -> Seq<(int, int)> {
    Seq::new(n, |i: int| (left + i, right + i))
}

/// The sum over `n` consecutive elements of both sides.
pub fn dot<T: Copy, F: Fn(T, T, T) -> T>(
    left: &[T],
    left_start: usize,
    right: &[T],
    right_start: usize,
    n: usize,
    start: T,
    mac: &F,
) -> (total: T)
    requires
        left_start + n <= left@.len(),
        right_start + n <= right@.len(),
        total3(*mac),
    ensures
        accumulates(
            *mac,
            left@,
            right@,
            run(left_start as int, right_start as int, n as nat),
            start,
            total,
        ),
{
    let mut total = start;
    let mut i: usize = 0;
    proof {
        assert(run(left_start as int, right_start as int, 0) =~= Seq::empty());
    }
    while i < n
        invariant
            i <= n,
            left_start + n <= left@.len(),
            right_start + n <= right@.len(),
            total3(*mac),
            accumulates(
                *mac,
                left@,
                right@,
                run(left_start as int, right_start as int, i as nat),
                start,
                total,
            ),
        decreases n - i,
    {
        let ghost partial = total;
        total = mac(total, left[left_start + i], right[right_start + i]);
        proof {
            let taps = run(left_start as int, right_start as int, i as nat);
            lemma_accumulates_push(
                *mac,
                left@,
                right@,
                taps,
                (left_start + i, right_start + i),
                start,
                partial,
                total,
            );
            assert(taps.push((left_start + i, right_start + i)) =~= run(
                left_start as int,
                right_start as int,
                (i + 1) as nat,
            ));
        }
        i = i + 1;
    }
    total
}

} // verus!
