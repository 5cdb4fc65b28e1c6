//! Arithmetic that makes no rounding errors: what sums come to, whatever the elements are, where
//! each stands for a whole number and the operations are exact.

use vstd::prelude::*;
use crate::fold;

verus! {

/// The sum of the first `n` terms.
pub open spec fn sum(n: nat, term: spec_fn(int) -> int) -> int
    decreases n,
{
    if n == 0 {
        0
    } else {
        sum((n - 1) as nat, term) + term(n - 1)
    }
}

/// Sums of equal terms are equal.
pub proof fn lemma_sum_same(n: nat, left: spec_fn(int) -> int, right: spec_fn(int) -> int)
    requires
        forall|i: int| 0 <= i < n ==> #[trigger] left(i) == right(i),
    ensures
        sum(n, left) == sum(n, right),
    decreases n,
{
    if n > 0 {
        lemma_sum_same((n - 1) as nat, left, right);
        assert(left(n - 1) == right(n - 1));
    }
}

/// A sum is the sum of its first part and of the rest.
pub proof fn lemma_sum_split(m: nat, n: nat, term: spec_fn(int) -> int)
    ensures
        sum(m + n, term) == sum(m, term) + sum(n, |i: int| term(m + i)),
    decreases n,
{
    if n > 0 {
        lemma_sum_split(m, (n - 1) as nat, term);
    }
}

/// A sum over the cells of a table is the sum of the sums of its rows.
pub proof fn lemma_sum_rows(m: nat, n: nat, term: spec_fn(int) -> int)
    ensures
        sum(m * n, term) == sum(m, |i: int| sum(n, |j: int| term(i * n + j))),
    decreases m,
{
    let rows = |i: int| sum(n, |j: int| term(i * n + j));
    if m > 0 {
        let k = (m - 1) as nat;
        lemma_sum_rows(k, n, term);
        assert(m * n == k * n + n) by (nonlinear_arith)
            requires
                m == k + 1,
        ;
        lemma_sum_split(k * n, n, term);
        assert(rows(k as int) == sum(n, |j: int| term(k * n + j)));
    } else {
        assert(m * n == 0) by (nonlinear_arith)
            requires
                m == 0,
        ;
    }
}

/// A sum of sums of two terms.
pub proof fn lemma_sum_add(n: nat, left: spec_fn(int) -> int, right: spec_fn(int) -> int)
    ensures
        sum(n, |i: int| left(i) + right(i)) == sum(n, left) + sum(n, right),
    decreases n,
{
    if n > 0 {
        lemma_sum_add((n - 1) as nat, left, right);
    }
}

/// A factor can be taken out of a sum.
pub proof fn lemma_sum_scale(n: nat, factor: int, term: spec_fn(int) -> int)
    ensures
        sum(n, |i: int| factor * term(i)) == factor * sum(n, term),
    decreases n,
{
    if n > 0 {
        lemma_sum_scale((n - 1) as nat, factor, term);
        let rest = sum((n - 1) as nat, term);
        assert(factor * rest + factor * term(n - 1) == factor * (rest + term(n - 1)))
            by (nonlinear_arith);
    } else {
        assert(factor * 0 == 0) by (nonlinear_arith);
    }
}

/// `mac` adds the product of its last two arguments to the first.
pub open spec fn multiplies_and_adds<T, F: Fn(T, T, T) -> T>(
    mac: F,
    value: spec_fn(T) -> int,
) -> bool {
    forall|a: T, b: T, c: T, r: T| #[trigger]
        call_ensures(mac, (a, b, c), r) ==> value(r) == value(a) + value(b) * value(c)
}

/// `plus` adds its arguments.
pub open spec fn adds<T, P: Fn(T, T) -> T>(plus: P, value: spec_fn(T) -> int) -> bool {
    forall|a: T, b: T, r: T| #[trigger]
        call_ensures(plus, (a, b), r) ==> value(r) == value(a) + value(b)
}

/// A sum of products comes to the sum of the products of what its elements stand for.
pub proof fn lemma_accumulates<T, F: Fn(T, T, T) -> T>(
    mac: F,
    value: spec_fn(T) -> int,
    left: Seq<T>,
    right: Seq<T>,
    taps: Seq<(int, int)>,
    start: T,
    total: T,
)
    requires
        multiplies_and_adds(mac, value),
        fold::accumulates(mac, left, right, taps, start, total),
    ensures
        value(total) == value(start) + sum(
            taps.len(),
            |i: int| value(left[taps[i].0]) * value(right[taps[i].1]),
        ),
    decreases taps.len(),
{
    if taps.len() > 0 {
        let init = taps.drop_last();
        let partial = choose|partial: T|
            {
                &&& fold::accumulates(mac, left, right, init, start, partial)
                &&& #[trigger] call_ensures(
                    mac,
                    (partial, left[taps.last().0], right[taps.last().1]),
                    total,
                )
            };
        lemma_accumulates(mac, value, left, right, init, start, partial);
        let n = (taps.len() - 1) as nat;
        let all = |i: int| value(left[taps[i].0]) * value(right[taps[i].1]);
        let some = |i: int| value(left[init[i].0]) * value(right[init[i].1]);
        assert forall|i: int| 0 <= i < n implies #[trigger] all(i) == some(i) by {
            assert(init[i] == taps[i]);
        }
        lemma_sum_same(n, all, some);
        assert(all(n as int) == value(left[taps.last().0]) * value(right[taps.last().1]));
    }
}

} // verus!
