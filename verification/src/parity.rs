//! How far two tensors agree.

use vstd::prelude::*;
use crate::backend::ScalarBackend;
use crate::backend_error::BackendError;
use crate::float_order;
use crate::float_order::{is_finite, is_nan};
use crate::fold;
use crate::tensor::{same_dims, Tensor};
use crate::text;
use crate::text::{push_bracketed, push_usize};

verus! {

broadcast use vstd::string::group_string_axioms;

/// The operations of a comparison, on elements of type `T` and sums of type `W`.
#[derive(Clone, Copy)]
pub struct Comparison<T, W, D, E, X, Y, M, O, S, R, N> {
    pub zero: T,
    pub infinity: T,
    pub wide_zero: W,
    pub wide_one: W,
    pub wide_nan: W,
    pub wide_infinity: W,
    /// The bit pattern of an element.
    pub bits: D,
    /// The absolute difference of two elements.
    pub error: E,
    pub larger: X,
    /// An error added to a sum.
    pub add_error: Y,
    /// A product of elements added to a sum.
    pub mac: M,
    /// Whether a sum is zero.
    pub is_zero: O,
    /// Whether two sums are equal.
    pub equal: S,
    /// A dot product divided by two norms.
    pub cosine: R,
    /// A sum divided by a count.
    pub mean: N,
}

/// How far two tensors agree.
#[derive(Clone, Debug, PartialEq)]
pub struct ParityMetrics<T, W> {
    pub shape: Vec<usize>,
    pub elements: usize,
    pub cosine_similarity: W,
    pub maximum_absolute_error: T,
    pub mean_absolute_error: W,
    pub actual_nan_count: usize,
    pub expected_nan_count: usize,
    pub actual_infinity_count: usize,
    pub expected_infinity_count: usize,
}

/// How far two tensors have to agree.
#[derive(Clone, Copy, Debug, PartialEq)]
pub struct ParityTolerance<T, W> {
    pub minimum_cosine_similarity: W,
    pub maximum_absolute_error: T,
    pub maximum_mean_absolute_error: W,
}

/// Tensors of different shapes.
#[derive(Clone, Debug, PartialEq, Eq)]
pub struct ShapeMismatch {
    pub actual: Vec<usize>,
    pub expected: Vec<usize>,
}

impl ShapeMismatch {
    /// What the message says.
    pub open spec fn text(&self) -> Seq<char> {
        "parity shape mismatch: actual "@ + text::bracketed(self.actual@) + ", expected "@
            + text::bracketed(self.expected@)
    }

    /// A message for the user.
    pub fn message(&self) -> (message: String)
        ensures
            message@ == self.text(),
    {
        let mut message = String::new();
        message.append("parity shape mismatch: actual ");
        push_bracketed(&mut message, &self.actual);
        message.append(", expected ");
        push_bracketed(&mut message, &self.expected);
        message
    }
}

/// Why two backends cannot be compared.
#[derive(Clone, Debug, PartialEq, Eq)]
pub enum ParityError {
    /// A backend refuses the work.
    Backend(BackendError),
    /// The backends give tensors of different shapes.
    Shape(ShapeMismatch),
}

/// How far two backends agree.
pub struct BackendParity<T, W> {
    pub reference_backend: &'static str,
    pub candidate_backend: &'static str,
    pub metrics: ParityMetrics<T, W>,
}

/// Why two tensors do not agree far enough, with what was measured and where the limit is.
#[derive(Clone, Copy, Debug, PartialEq)]
#[allow(inconsistent_fields)]
pub enum Disagreement<T, W> {
    NonFinite {
        actual_nan: usize,
        actual_infinity: usize,
        expected_nan: usize,
        expected_infinity: usize,
    },
    Cosine { measured: W, limit: W },
    MaximumError { measured: T, limit: T },
    MeanError { measured: W, limit: W },
}

/// A message says that what was measured is beyond a limit, with both numbers as `show` writes them.
pub open spec fn tells<V, S: Fn(V) -> String>(
    show: S,
    subject: Seq<char>,
    measured: V,
    relation: Seq<char>,
    limit: V,
    message: Seq<char>,
) -> bool {
    exists|first: String, second: String|
        {
            &&& #[trigger] call_ensures(show, (measured,), first)
            &&& #[trigger] call_ensures(show, (limit,), second)
            &&& message == subject + first@ + relation + second@
        }
}

/// Says that what was measured is beyond a limit.
fn tell<V, S: Fn(V) -> String>(
    show: &S,
    subject: &str,
    measured: V,
    relation: &str,
    limit: V,
) -> (message: String)
    requires
        forall|v: V| call_requires(*show, (v,)),
    ensures
        tells(*show, subject@, measured, relation@, limit, message@),
{
    let ghost given = (measured, limit);
    let first = show(measured);
    let second = show(limit);
    let mut message = String::new();
    message.append(subject);
    message.append(first.as_str());
    message.append(relation);
    message.append(second.as_str());
    proof {
        assert(call_ensures(*show, (given.0,), first));
        assert(call_ensures(*show, (given.1,), second));
        assert(message@ =~= subject@ + first@ + relation@ + second@);
    }
    message
}

impl<T, W> Disagreement<T, W> {
    /// A message tells of the disagreement. `show` and `show_wide` write what was measured, with
    /// nine decimals.
    pub open spec fn told<S: Fn(T) -> String, U: Fn(W) -> String>(
        self,
        show: S,
        show_wide: U,
        message: Seq<char>,
    ) -> bool {
        match self {
            Disagreement::NonFinite {
                actual_nan,
                actual_infinity,
                expected_nan,
                expected_infinity,
            } => message == "parity comparison contains non-finite values: actual nan="@
                + text::decimal(actual_nan as nat) + " inf="@ + text::decimal(
                actual_infinity as nat,
            ) + ", expected nan="@ + text::decimal(expected_nan as nat) + " inf="@ + text::decimal(
                expected_infinity as nat,
            ),
            Disagreement::Cosine { measured, limit } => tells(
                show_wide,
                "cosine similarity "@,
                measured,
                " is below "@,
                limit,
                message,
            ),
            Disagreement::MaximumError { measured, limit } => tells(
                show,
                "maximum absolute error "@,
                measured,
                " exceeds "@,
                limit,
                message,
            ),
            Disagreement::MeanError { measured, limit } => tells(
                show_wide,
                "mean absolute error "@,
                measured,
                " exceeds "@,
                limit,
                message,
            ),
        }
    }

    /// A message for the user. `show` and `show_wide` write what was measured, with nine decimals.
    pub fn message<S: Fn(T) -> String, U: Fn(W) -> String>(self, show: &S, show_wide: &U) -> (message:
        String)
        requires
            forall|v: T| call_requires(*show, (v,)),
            forall|v: W| call_requires(*show_wide, (v,)),
        ensures
            self.told(*show, *show_wide, message@),
    {
        match self {
            Disagreement::NonFinite {
                actual_nan,
                actual_infinity,
                expected_nan,
                expected_infinity,
            } => {
                let mut message = String::new();
                message.append("parity comparison contains non-finite values: actual nan=");
                push_usize(&mut message, actual_nan);
                message.append(" inf=");
                push_usize(&mut message, actual_infinity);
                message.append(", expected nan=");
                push_usize(&mut message, expected_nan);
                message.append(" inf=");
                push_usize(&mut message, expected_infinity);
                message
            },
            Disagreement::Cosine { measured, limit } => tell(
                show_wide,
                "cosine similarity ",
                measured,
                " is below ",
                limit,
            ),
            Disagreement::MaximumError { measured, limit } => tell(
                show,
                "maximum absolute error ",
                measured,
                " exceeds ",
                limit,
            ),
            Disagreement::MeanError { measured, limit } => tell(
                show_wide,
                "mean absolute error ",
                measured,
                " exceeds ",
                limit,
            ),
        }
    }
}

impl<T: Copy, W: Copy> ParityMetrics<T, W> {
    /// One of the tensors holds an infinity or something that is not a number.
    pub open spec fn unbounded(&self) -> bool {
        self.actual_nan_count != 0 || self.expected_nan_count != 0 || self.actual_infinity_count
            != 0 || self.expected_infinity_count != 0
    }

    /// Whether one of the tensors holds an infinity or something that is not a number.
    pub fn has_non_finite_values(&self) -> (r: bool)
        ensures
            r == self.unbounded(),
    {
        self.actual_nan_count != 0 || self.expected_nan_count != 0 || self.actual_infinity_count
            != 0 || self.expected_infinity_count != 0
    }

    /// Refuses tensors that do not agree far enough: first those with values that are not finite,
    /// then by cosine, by the greatest error and by the mean error.
    pub fn require<B: Fn(W, W) -> bool, A: Fn(T, T) -> bool>(
        &self,
        tolerance: ParityTolerance<T, W>,
        below: B,
        above: A,
    ) -> (result: Result<(), Disagreement<T, W>>)
        requires
            fold::total2(below),
            fold::total2(above),
        ensures
            self.unbounded() <==> result matches Err(Disagreement::NonFinite { .. }),
            result matches Err(
                Disagreement::NonFinite {
                    actual_nan,
                    actual_infinity,
                    expected_nan,
                    expected_infinity,
                },
            ) ==> actual_nan == self.actual_nan_count && actual_infinity
                == self.actual_infinity_count && expected_nan == self.expected_nan_count
                && expected_infinity == self.expected_infinity_count,
            !self.unbounded() ==> {
                let cosine = (self.cosine_similarity, tolerance.minimum_cosine_similarity);
                let maximum = (self.maximum_absolute_error, tolerance.maximum_absolute_error);
                let mean = (tolerance.maximum_mean_absolute_error, self.mean_absolute_error);
                match result {
                    Ok(()) => call_ensures(below, cosine, false) && call_ensures(
                        above,
                        maximum,
                        false,
                    ) && call_ensures(below, mean, false),
                    Err(Disagreement::Cosine { measured, limit }) => (measured, limit) == cosine
                        && call_ensures(below, cosine, true),
                    Err(Disagreement::MaximumError { measured, limit }) => (measured, limit)
                        == maximum && call_ensures(below, cosine, false) && call_ensures(
                        above,
                        maximum,
                        true,
                    ),
                    Err(Disagreement::MeanError { measured, limit }) => (limit, measured) == mean
                        && call_ensures(below, cosine, false) && call_ensures(
                        above,
                        maximum,
                        false,
                    ) && call_ensures(below, mean, true),
                    Err(Disagreement::NonFinite { .. }) => false,
                }
            },
    {
        if self.has_non_finite_values() {
            return Err(
                Disagreement::NonFinite {
                    actual_nan: self.actual_nan_count,
                    actual_infinity: self.actual_infinity_count,
                    expected_nan: self.expected_nan_count,
                    expected_infinity: self.expected_infinity_count,
                },
            );
        }
        if below(self.cosine_similarity, tolerance.minimum_cosine_similarity) {
            return Err(
                Disagreement::Cosine {
                    measured: self.cosine_similarity,
                    limit: tolerance.minimum_cosine_similarity,
                },
            );
        }
        if above(self.maximum_absolute_error, tolerance.maximum_absolute_error) {
            return Err(
                Disagreement::MaximumError {
                    measured: self.maximum_absolute_error,
                    limit: tolerance.maximum_absolute_error,
                },
            );
        }
        if below(tolerance.maximum_mean_absolute_error, self.mean_absolute_error) {
            return Err(
                Disagreement::MeanError {
                    measured: self.mean_absolute_error,
                    limit: tolerance.maximum_mean_absolute_error,
                },
            );
        }
        Ok(())
    }
}

/// An infinity.
pub open spec fn infinite(bits: u32) -> bool {
    !float_order::nan(bits) && !float_order::finite(bits)
}

/// How many of the bit patterns are not numbers.
pub open spec fn count_nan(bits: Seq<u32>) -> nat
    decreases bits.len(),
{
    if bits.len() == 0 {
        0
    } else {
        count_nan(bits.drop_last()) + if float_order::nan(bits.last()) {
            1nat
        } else {
            0nat
        }
    }
}

/// How many of the bit patterns are infinities.
pub open spec fn count_infinite(bits: Seq<u32>) -> nat
    decreases bits.len(),
{
    if bits.len() == 0 {
        0
    } else {
        count_infinite(bits.drop_last()) + if infinite(bits.last()) {
            1nat
        } else {
            0nat
        }
    }
}

/// There are no more of a kind than there are bit patterns.
proof fn lemma_counts(bits: Seq<u32>)
    ensures
        count_nan(bits) + count_infinite(bits) <= bits.len(),
    decreases bits.len(),
{
    if bits.len() > 0 {
        lemma_counts(bits.drop_last());
    }
}

/// Where nothing is counted, every bit pattern is that of a finite number.
pub proof fn nothing_counted_means_all_finite(bits: Seq<u32>)
    ensures
        count_nan(bits) == 0 && count_infinite(bits) == 0 <==> forall|i: int|
            0 <= i < bits.len() ==> float_order::finite(#[trigger] bits[i]),
    decreases bits.len(),
{
    if bits.len() > 0 {
        let init = bits.drop_last();
        nothing_counted_means_all_finite(init);
        assert forall|i: int| 0 <= i < init.len() implies init[i] == #[trigger] bits[i] by {}
        if count_nan(bits) == 0 && count_infinite(bits) == 0 {
            assert forall|i: int| 0 <= i < bits.len() implies float_order::finite(
                #[trigger] bits[i],
            ) by {
                if i < init.len() {
                    assert(float_order::finite(init[i]));
                }
            }
        } else if forall|i: int| 0 <= i < bits.len() ==> float_order::finite(#[trigger] bits[i]) {
            assert(float_order::finite(bits[bits.len() - 1]));
            assert forall|i: int| 0 <= i < init.len() implies float_order::finite(
                #[trigger] init[i],
            ) by {
                assert(float_order::finite(bits[i]));
            }
        }
    }
}

/// What has been added up over the pairs of finite elements so far.
pub struct Tally<T, W> {
    pub maximum: T,
    pub error_sum: W,
    pub dot: W,
    pub actual_norm: W,
    pub expected_norm: W,
}

impl<
    T: Copy,
    W: Copy,
    D: Fn(T) -> u32 + Copy,
    E: Fn(T, T) -> T + Copy,
    X: Fn(T, T) -> T + Copy,
    Y: Fn(W, T) -> W + Copy,
    M: Fn(W, T, T) -> W + Copy,
    O: Fn(W) -> bool + Copy,
    S: Fn(W, W) -> bool + Copy,
    R: Fn(W, W, W) -> W + Copy,
    N: Fn(W, usize) -> W + Copy,
> Comparison<T, W, D, E, X, Y, M, O, S, R, N> {
    /// Every operation accepts every argument.
    pub open spec fn usable(self) -> bool {
        &&& fold::total1(self.bits)
        &&& fold::total2(self.error)
        &&& fold::total2(self.larger)
        &&& fold::total2(self.add_error)
        &&& fold::accepts3(self.mac)
        &&& fold::total1(self.is_zero)
        &&& fold::total2(self.equal)
        &&& fold::accepts3(self.cosine)
        &&& fold::total2(self.mean)
    }

    /// `bits` are the bit patterns of elements.
    pub open spec fn shows(self, x: Seq<T>, bits: Seq<u32>) -> bool {
        &&& bits.len() == x.len()
        &&& forall|i: int|
            0 <= i < x.len() ==> call_ensures(self.bits, (x[i],), #[trigger] bits[i])
    }

    /// A pair of finite elements takes `before` to `after`.
    pub open spec fn counts(self, a: T, b: T, before: Tally<T, W>, after: Tally<T, W>) -> bool {
        &&& exists|error: T|
            {
                &&& #[trigger] call_ensures(self.error, (a, b), error)
                &&& call_ensures(self.larger, (before.maximum, error), after.maximum)
                &&& call_ensures(self.add_error, (before.error_sum, error), after.error_sum)
            }
        &&& call_ensures(self.mac, (before.dot, a, b), after.dot)
        &&& call_ensures(self.mac, (before.actual_norm, a, a), after.actual_norm)
        &&& call_ensures(self.mac, (before.expected_norm, b, b), after.expected_norm)
    }

    /// `tally` is what the pairs of finite elements among the first `n` add up to.
    pub open spec fn tallies(
        self,
        actual: Seq<T>,
        expected: Seq<T>,
        actual_bits: Seq<u32>,
        expected_bits: Seq<u32>,
        n: nat,
        tally: Tally<T, W>,
    ) -> bool
        decreases n,
    {
        if n == 0 {
            tally == (Tally {
                maximum: self.zero,
                error_sum: self.wide_zero,
                dot: self.wide_zero,
                actual_norm: self.wide_zero,
                expected_norm: self.wide_zero,
            })
        } else {
            let i = n - 1;
            if float_order::finite(actual_bits[i]) && float_order::finite(expected_bits[i]) {
                exists|before: Tally<T, W>|
                    {
                        &&& self.tallies(
                            actual,
                            expected,
                            actual_bits,
                            expected_bits,
                            i as nat,
                            before,
                        )
                        &&& #[trigger] self.counts(actual[i], expected[i], before, tally)
                    }
            } else {
                self.tallies(actual, expected, actual_bits, expected_bits, i as nat, tally)
            }
        }
    }

    /// `similarity` is the cosine of the angle between the tensors. Two zero tensors are alike, and
    /// a zero tensor is like no other.
    pub open spec fn similar(self, tally: Tally<T, W>, similarity: W) -> bool {
        exists|actual_zero: bool, expected_zero: bool|
            {
                &&& #[trigger] call_ensures(self.is_zero, (tally.actual_norm,), actual_zero)
                &&& #[trigger] call_ensures(self.is_zero, (tally.expected_norm,), expected_zero)
                &&& if actual_zero || expected_zero {
                    exists|same: bool|
                        {
                            &&& #[trigger] call_ensures(
                                self.equal,
                                (tally.actual_norm, tally.expected_norm),
                                same,
                            )
                            &&& similarity == if same {
                                self.wide_one
                            } else {
                                self.wide_zero
                            }
                        }
                } else {
                    call_ensures(
                        self.cosine,
                        (tally.dot, tally.actual_norm, tally.expected_norm),
                        similarity,
                    )
                }
            }
    }

    /// `metrics` measure how far two tensors agree.
    pub open spec fn measures(
        self,
        dims: Seq<usize>,
        actual: Seq<T>,
        expected: Seq<T>,
        actual_bits: Seq<u32>,
        expected_bits: Seq<u32>,
        metrics: ParityMetrics<T, W>,
    ) -> bool {
        &&& self.shows(actual, actual_bits)
        &&& self.shows(expected, expected_bits)
        &&& metrics.shape@ == dims
        &&& metrics.elements == actual.len()
        &&& metrics.actual_nan_count == count_nan(actual_bits)
        &&& metrics.expected_nan_count == count_nan(expected_bits)
        &&& metrics.actual_infinity_count == count_infinite(actual_bits)
        &&& metrics.expected_infinity_count == count_infinite(expected_bits)
        &&& if metrics.unbounded() {
            &&& metrics.cosine_similarity == self.wide_nan
            &&& metrics.maximum_absolute_error == self.infinity
            &&& metrics.mean_absolute_error == self.wide_infinity
        } else {
            exists|tally: Tally<T, W>|
                {
                    &&& #[trigger] self.tallies(
                        actual,
                        expected,
                        actual_bits,
                        expected_bits,
                        actual.len(),
                        tally,
                    )
                    &&& self.similar(tally, metrics.cosine_similarity)
                    &&& metrics.maximum_absolute_error == tally.maximum
                    &&& if actual.len() == 0 {
                        metrics.mean_absolute_error == self.wide_zero
                    } else {
                        call_ensures(
                            self.mean,
                            (tally.error_sum, actual.len() as usize),
                            metrics.mean_absolute_error,
                        )
                    }
                }
        }
    }

    /// `metrics` measure how far two tensors agree, by the bit patterns of their elements.
    pub open spec fn compares(
        self,
        dims: Seq<usize>,
        actual: Seq<T>,
        expected: Seq<T>,
        metrics: ParityMetrics<T, W>,
    ) -> bool {
        exists|actual_bits: Seq<u32>, expected_bits: Seq<u32>| #[trigger]
            self.measures(dims, actual, expected, actual_bits, expected_bits, metrics)
    }

    /// Measures how far two tensors of one shape agree.
    #[verifier::rlimit(30)]
    pub fn compare_tensors(&self, actual: &Tensor<T>, expected: &Tensor<T>) -> (result: Result<
        ParityMetrics<T, W>,
        ShapeMismatch,
    >)
        requires
            self.usable(),
            actual.wf(),
            expected.wf(),
        ensures
            match result {
                Ok(metrics) => actual.dims() == expected.dims() && self.compares(
                    actual.dims(),
                    actual@,
                    expected@,
                    metrics,
                ),
                Err(mismatch) => actual.dims() != expected.dims() && mismatch.actual@
                    == actual.dims() && mismatch.expected@ == expected.dims(),
            },
    {
        if !same_dims(actual.shape(), expected.shape()) {
            return Err(
                ShapeMismatch {
                    actual: vstd::slice::slice_to_vec(actual.shape()),
                    expected: vstd::slice::slice_to_vec(expected.shape()),
                },
            );
        }
        let a = actual.data();
        let e = expected.data();
        proof {
            assert(a@.len() == a.len());
            assert(e@.len() == e.len());
        }
        let mut actual_nan: usize = 0;
        let mut expected_nan: usize = 0;
        let mut actual_infinity: usize = 0;
        let mut expected_infinity: usize = 0;
        let mut maximum = self.zero;
        let mut error_sum = self.wide_zero;
        let mut dot = self.wide_zero;
        let mut actual_norm = self.wide_zero;
        let mut expected_norm = self.wide_zero;
        let ghost mut actual_bits: Seq<u32> = Seq::empty();
        let ghost mut expected_bits: Seq<u32> = Seq::empty();
        let mut i: usize = 0;
        while i < a.len()
            invariant
                self.usable(),
                i <= a@.len() == e@.len(),
                a@.len() == a.len(),
                e@.len() == e.len(),
                actual_bits.len() == i,
                expected_bits.len() == i,
                forall|j: int|
                    0 <= j < i ==> call_ensures(self.bits, (a@[j],), #[trigger] actual_bits[j]),
                forall|j: int|
                    0 <= j < i ==> call_ensures(self.bits, (e@[j],), #[trigger] expected_bits[j]),
                actual_nan == count_nan(actual_bits),
                expected_nan == count_nan(expected_bits),
                actual_infinity == count_infinite(actual_bits),
                expected_infinity == count_infinite(expected_bits),
                self.tallies(
                    a@,
                    e@,
                    actual_bits,
                    expected_bits,
                    i as nat,
                    Tally { maximum, error_sum, dot, actual_norm, expected_norm },
                ),
            decreases a.len() - i,
        {
            let left_bits: u32 = (self.bits)(a[i]);
            let right_bits: u32 = (self.bits)(e[i]);
            let ghost before = Tally { maximum, error_sum, dot, actual_norm, expected_norm };
            proof {
                let old_actual = actual_bits;
                let old_expected = expected_bits;
                lemma_counts(old_actual);
                lemma_counts(old_expected);
                actual_bits = actual_bits.push(left_bits);
                expected_bits = expected_bits.push(right_bits);
                assert(actual_bits.drop_last() =~= old_actual);
                assert(expected_bits.drop_last() =~= old_expected);
                self.lemma_tallies(
                    a@,
                    e@,
                    old_actual,
                    old_expected,
                    actual_bits,
                    expected_bits,
                    i as nat,
                    before,
                );
            }
            if is_nan(left_bits) {
                actual_nan = actual_nan + 1;
            } else if !is_finite(left_bits) {
                actual_infinity = actual_infinity + 1;
            }
            if is_nan(right_bits) {
                expected_nan = expected_nan + 1;
            } else if !is_finite(right_bits) {
                expected_infinity = expected_infinity + 1;
            }
            if is_finite(left_bits) && is_finite(right_bits) {
                let error = (self.error)(a[i], e[i]);
                maximum = (self.larger)(maximum, error);
                error_sum = (self.add_error)(error_sum, error);
                dot = (self.mac)(dot, a[i], e[i]);
                actual_norm = (self.mac)(actual_norm, a[i], a[i]);
                expected_norm = (self.mac)(expected_norm, e[i], e[i]);
                proof {
                    let after = Tally { maximum, error_sum, dot, actual_norm, expected_norm };
                    assert(self.counts(a@[i as int], e@[i as int], before, after));
                }
            }
            i = i + 1;
        }
        let elements: usize = a.len();
        let shape = vstd::slice::slice_to_vec(actual.shape());
        let ghost tally = Tally { maximum, error_sum, dot, actual_norm, expected_norm };
        if actual_nan != 0 || expected_nan != 0 || actual_infinity != 0 || expected_infinity != 0 {
            let metrics = ParityMetrics {
                shape,
                elements,
                cosine_similarity: self.wide_nan,
                maximum_absolute_error: self.infinity,
                mean_absolute_error: self.wide_infinity,
                actual_nan_count: actual_nan,
                expected_nan_count: expected_nan,
                actual_infinity_count: actual_infinity,
                expected_infinity_count: expected_infinity,
            };
            proof {
                assert(self.measures(
                    actual.dims(),
                    a@,
                    e@,
                    actual_bits,
                    expected_bits,
                    metrics,
                ));
                assert(self.compares(actual.dims(), actual@, expected@, metrics));
                assert(actual.dims() == expected.dims());
            }
            return Ok(metrics);
        }
        let actual_zero = (self.is_zero)(actual_norm);
        let expected_zero = (self.is_zero)(expected_norm);
        let cosine_similarity = if actual_zero || expected_zero {
            let same = (self.equal)(actual_norm, expected_norm);
            if same {
                self.wide_one
            } else {
                self.wide_zero
            }
        } else {
            (self.cosine)(dot, actual_norm, expected_norm)
        };
        let mean_absolute_error = if elements == 0 {
            self.wide_zero
        } else {
            (self.mean)(error_sum, elements)
        };
        let metrics = ParityMetrics {
            shape,
            elements,
            cosine_similarity,
            maximum_absolute_error: maximum,
            mean_absolute_error,
            actual_nan_count: actual_nan,
            expected_nan_count: expected_nan,
            actual_infinity_count: actual_infinity,
            expected_infinity_count: expected_infinity,
        };
        proof {
            assert(call_ensures(self.is_zero, (tally.actual_norm,), actual_zero));
            assert(call_ensures(self.is_zero, (tally.expected_norm,), expected_zero));
            assert(self.similar(tally, cosine_similarity));
            assert(self.tallies(a@, e@, actual_bits, expected_bits, a@.len(), tally));
            assert(self.measures(
                actual.dims(),
                a@,
                e@,
                actual_bits,
                expected_bits,
                metrics,
            ));
            assert(self.compares(actual.dims(), actual@, expected@, metrics));
        }
        Ok(metrics)
    }

    /// `result` is what comes of comparing the reference's tensor with the candidate's.
    pub open spec fn judges(
        self,
        expected: Tensor<T>,
        actual: Tensor<T>,
        result: Result<BackendParity<T, W>, ParityError>,
    ) -> bool {
        match result {
            Ok(parity) => {
                &&& actual.dims() == expected.dims()
                &&& self.compares(actual.dims(), actual@, expected@, parity.metrics)
                &&& parity.reference_backend@ == "scalar-cpu"@
                &&& parity.candidate_backend@ == "scalar-cpu"@
            },
            Err(ParityError::Shape(mismatch)) => {
                &&& actual.dims() != expected.dims()
                &&& mismatch.actual@ == actual.dims()
                &&& mismatch.expected@ == expected.dims()
            },
            Err(ParityError::Backend(_)) => false,
        }
    }

    /// Lets two backends do the same work and measures how far they agree: the reference first,
    /// then the candidate.
    pub fn compare_backends<Q: Fn(&ScalarBackend) -> Result<Tensor<T>, BackendError>>(
        &self,
        reference: &ScalarBackend,
        candidate: &ScalarBackend,
        execute: Q,
    ) -> (result: Result<BackendParity<T, W>, ParityError>)
        requires
            self.usable(),
            fold::total1(execute),
            forall|backend: &ScalarBackend, outcome: Result<Tensor<T>, BackendError>| #[trigger]
                call_ensures(execute, (backend,), outcome) && outcome is Ok
                    ==> outcome->Ok_0.wf(),
        ensures
            exists|expected: Result<Tensor<T>, BackendError>|
                {
                    &&& #[trigger] call_ensures(execute, (reference,), expected)
                    &&& match expected {
                        Err(error) => result == Err::<BackendParity<T, W>, _>(
                            ParityError::Backend(error),
                        ),
                        Ok(expected) => exists|actual: Result<Tensor<T>, BackendError>|
                            {
                                &&& #[trigger] call_ensures(execute, (candidate,), actual)
                                &&& match actual {
                                    Err(error) => result == Err::<BackendParity<T, W>, _>(
                                        ParityError::Backend(error),
                                    ),
                                    Ok(actual) => self.judges(expected, actual, result),
                                }
                            },
                    }
                },
    {
        let expected = match execute(reference) {
            Ok(tensor) => tensor,
            Err(error) => {
                return Err(ParityError::Backend(error));
            },
        };
        let actual = match execute(candidate) {
            Ok(tensor) => tensor,
            Err(error) => {
                proof {
                    assert(call_ensures(execute, (reference,), Ok(expected)));
                }
                return Err(ParityError::Backend(error));
            },
        };
        let result = match self.compare_tensors(&actual, &expected) {
            Ok(metrics) => Ok(
                BackendParity {
                    reference_backend: reference.name(),
                    candidate_backend: candidate.name(),
                    metrics,
                },
            ),
            Err(mismatch) => Err(ParityError::Shape(mismatch)),
        };
        proof {
            assert(call_ensures(execute, (reference,), Ok(expected)));
            assert(call_ensures(execute, (candidate,), Ok(actual)));
            assert(self.judges(expected, actual, result));
        }
        result
    }

    /// A tally over the first pairs depends on their bit patterns alone.
    proof fn lemma_tallies(
        self,
        actual: Seq<T>,
        expected: Seq<T>,
        actual_bits: Seq<u32>,
        expected_bits: Seq<u32>,
        more_actual: Seq<u32>,
        more_expected: Seq<u32>,
        n: nat,
        tally: Tally<T, W>,
    )
        requires
            self.tallies(actual, expected, actual_bits, expected_bits, n, tally),
            forall|i: int| 0 <= i < n ==> actual_bits[i] == #[trigger] more_actual[i],
            forall|i: int| 0 <= i < n ==> expected_bits[i] == #[trigger] more_expected[i],
        ensures
            self.tallies(actual, expected, more_actual, more_expected, n, tally),
        decreases n,
    {
        if n > 0 {
            let i = n - 1;
            assert(actual_bits[i] == more_actual[i]);
            assert(expected_bits[i] == more_expected[i]);
            if float_order::finite(actual_bits[i]) && float_order::finite(expected_bits[i]) {
                let before = choose|before: Tally<T, W>|
                    {
                        &&& self.tallies(
                            actual,
                            expected,
                            actual_bits,
                            expected_bits,
                            i as nat,
                            before,
                        )
                        &&& #[trigger] self.counts(actual[i], expected[i], before, tally)
                    };
                self.lemma_tallies(
                    actual,
                    expected,
                    actual_bits,
                    expected_bits,
                    more_actual,
                    more_expected,
                    i as nat,
                    before,
                );
            } else {
                self.lemma_tallies(
                    actual,
                    expected,
                    actual_bits,
                    expected_bits,
                    more_actual,
                    more_expected,
                    i as nat,
                    tally,
                );
            }
        }
    }
}

} // verus!
