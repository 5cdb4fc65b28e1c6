//! What the schedules do over all their steps, and what guides them.

use vstd::prelude::*;
use crate::fold;
use crate::reshape::Array;
use crate::safetensors::Scalar;
use crate::sd_generate;
use crate::sd_generate::Painter;
use crate::sd_pipeline::GenerationRequest;
use crate::sd_scheduler;
use crate::sd_scheduler::{Sd15Scheduler, SchedulerError};
use crate::sdxl_generate;
use crate::sdxl_generate::SdxlPainter;
use crate::sdxl_pipeline;
use crate::sdxl_scheduler;
use crate::tensor::Tensor;

verus! {

/// `x` times itself, `n` times.
pub open spec fn power(x: int, n: nat) -> int
    decreases n,
{
    if n == 0 {
        1
    } else {
        x * power(x, (n - 1) as nat)
    }
}

/// The sum of the numerators of an order, each times a power of how long ago its output came.
pub open spec fn moment(order: int, degree: nat, count: nat) -> int
    decreases count,
{
    if count == 0 {
        0
    } else {
        moment(order, degree, (count - 1) as nat) + sd_scheduler::coefficient(order, count - 1).0
            * power(-(count - 1), degree)
    }
}

proof fn lemma_powers(degree: nat)
    requires
        degree <= 3,
    ensures
        power(0, degree) == if degree == 0 {
            1int
        } else {
            0
        },
        power(-1, degree) == if degree % 2 == 0 {
            1int
        } else {
            -1
        },
        power(-2, 0) == 1,
        power(-2, 1) == -2,
        power(-2, 2) == 4,
        power(-2, 3) == -8,
        power(-3, 0) == 1,
        power(-3, 1) == -3,
        power(-3, 2) == 9,
        power(-3, 3) == -27,
{
    reveal_with_fuel(power, 5);
}

proof fn lemma_moment(order: int, degree: nat, count: nat, c: int, p: int)
    requires
        count > 0,
        sd_scheduler::coefficient(order, count - 1).0 == c,
        power(-(count - 1), degree) == p,
    ensures
        moment(order, degree, count) == moment(order, degree, (count - 1) as nat) + c * p,
        moment(order, degree, 0) == 0,
{
    let (x, y) = (
        sd_scheduler::coefficient(order, count - 1).0 as int,
        power(-(count - 1), degree),
    );
    assert(x * y == c * p) by (nonlinear_arith)
        requires
            x == c,
            y == p,
    ;
}

proof fn lemma_times(degree: nat, m: int)
    requires
        degree <= 3,
    ensures
        degree == 0 ==> (degree + 1) * m == m,
        degree == 1 ==> (degree + 1) * m == 2 * m,
        degree == 2 ==> (degree + 1) * m == 3 * m,
        degree == 3 ==> (degree + 1) * m == 4 * m,
{
    let k = degree + 1;
    if degree == 0 {
        assert(k * m == m) by (nonlinear_arith)
            requires
                k == 1,
        ;
    } else if degree == 1 {
        assert(k * m == 2 * m) by (nonlinear_arith)
            requires
                k == 2,
        ;
    } else if degree == 2 {
        assert(k * m == 3 * m) by (nonlinear_arith)
            requires
                k == 3,
        ;
    } else {
        assert(k * m == 4 * m) by (nonlinear_arith)
            requires
                k == 4,
        ;
    }
}

/// The multistep method of an order integrates every polynomial of a lower degree exactly: over the
/// step from 0 to 1, the weighted sum of the powers at 0, -1, -2 and so on is one by the degree
/// plus one. Nothing but the coefficients of the method does.
pub proof fn multistep_is_exact_for_polynomials(order: int, degree: nat, index: int)
    requires
        2 <= order <= 4,
        degree < order,
        0 <= index < order,
    ensures
        (degree + 1) * moment(order, degree, order as nat) == sd_scheduler::coefficient(
            order,
            index,
        ).1,
{
    lemma_powers(degree);
    if order == 2 {
        if degree == 0 {
            lemma_moment(2, 0, 1, 3, 1);
            lemma_moment(2, 0, 2, -1, 1);
        } else if degree == 1 {
            lemma_moment(2, 1, 1, 3, 0);
            lemma_moment(2, 1, 2, -1, -1);
        }
    } else if order == 3 {
        if degree == 0 {
            lemma_moment(3, 0, 1, 23, 1);
            lemma_moment(3, 0, 2, -16, 1);
            lemma_moment(3, 0, 3, 5, 1);
        } else if degree == 1 {
            lemma_moment(3, 1, 1, 23, 0);
            lemma_moment(3, 1, 2, -16, -1);
            lemma_moment(3, 1, 3, 5, -2);
        } else if degree == 2 {
            lemma_moment(3, 2, 1, 23, 0);
            lemma_moment(3, 2, 2, -16, 1);
            lemma_moment(3, 2, 3, 5, 4);
        }
    } else if order == 4 {
        if degree == 0 {
            lemma_moment(4, 0, 1, 55, 1);
            lemma_moment(4, 0, 2, -59, 1);
            lemma_moment(4, 0, 3, 37, 1);
            lemma_moment(4, 0, 4, -9, 1);
        } else if degree == 1 {
            lemma_moment(4, 1, 1, 55, 0);
            lemma_moment(4, 1, 2, -59, -1);
            lemma_moment(4, 1, 3, 37, -2);
            lemma_moment(4, 1, 4, -9, -3);
        } else if degree == 2 {
            lemma_moment(4, 2, 1, 55, 0);
            lemma_moment(4, 2, 2, -59, 1);
            lemma_moment(4, 2, 3, 37, 4);
            lemma_moment(4, 2, 4, -9, 9);
        } else if degree == 3 {
            lemma_moment(4, 3, 1, 55, 0);
            lemma_moment(4, 3, 2, -59, -1);
            lemma_moment(4, 3, 3, 37, -8);
            lemma_moment(4, 3, 4, -9, -27);
        }
    }
    lemma_times(degree, moment(order, degree, order as nat));
}

/// Sums of products where the sum, the factors and the elements are measured in their own units.
proof fn lemma_measured<T, M: Fn(T, T, T) -> T>(
    mac: M,
    total_of: spec_fn(T) -> int,
    factor_of: spec_fn(T) -> int,
    value: spec_fn(T) -> int,
    left: Seq<T>,
    right: Seq<T>,
    n: nat,
    zero: T,
    total: T,
)
    requires
        total_of(zero) == 0,
        forall|a: T, w: T, x: T, r: T| #[trigger]
            call_ensures(mac, (a, w, x), r) ==> total_of(r) == total_of(a) + factor_of(w) * value(
                x,
            ),
        fold::accumulates(mac, left, right, fold::run(0, 0, n), zero, total),
    ensures
        total_of(total) == crate::exact::sum(n, |j: int| factor_of(left[j]) * value(right[j])),
    decreases n,
{
    let taps = fold::run(0, 0, n);
    if n > 0 {
        let m = (n - 1) as nat;
        let partial = choose|partial: T|
            {
                &&& fold::accumulates(mac, left, right, taps.drop_last(), zero, partial)
                &&& #[trigger] call_ensures(
                    mac,
                    (partial, left[taps.last().0], right[taps.last().1]),
                    total,
                )
            };
        assert(taps.drop_last() =~= fold::run(0, 0, m));
        lemma_measured(mac, total_of, factor_of, value, left, right, m, zero, partial);
    }
}

/// A weight in 24ths.
proof fn lemma_factor<T, R: Fn(i32, i32) -> T>(
    ratio: R,
    factor_of: spec_fn(T) -> int,
    weights: Seq<T>,
    order: int,
    j: int,
    num: i32,
    den: i32,
    factor: int,
    x: int,
)
    requires
        0 <= j < order,
        sd_scheduler::weights_are(ratio, order, weights),
        forall|n: i32, d: i32, r: T| #[trigger]
            call_ensures(ratio, (n, d), r) ==> factor_of(r) * d == 24 * n,
        sd_scheduler::coefficient(order, j) == (num, den),
        24 * num == factor * den,
        den > 0,
    ensures
        factor_of(weights[j]) * x == factor * x,
{
    let w = factor_of(weights[j]);
    let c = sd_scheduler::coefficient(order, j);
    assert(call_ensures(ratio, c, weights[j]));
    assert(call_ensures(ratio, (num, den), weights[j]));
    assert(w * x == factor * x) by (nonlinear_arith)
        requires
            w * den == 24 * num,
            24 * num == factor * den,
            den > 0,
    ;
}

proof fn lemma_two(total: int, f0: int, f1: int, a: int, b: int)
    requires
        total == f0 + f1,
        f0 == 36 * a,
        f1 == -12 * b,
    ensures
        total == 36 * a - 12 * b,
{
}

proof fn lemma_three(total: int, f0: int, f1: int, f2: int, a: int, b: int, c: int)
    requires
        total == f0 + f1 + f2,
        f0 == 46 * a,
        f1 == -32 * b,
        f2 == 10 * c,
    ensures
        total == 46 * a - 32 * b + 10 * c,
{
}

proof fn lemma_four(
    total: int,
    f0: int,
    f1: int,
    f2: int,
    f3: int,
    a: int,
    b: int,
    c: int,
    d: int,
)
    requires
        total == f0 + f1 + f2 + f3,
        f0 == 55 * a,
        f1 == -59 * b,
        f2 == 37 * c,
        f3 == -9 * d,
    ensures
        total == 55 * a - 59 * b + 37 * c - 9 * d,
{
}

/// What a multistep step combines, in exact arithmetic and with sums counted in 24ths: the newest
/// output most, the older ones with the signs and sizes of the method.
pub proof fn the_newest_outputs_weigh_most<T, R: Fn(i32, i32) -> T, M: Fn(T, T, T) -> T>(
    ratio: R,
    mac: M,
    zero: T,
    total_of: spec_fn(T) -> int,
    factor_of: spec_fn(T) -> int,
    value: spec_fn(T) -> int,
    history: Seq<Seq<T>>,
    out: Seq<T>,
    i: int,
)
    requires
        2 <= history.len() <= 4,
        total_of(zero) == 0,
        forall|a: T, w: T, x: T, r: T| #[trigger]
            call_ensures(mac, (a, w, x), r) ==> total_of(r) == total_of(a) + factor_of(w) * value(
                x,
            ),
        forall|n: i32, d: i32, r: T| #[trigger]
            call_ensures(ratio, (n, d), r) ==> factor_of(r) * d == 24 * n,
        sd_scheduler::combines(ratio, mac, zero, history, out),
        0 <= i < out.len(),
    ensures
        history.len() == 2 ==> total_of(out[i]) == 36 * value(history[1][i]) - 12 * value(
            history[0][i],
        ),
        history.len() == 3 ==> total_of(out[i]) == 46 * value(history[2][i]) - 32 * value(
            history[1][i],
        ) + 10 * value(history[0][i]),
        history.len() == 4 ==> total_of(out[i]) == 55 * value(history[3][i]) - 59 * value(
            history[2][i],
        ) + 37 * value(history[1][i]) - 9 * value(history[0][i]),
{
    let n = history.len();
    let weights = choose|weights: Seq<T>|
        {
            &&& #[trigger] sd_scheduler::weights_are(ratio, n as int, weights)
            &&& out.len() == history[0].len()
            &&& forall|i: int|
                0 <= i < out.len() ==> fold::accumulates(
                    mac,
                    weights,
                    sd_scheduler::column(history, i),
                    fold::run(0, 0, n),
                    zero,
                    #[trigger] out[i],
                )
        };
    let column = sd_scheduler::column(history, i);
    lemma_measured(mac, total_of, factor_of, value, weights, column, n, zero, out[i]);
    reveal_with_fuel(crate::exact::sum, 5);
    let f = |j: int| factor_of(weights[j]) * value(column[j]);
    if n == 2 {
        lemma_factor(ratio, factor_of, weights, 2, 0, 3, 2, 36, value(history[1][i]));
        lemma_factor(ratio, factor_of, weights, 2, 1, -1i32, 2, -12, value(history[0][i]));
        assert(column[0] == history[1][i] && column[1] == history[0][i]);
        let (a, b) = (value(history[1][i]), value(history[0][i]));
        assert(f(0) == 36 * a);
        assert(f(1) == -12 * b);
        assert(total_of(out[i]) == f(0) + f(1));
        lemma_two(total_of(out[i]), f(0), f(1), a, b);
    } else if n == 3 {
        lemma_factor(ratio, factor_of, weights, 3, 0, 23, 12, 46, value(history[2][i]));
        lemma_factor(ratio, factor_of, weights, 3, 1, -16i32, 12, -32, value(history[1][i]));
        lemma_factor(ratio, factor_of, weights, 3, 2, 5, 12, 10, value(history[0][i]));
        assert(column[0] == history[2][i] && column[1] == history[1][i]);
        assert(column[2] == history[0][i]);
        let (a, b, c) = (value(history[2][i]), value(history[1][i]), value(history[0][i]));
        assert(f(0) == 46 * a);
        assert(f(1) == -32 * b);
        assert(f(2) == 10 * c);
        assert(total_of(out[i]) == f(0) + f(1) + f(2));
        lemma_three(total_of(out[i]), f(0), f(1), f(2), a, b, c);
    } else {
        lemma_factor(ratio, factor_of, weights, 4, 0, 55, 24, 55, value(history[3][i]));
        lemma_factor(ratio, factor_of, weights, 4, 1, -59i32, 24, -59, value(history[2][i]));
        lemma_factor(ratio, factor_of, weights, 4, 2, 37, 24, 37, value(history[1][i]));
        lemma_factor(ratio, factor_of, weights, 4, 3, -9i32, 24, -9, value(history[0][i]));
        assert(column[0] == history[3][i] && column[1] == history[2][i]);
        assert(column[2] == history[1][i] && column[3] == history[0][i]);
        let (a, b) = (value(history[3][i]), value(history[2][i]));
        let (c, d) = (value(history[1][i]), value(history[0][i]));
        assert(f(0) == 55 * a);
        assert(f(1) == -59 * b);
        assert(f(2) == 37 * c);
        assert(f(3) == -9 * d);
        assert(total_of(out[i]) == f(0) + f(1) + f(2) + f(3));
        lemma_four(total_of(out[i]), f(0), f(1), f(2), f(3), a, b, c, d);
    }
}

/// The timesteps of the multistep schedule: evenly spaced down to 1, and the second comes twice.
pub proof fn multistep_timesteps_are_evenly_spaced(steps: nat, k: int)
    requires
        2 <= steps <= 1000,
        2 <= k < steps,
    ensures
        ({
            let t = sd_scheduler::pndm_timesteps(steps);
            let gap = 1000nat / steps;
            &&& t.len() == steps + 1
            &&& t[0] - t[1] == gap
            &&& t[1] == t[2]
            &&& t[k] - t[k + 1] == gap
            &&& t[steps as int] == 1
        }),
{
    let gap = sd_scheduler::step_ratio(steps);
    sd_scheduler::lemma_base_timestep(steps, steps - 1);
    sd_scheduler::lemma_base_timestep(steps, steps - 2);
    sd_scheduler::lemma_base_timestep(steps, steps - k);
    sd_scheduler::lemma_base_timestep(steps, steps - (k + 1));
    sd_scheduler::lemma_base_timestep(steps, 0);
    assert((steps - 1) * gap == (steps - 2) * gap + gap) by (nonlinear_arith);
    assert((steps - k) * gap == (steps - (k + 1)) * gap + gap) by (nonlinear_arith);
    assert(0 * gap == 0) by (nonlinear_arith);
}

/// The steps of the multistep schedule join up: each goes from its own timestep to the next one,
/// the second does the first once more, and the last one ends at the start of the training
/// schedule.
pub proof fn multistep_steps_join_up(steps: nat, done: int)
    requires
        2 <= steps <= 1000,
        0 <= done <= steps,
    ensures
        ({
            let t = sd_scheduler::pndm_timesteps(steps);
            let gap = (1000nat / steps) as int;
            let from = sd_scheduler::from_timestep(done, t[done] as int, gap);
            let to = sd_scheduler::to_timestep(done, t[done] as int, gap);
            if done <= 1 {
                from == t[0] && to == t[1]
            } else if done < steps {
                from == t[done] && to == t[done + 1]
            } else {
                from == 1 && to == 0
            }
        }),
{
    let gap = sd_scheduler::step_ratio(steps);
    sd_scheduler::lemma_base_timestep(steps, steps - 1);
    sd_scheduler::lemma_base_timestep(steps, steps - 2);
    sd_scheduler::lemma_base_timestep(steps, 0);
    assert((steps - 1) * gap == (steps - 2) * gap + gap) by (nonlinear_arith);
    assert(0 * gap == 0) by (nonlinear_arith);
    if 2 <= done < steps {
        sd_scheduler::lemma_base_timestep(steps, steps - done);
        sd_scheduler::lemma_base_timestep(steps, steps - (done + 1));
        assert((steps - done) * gap == (steps - (done + 1)) * gap + gap) by (nonlinear_arith);
    }
}

/// The timesteps of the Euler schedule: evenly spaced down to 1, each once.
pub proof fn euler_timesteps_are_evenly_spaced(steps: nat, k: int)
    requires
        2 <= steps <= 1000,
        0 <= k < steps - 1,
    ensures
        ({
            let t = sdxl_scheduler::euler_timesteps(steps);
            &&& t.len() == steps
            &&& t[k] - t[k + 1] == 1000nat / steps
            &&& t[steps - 1] == 1
        }),
{
    let gap = sd_scheduler::step_ratio(steps);
    sd_scheduler::lemma_base_timestep(steps, steps - 1 - k);
    sd_scheduler::lemma_base_timestep(steps, steps - 2 - k);
    sd_scheduler::lemma_base_timestep(steps, 0);
    assert((steps - 1 - k) * gap == (steps - 2 - k) * gap + gap) by (nonlinear_arith);
    assert(0 * gap == 0) by (nonlinear_arith);
}

/// An element is moved along the average of two outputs.
pub open spec fn moves_by_average<T, A: Fn(T, T) -> T, P: Fn(T, T, T, T) -> T>(
    average: A,
    previous: P,
    from: T,
    to: T,
    start: T,
    new: T,
    old_output: T,
    out: T,
) -> bool {
    exists|mean: T|
        {
            &&& #[trigger] call_ensures(average, (new, old_output), mean)
            &&& call_ensures(previous, (from, to, start, mean), out)
        }
}

/// A step of the multistep schedule that is done: the first moves the sample along the model's own
/// output; the second moves the sample of the first, along the average of both outputs; the others
/// move their own sample along the combined outputs. The last four outputs at most are remembered,
/// and that of the second step is not.
pub proof fn multistep_steps_move_their_sample<
    T: Copy,
    A: Fn(T, T) -> T,
    R: Fn(i32, i32) -> T,
    M: Fn(T, T, T) -> T,
    P: Fn(T, T, T, T) -> T,
>(
    before: &Sd15Scheduler<T>,
    after: &Sd15Scheduler<T>,
    model: Seq<T>,
    timestep: usize,
    sample: Seq<T>,
    zero: T,
    average: A,
    ratio: R,
    mac: M,
    previous: P,
    output: Vec<T>,
)
    requires
        before.advances(
            after,
            model,
            timestep,
            sample,
            zero,
            average,
            ratio,
            mac,
            previous,
            Ok::<Vec<T>, SchedulerError>(output),
        ),
        before.done() >= 0,
    ensures
        timestep == before.schedule()[before.done()],
        after.done() == before.done() + 1,
        before.done() == 0 ==> {
            &&& after.first_sample() == Some(sample)
            &&& output@.len() == sample.len()
            &&& forall|i: int|
                0 <= i < sample.len() ==> call_ensures(
                    previous,
                    (
                        before.alphas()[timestep as int],
                        before.alphas()[sd_scheduler::to_timestep(
                            0,
                            timestep as int,
                            before.spacing(),
                        )],
                        sample[i],
                        model[i],
                    ),
                    #[trigger] output@[i],
                )
        },
        before.done() == 1 ==> {
            &&& after.outputs() == before.outputs()
            &&& before.first_sample() is Some
            &&& output@.len() == before.first_sample()->0.len()
            &&& forall|i: int|
                0 <= i < output@.len() ==> moves_by_average(
                    average,
                    previous,
                    before.alphas()[timestep + before.spacing()],
                    before.alphas()[timestep as int],
                    (before.first_sample()->0)[i],
                    model[i],
                    before.outputs()[0][i],
                    #[trigger] output@[i],
                )
        },
        before.done() >= 2 ==> {
            &&& after.outputs().last() == model
            &&& before.outputs().len() <= 3 ==> after.outputs() == before.outputs().push(model)
            &&& before.outputs().len() == 4 ==> after.outputs() == seq![
                before.outputs()[1],
                before.outputs()[2],
                before.outputs()[3],
                model,
            ]
            &&& output@.len() == sample.len()
            &&& exists|combined: Seq<T>| #[trigger]
                sd_scheduler::combines(ratio, mac, zero, after.outputs(), combined) && forall|
                    i: int,
                |
                    0 <= i < sample.len() ==> call_ensures(
                        previous,
                        (
                            before.alphas()[timestep as int],
                            before.alphas()[sd_scheduler::to_timestep(
                                before.done(),
                                timestep as int,
                                before.spacing(),
                            )],
                            sample[i],
                            combined[i],
                        ),
                        #[trigger] output@[i],
                    )
        },
{
    let done = before.done();
    let history = before.next_history(model);
    let start = sd_scheduler::start_sample(done, before.first_sample(), sample);
    let from = sd_scheduler::from_timestep(done, timestep as int, before.spacing());
    let to = sd_scheduler::to_timestep(done, timestep as int, before.spacing());
    let combined = choose|combined: Seq<T>|
        {
            &&& #[trigger] sd_scheduler::step_combines(
                average,
                ratio,
                mac,
                zero,
                done,
                history,
                model,
                combined,
            )
            &&& combined.len() == start.len()
            &&& sd_scheduler::moved(
                previous,
                before.alphas()[from],
                before.alphas()[to],
                start,
                combined,
                output@,
            )
        };
    if done == 1 {
        assert forall|i: int| 0 <= i < output@.len() implies moves_by_average(
            average,
            previous,
            before.alphas()[timestep + before.spacing()],
            before.alphas()[timestep as int],
            (before.first_sample()->0)[i],
            model[i],
            before.outputs()[0][i],
            #[trigger] output@[i],
        ) by {
            assert(call_ensures(average, (model[i], before.outputs()[0][i]), combined[i]));
        }
    } else if done >= 2 {
        assert(sd_scheduler::combines(ratio, mac, zero, after.outputs(), combined));
        if before.outputs().len() == 4 {
            assert(after.outputs() =~= seq![
                before.outputs()[1],
                before.outputs()[2],
                before.outputs()[3],
                model,
            ]);
        }
    }
}

/// The embedding of a timestep holds, for every frequency, its cosine in the first half and its
/// sine as far into the second.
pub proof fn embeddings_pair_cosines_with_sines<
    T,
    C: Fn(u32, usize, usize) -> T,
    S: Fn(u32, usize, usize) -> T,
>(
    timestep: u32,
    half: usize,
    dimension: usize,
    cosine: C,
    sine: S,
    out: Seq<T>,
    i: int,
)
    requires
        dimension == 2 * half,
        0 <= i < half,
        sd_scheduler::embeds(timestep, dimension, cosine, sine, out),
    ensures
        out.len() == 2 * half,
        call_ensures(cosine, (timestep, i as usize, half), out[i]),
        call_ensures(sine, (timestep, i as usize, half), out[half + i]),
{
    assert(out[half + i] == out[half + i]);
    assert(((half + i) - half) as usize == i as usize);
}

/// Noise comes in pairs: two uniform numbers give two normal ones, by the cosine and by the sine.
pub proof fn two_draws_give_two_numbers<T, C: Fn(u64, u64) -> T, S: Fn(u64, u64) -> T>(
    cosine: C,
    sine: S,
    draws: Seq<u64>,
    noise: Seq<T>,
    p: int,
)
    requires
        sd_scheduler::shapes_noise(cosine, sine, draws, noise),
        0 <= p,
        2 * p + 1 < noise.len(),
    ensures
        call_ensures(cosine, (draws[2 * p], draws[2 * p + 1]), noise[2 * p]),
        call_ensures(sine, (draws[2 * p], draws[2 * p + 1]), noise[2 * p + 1]),
{
    assert(noise[2 * p] == noise[2 * p]);
    assert(noise[2 * p + 1] == noise[2 * p + 1]);
}

/// Guidance, in exact arithmetic: from the prediction without the prompt towards the one with it,
/// as far as the scale says.
pub open spec fn guides<T, S: Fn(T, T, u32) -> T>(
    guide: S,
    value: spec_fn(T) -> int,
    amount: spec_fn(u32) -> int,
) -> bool {
    forall|a: T, b: T, scale: u32, r: T| #[trigger]
        call_ensures(guide, (a, b, scale), r) ==> value(r) == value(a) + amount(scale) * (value(b)
            - value(a))
}

impl<
    'a,
    T: Copy,
    Z: Copy,
    M: Fn(T, T, T) -> T + Copy,
    P: Fn(T, T) -> T + Copy,
    G: Fn(T, T) -> T + Copy,
    L: Fn(T) -> T + Copy,
    E: Fn(T) -> T + Copy,
    Q: Fn(T) -> T + Copy,
    A: Fn(&[T], u32) -> Z + Copy,
    B: Fn(T, Z, T, T) -> T + Copy,
    C: Fn(T, usize) -> T + Copy,
    H: Fn(Vec<T>) -> Vec<T> + Copy,
    N: Fn(Scalar) -> T + Copy,
    F: Fn(usize, usize) -> T + Copy,
    W: Fn(T, T) -> T + Copy,
    O: Fn(T) -> bool + Copy,
    D: Fn(T, T) -> T + Copy,
    I: Fn(T, usize) -> T + Copy,
    J: Fn(T, T) -> T + Copy,
    K: Fn(i32, i32) -> T + Copy,
    R: Fn(T, T, T, T) -> T + Copy,
    S: Fn(T, T, u32) -> T + Copy,
    U: Fn(usize) -> u32 + Copy,
    V: Fn(u32, usize, usize) -> T + Copy,
    X: Fn(u32, usize, usize) -> T + Copy,
    Y: Fn(u64, u64) -> T + Copy,
    AA: Fn(u64, u64) -> T + Copy,
    BB: Fn(T, u32) -> T + Copy,
> Painter<'a, T, M, P, G, L, E, Q, A, B, C, H, N, F, W, O, D, I, J, K, R, S, U, V, X, Y, AA, BB> {
    /// Every step of a picture is guided from the negative prompt towards the prompt, in exact
    /// arithmetic: with a scale of one it takes the prediction for the prompt, with a scale of zero
    /// that for the negative prompt.
    pub proof fn pictures_follow_the_prompt(
        self,
        value: spec_fn(T) -> int,
        amount: spec_fn(u32) -> int,
        request: GenerationRequest,
        contexts: (Tensor<T>, Tensor<T>),
        trace: Seq<sd_generate::Between<T>>,
        k: int,
    ) -> (step: (Tensor<T>, Tensor<T>, Seq<T>, Vec<T>))
        requires
            guides(self.guide, value, amount),
            self.midway(request, contexts, trace),
            0 <= k < trace.len() - 1,
        ensures
            self.encoded(request.negative_prompt@, Ok(contexts.0)),
            self.encoded(request.prompt@, Ok(contexts.1)),
            ({
                let (without, with, guided, data) = step;
                &&& self.predicted(trace[k], contexts.0.array(), Ok(without))
                &&& self.predicted(trace[k], contexts.1.array(), Ok(with))
                &&& guided.len() == without@.len() == with@.len()
                &&& forall|i: int|
                    0 <= i < guided.len() ==> value(#[trigger] guided[i]) == value(without@[i])
                        + amount(request.guidance_scale) * (value(with@[i]) - value(without@[i]))
                &&& amount(request.guidance_scale) == 1 ==> forall|i: int|
                    0 <= i < guided.len() ==> value(#[trigger] guided[i]) == value(with@[i])
                &&& amount(request.guidance_scale) == 0 ==> forall|i: int|
                    0 <= i < guided.len() ==> value(#[trigger] guided[i]) == value(without@[i])
                &&& self.advanced(trace[k], guided, trace[k + 1].scheduler, Ok(data))
                &&& trace[k + 1].latents == (Array { dims: seq![1, 4, 64, 64], data: data@ })
            }),
    {
        assert(self.moves_at(request.guidance_scale, contexts, trace, k));
        let scale = request.guidance_scale;
        let (before, after) = (trace[k], trace[k + 1]);
        let (without, with, guided, data) = choose|
            without: Tensor<T>,
            with: Tensor<T>,
            guided: Seq<T>,
            data: Vec<T>,
        |
            {
                &&& #[trigger] self.predicted_both(before, contexts, without, with)
                &&& #[trigger] self.guided(scale, without@, with@, guided)
                &&& #[trigger] self.advanced(before, guided, after.scheduler, Ok(data))
                &&& after.latents == (Array { dims: sd_generate::latent_dims(), data: data@ })
            };
        assert forall|i: int| 0 <= i < guided.len() implies {
            let (a, b) = (value(without@[i]), value(with@[i]));
            let m = amount(scale);
            &&& value(#[trigger] guided[i]) == a + m * (b - a)
            &&& m == 1 ==> value(guided[i]) == b
            &&& m == 0 ==> value(guided[i]) == a
        } by {
            let (a, b) = (value(without@[i]), value(with@[i]));
            let m = amount(scale);
            assert(call_ensures(self.guide, (without@[i], with@[i], scale), guided[i]));
            assert((m == 1 ==> m * (b - a) == b - a) && (m == 0 ==> m * (b - a) == 0))
                by (nonlinear_arith);
        }
        (without, with, guided, data)
    }
}

impl<
    'a,
    T: Copy,
    Z: Copy,
    M: Fn(T, T, T) -> T + Copy,
    P: Fn(T, T) -> T + Copy,
    G: Fn(T, T) -> T + Copy,
    L: Fn(T) -> T + Copy,
    E: Fn(T) -> T + Copy,
    Q: Fn(T) -> T + Copy,
    A: Fn(&[T], u32) -> Z + Copy,
    B: Fn(T, Z, T, T) -> T + Copy,
    C: Fn(T, usize) -> T + Copy,
    H: Fn(Vec<T>) -> Vec<T> + Copy,
    N: Fn(Scalar) -> T + Copy,
    F: Fn(usize, usize) -> T + Copy,
    W: Fn(T, T) -> T + Copy,
    O: Fn(T) -> bool + Copy,
    D: Fn(T, T) -> T + Copy,
    I: Fn(T, usize) -> T + Copy,
    J: Fn(T) -> T + Copy,
    K: Fn(T, T) -> T + Copy,
    R: Fn(T, T, T, T) -> T + Copy,
    S: Fn(T, T, u32) -> T + Copy,
    U: Fn(usize) -> u32 + Copy,
    V: Fn(u32, usize, usize) -> T + Copy,
    X: Fn(u32, usize, usize) -> T + Copy,
    Y: Fn(u64, u64) -> T + Copy,
    AA: Fn(u64, u64) -> T + Copy,
    BB: Fn(T, u32) -> T + Copy,
    EE: Fn(T, T) -> T + Copy,
    FF: Fn(T) -> bool + Copy,
> SdxlPainter<'a, T, M, P, G, L, E, Q, A, B, C, H, N, F, W, O, D, I, J, K, R, S, U, V, X, Y, AA, BB, EE, FF> {
    /// Every step of a picture is guided from the negative prompt towards the prompt, in exact
    /// arithmetic, and both predictions see the same scaled latents.
    pub proof fn large_pictures_follow_the_prompt(
        self,
        value: spec_fn(T) -> int,
        amount: spec_fn(u32) -> int,
        request: sdxl_pipeline::GenerationRequest,
        contexts: ((Tensor<T>, Vec<T>), (Tensor<T>, Vec<T>)),
        trace: Seq<sdxl_generate::Between<T>>,
        k: int,
    ) -> (step: (Array<T>, Tensor<T>, Tensor<T>, Seq<T>, Vec<T>))
        requires
            guides(self.guide, value, amount),
            self.midway(request, contexts, trace),
            0 <= k < trace.len() - 1,
        ensures
            self.encoded(request.negative_prompt@, Ok(contexts.0)),
            self.encoded(request.prompt@, Ok(contexts.1)),
            ({
                let (sample, without, with, guided, data) = step;
                let at = trace[k];
                &&& sample.dims == at.latents.dims
                &&& sample.data.len() == at.latents.data.len()
                &&& forall|i: int|
                    0 <= i < sample.data.len() ==> call_ensures(
                        self.scale,
                        (at.latents.data[i], at.scheduler.levels()[at.scheduler.done()]),
                        #[trigger] sample.data[i],
                    )
                &&& self.predicted(request.resolution, at, sample, contexts.0, Ok(without))
                &&& self.predicted(request.resolution, at, sample, contexts.1, Ok(with))
                &&& guided.len() == without@.len() == with@.len()
                &&& forall|i: int|
                    0 <= i < guided.len() ==> value(#[trigger] guided[i]) == value(without@[i])
                        + amount(request.guidance_scale) * (value(with@[i]) - value(without@[i]))
                &&& self.advanced(at, guided, trace[k + 1].scheduler, Ok(data))
                &&& trace[k + 1].latents.data == data@
            }),
    {
        assert(self.moves_at(request, contexts, trace, k));
        let (before, after) = (trace[k], trace[k + 1]);
        let (without, with, guided, data) = choose|
            without: Tensor<T>,
            with: Tensor<T>,
            guided: Seq<T>,
            data: Vec<T>,
        |
            {
                &&& #[trigger] self.predicted_both(
                    request.resolution,
                    before,
                    contexts,
                    without,
                    with,
                )
                &&& #[trigger] self.guided(request.guidance_scale, without@, with@, guided)
                &&& #[trigger] self.advanced(before, guided, after.scheduler, Ok(data))
                &&& after.latents == (Array {
                    dims: sdxl_generate::latent_dims(request.resolution),
                    data: data@,
                })
            };
        let sample = choose|sample: Array<T>|
            {
                &&& #[trigger] self.scaled(before, sample)
                &&& self.predicted(request.resolution, before, sample, contexts.0, Ok(without))
                &&& self.predicted(request.resolution, before, sample, contexts.1, Ok(with))
            };
        (sample, without, with, guided, data)
    }

    /// The model is told how large the picture is, that nothing is cut off, and how large it is to
    /// be.
    pub proof fn the_model_is_told_the_sizes(self, resolution: usize, ids: Seq<u32>)
        requires
            self.told(resolution, ids),
        ensures
            ids.len() == 6,
            call_ensures(self.single, (resolution,), ids[0]),
            call_ensures(self.single, (resolution,), ids[1]),
            call_ensures(self.single, (0usize,), ids[2]),
            call_ensures(self.single, (0usize,), ids[3]),
            call_ensures(self.single, (resolution,), ids[4]),
            call_ensures(self.single, (resolution,), ids[5]),
    {
        assert(forall|k: int| 0 <= k < 6 ==> #[trigger] ids[k] == ids[k]);
        assert(call_ensures(self.single, (sdxl_generate::sizes(resolution)[0],), ids[0]));
        assert(call_ensures(self.single, (sdxl_generate::sizes(resolution)[1],), ids[1]));
        assert(call_ensures(self.single, (sdxl_generate::sizes(resolution)[2],), ids[2]));
        assert(call_ensures(self.single, (sdxl_generate::sizes(resolution)[3],), ids[3]));
        assert(call_ensures(self.single, (sdxl_generate::sizes(resolution)[4],), ids[4]));
        assert(call_ensures(self.single, (sdxl_generate::sizes(resolution)[5],), ids[5]));
    }
}

} // verus!
