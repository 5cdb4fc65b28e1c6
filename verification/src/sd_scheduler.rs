//! The PNDM schedule of Stable Diffusion 1.x, classifier-free guidance, and the layout of noise and
//! timestep embeddings.
//!
//! The arithmetic on samples is supplied by the caller; the schedule decides on which samples, at
//! which timesteps and with which coefficients it is applied.

use vstd::prelude::*;
use crate::float_order;
use crate::float_order::is_finite;
use crate::fold;
use crate::fold::dot;
use crate::random;
use crate::random::seeded_draws;
use crate::text;
use crate::text::push_usize;

verus! {

broadcast use vstd::string::group_string_axioms;

/// The number of timesteps of the training schedule.
pub const TRAIN_TIMESTEPS: usize = 1000;

/// Why a schedule refuses a step or a number of steps.
#[allow(inconsistent_fields)]
#[derive(Clone, Copy, Debug, PartialEq, Eq, Structural)]
pub enum SchedulerError {
    InferenceSteps,
    SdxlInferenceSteps,
    LengthMismatch { sample: usize, model: usize },
    OutsideSchedule { timestep: usize },
    TooManySteps,
    UnexpectedTimestep { expected: usize, step: usize, actual: usize },
    BootstrapMissing,
    HistoryLengths,
    OutsideAlphas,
    SampleLength,
    GuidanceLengths { unconditional: usize, conditional: usize },
    GuidanceScale,
    EmbeddingDimension,
    EmbeddingTimestep,
}

impl SchedulerError {
    /// The message for people.
    pub open spec fn text(self) -> Seq<char> {
        match self {
            SchedulerError::InferenceSteps => "SD1 inference steps must be between 1 and 1000"@,
            SchedulerError::SdxlInferenceSteps =>
                "SDXL inference steps must be between 1 and 1000"@,
            SchedulerError::LengthMismatch { sample, model } =>
                "scheduler sample/model length mismatch: "@ + text::decimal(sample as nat)
                + " vs "@ + text::decimal(model as nat),
            SchedulerError::OutsideSchedule { timestep } => "scheduler timestep "@ + text::decimal(
                timestep as nat,
            ) + " is outside the SD1 training schedule"@,
            SchedulerError::TooManySteps => "scheduler received more steps than configured"@,
            SchedulerError::UnexpectedTimestep { expected, step, actual } =>
                "scheduler expected timestep "@ + text::decimal(expected as nat) + " at step "@
                + text::decimal(step as nat) + ", got "@ + text::decimal(actual as nat),
            SchedulerError::BootstrapMissing => "PNDM bootstrap sample is missing"@,
            SchedulerError::HistoryLengths => "PNDM history tensors have inconsistent lengths"@,
            SchedulerError::OutsideAlphas => "PNDM timestep is outside the alpha schedule"@,
            SchedulerError::SampleLength => "PNDM sample/model length mismatch"@,
            SchedulerError::GuidanceLengths { unconditional, conditional } =>
                "guidance input length mismatch: "@ + text::decimal(unconditional as nat)
                + " vs "@ + text::decimal(conditional as nat),
            SchedulerError::GuidanceScale => "guidance scale must be finite and non-negative"@,
            SchedulerError::EmbeddingDimension =>
                "timestep embedding dimension must be a non-zero even number"@,
            SchedulerError::EmbeddingTimestep => "timestep must be finite"@,
        }
    }

    /// The message for people.
    pub fn message(&self) -> (message: String)
        ensures
            message@ == self.text(),
    {
        let mut out = String::new();
        match self {
            SchedulerError::InferenceSteps => {
                out.append("SD1 inference steps must be between 1 and 1000");
            },
            SchedulerError::SdxlInferenceSteps => {
                out.append("SDXL inference steps must be between 1 and 1000");
            },
            SchedulerError::LengthMismatch { sample, model } => {
                out.append("scheduler sample/model length mismatch: ");
                push_usize(&mut out, *sample);
                out.append(" vs ");
                push_usize(&mut out, *model);
            },
            SchedulerError::OutsideSchedule { timestep } => {
                out.append("scheduler timestep ");
                push_usize(&mut out, *timestep);
                out.append(" is outside the SD1 training schedule");
            },
            SchedulerError::TooManySteps => {
                out.append("scheduler received more steps than configured");
            },
            SchedulerError::UnexpectedTimestep { expected, step, actual } => {
                out.append("scheduler expected timestep ");
                push_usize(&mut out, *expected);
                out.append(" at step ");
                push_usize(&mut out, *step);
                out.append(", got ");
                push_usize(&mut out, *actual);
            },
            SchedulerError::BootstrapMissing => {
                out.append("PNDM bootstrap sample is missing");
            },
            SchedulerError::HistoryLengths => {
                out.append("PNDM history tensors have inconsistent lengths");
            },
            SchedulerError::OutsideAlphas => {
                out.append("PNDM timestep is outside the alpha schedule");
            },
            SchedulerError::SampleLength => {
                out.append("PNDM sample/model length mismatch");
            },
            SchedulerError::GuidanceLengths { unconditional, conditional } => {
                out.append("guidance input length mismatch: ");
                push_usize(&mut out, *unconditional);
                out.append(" vs ");
                push_usize(&mut out, *conditional);
            },
            SchedulerError::GuidanceScale => {
                out.append("guidance scale must be finite and non-negative");
            },
            SchedulerError::EmbeddingDimension => {
                out.append("timestep embedding dimension must be a non-zero even number");
            },
            SchedulerError::EmbeddingTimestep => {
                out.append("timestep must be finite");
            },
        }
        out
    }
}

/// How far apart timesteps are, when `steps` of them are taken.
pub open spec fn step_ratio(steps: nat) -> nat {
    1000nat / steps
}

/// Timestep number `index` of `steps`, counted from the end of the schedule.
pub open spec fn base_timestep(steps: nat, index: int) -> int {
    index * step_ratio(steps) + 1
}

/// The timesteps of `steps` inference steps, from the noisiest: the last but one comes twice, for
/// the bootstrap of the multistep method.
pub open spec fn pndm_timesteps(steps: nat) -> Seq<usize> {
    if steps == 1 {
        seq![1usize]
    } else {
        Seq::new(
            steps + 1,
            |k: int|
                if k == 0 {
                    base_timestep(steps, steps - 1) as usize
                } else if k == 1 {
                    base_timestep(steps, steps - 2) as usize
                } else {
                    base_timestep(steps, steps - k) as usize
                },
        )
    }
}

/// The timesteps of the schedule lie between 1 and the number of training timesteps.
pub proof fn lemma_base_timestep(steps: nat, index: int)
    requires
        1 <= steps <= 1000,
        0 <= index < steps,
    ensures
        1 <= base_timestep(steps, index) <= 1000,
        steps < 1000 ==> base_timestep(steps, index) < 1000,
        step_ratio(steps) >= 1,
        base_timestep(steps, index) + step_ratio(steps) <= 1001,
{
    let ratio = step_ratio(steps);
    assert(ratio * steps <= 1000 && ratio >= 1) by (nonlinear_arith)
        requires
            ratio == 1000nat / steps,
            1 <= steps <= 1000,
    ;
    assert(0 <= index * ratio && index * ratio + ratio <= steps * ratio) by (nonlinear_arith)
        requires
            0 <= index < steps,
            ratio >= 1,
    ;
    assert(steps * ratio == ratio * steps) by (nonlinear_arith);
    if ratio == 1 {
        assert(index * ratio == index) by (nonlinear_arith)
            requires
                ratio == 1,
        ;
    }
}

/// Timesteps never go up; with fewer steps than the training schedule has, all lie in it.
pub proof fn timesteps_descend(steps: nat, i: int, j: int)
    requires
        1 <= steps <= 1000,
        0 <= i <= j < pndm_timesteps(steps).len(),
    ensures
        pndm_timesteps(steps)[j] <= pndm_timesteps(steps)[i],
        pndm_timesteps(steps)[i] >= 1,
        steps < 1000 ==> pndm_timesteps(steps)[i] < TRAIN_TIMESTEPS,
{
    if steps > 1 {
        let a = if i == 0 {
            steps - 1
        } else if i == 1 {
            steps - 2
        } else {
            steps - i
        };
        let b = if j == 0 {
            steps - 1
        } else if j == 1 {
            steps - 2
        } else {
            steps - j
        };
        lemma_base_timestep(steps, a);
        lemma_base_timestep(steps, b);
        let ratio = step_ratio(steps);
        assert(b * ratio <= a * ratio) by (nonlinear_arith)
            requires
                b <= a,
                ratio >= 1,
        ;
    }
}

/// The running products that `next` makes, one for each training timestep: each comes from the one
/// before it, the first from `one`.
pub open spec fn running<T, F: Fn(T, usize) -> T>(next: F, one: T, values: Seq<T>) -> bool {
    forall|i: int|
        0 <= i < values.len() ==> call_ensures(
            next,
            (
                if i == 0 {
                    one
                } else {
                    values[i - 1]
                },
                i as usize,
            ),
            #[trigger] values[i],
        )
}

/// The cumulative products of the training schedule.
pub fn alphas_cumprod<T: Copy, F: Fn(T, usize) -> T>(one: T, next: F) -> (values: Vec<T>)
    requires
        fold::total2(next),
    ensures
        values@.len() == TRAIN_TIMESTEPS,
        running(next, one, values@),
{
    let mut values: Vec<T> = Vec::with_capacity(TRAIN_TIMESTEPS);
    let mut product: T = one;
    let mut i: usize = 0;
    while i < TRAIN_TIMESTEPS
        invariant
            i == values@.len() <= TRAIN_TIMESTEPS,
            fold::total2(next),
            product == if i == 0 {
                one
            } else {
                values@[i - 1]
            },
            running(next, one, values@),
        decreases TRAIN_TIMESTEPS - i,
    {
        product = next(product, i);
        let ghost before = values@;
        values.push(product);
        proof {
            assert forall|j: int| 0 <= j < values@.len() implies call_ensures(
                next,
                (
                    if j == 0 {
                        one
                    } else {
                        values@[j - 1]
                    },
                    j as usize,
                ),
                #[trigger] values@[j],
            ) by {
                if j < i {
                    assert(before[j] == values@[j]);
                }
            }
        }
        i = i + 1;
    }
    values
}

/// A coefficient of the multistep method, as numerator and denominator, for a history of `order`
/// outputs; the newest output comes first.
pub open spec fn coefficient(order: int, index: int) -> (i32, i32) {
    if order == 2 {
        if index == 0 {
            (3i32, 2i32)
        } else {
            (-1i32, 2i32)
        }
    } else if order == 3 {
        if index == 0 {
            (23i32, 12i32)
        } else if index == 1 {
            (-16i32, 12i32)
        } else {
            (5i32, 12i32)
        }
    } else {
        if index == 0 {
            (55i32, 24i32)
        } else if index == 1 {
            (-59i32, 24i32)
        } else if index == 2 {
            (37i32, 24i32)
        } else {
            (-9i32, 24i32)
        }
    }
}

/// The sum of the numerators of one order's coefficients.
pub open spec fn numerators(order: int, count: nat) -> int
    decreases count,
{
    if count == 0 {
        0
    } else {
        numerators(order, (count - 1) as nat) + coefficient(order, count - 1).0
    }
}

/// The coefficients of every order add up to one, so an output that does not change is taken as it
/// is.
pub proof fn coefficients_add_up_to_one(order: int)
    requires
        2 <= order <= 4,
    ensures
        numerators(order, order as nat) == coefficient(order, 0).1,
{
    reveal_with_fuel(numerators, 5);
}

/// A coefficient of the multistep method.
fn coefficient_of(order: usize, index: usize) -> (pair: (i32, i32))
    ensures
        pair == coefficient(order as int, index as int),
{
    if order == 2 {
        if index == 0 {
            (3, 2)
        } else {
            (-1, 2)
        }
    } else if order == 3 {
        if index == 0 {
            (23, 12)
        } else if index == 1 {
            (-16, 12)
        } else {
            (5, 12)
        }
    } else {
        if index == 0 {
            (55, 24)
        } else if index == 1 {
            (-59, 24)
        } else if index == 2 {
            (37, 24)
        } else {
            (-9, 24)
        }
    }
}

/// The numbers that the coefficients of an order stand for.
pub open spec fn weights_are<T, R: Fn(i32, i32) -> T>(
    ratio: R,
    order: int,
    weights: Seq<T>,
) -> bool {
    &&& weights.len() == order
    &&& forall|j: int|
        0 <= j < order ==> call_ensures(ratio, coefficient(order, j), #[trigger] weights[j])
}

/// Element `i` of each output of a history, the newest first.
pub open spec fn column<T>(history: Seq<Seq<T>>, i: int) -> Seq<T> {
    Seq::new(history.len(), |j: int| history[history.len() - 1 - j][i])
}

/// `out` is the weighted sum of the outputs of a history.
pub open spec fn combines<T, R: Fn(i32, i32) -> T, M: Fn(T, T, T) -> T>(
    ratio: R,
    mac: M,
    zero: T,
    history: Seq<Seq<T>>,
    out: Seq<T>,
) -> bool {
    exists|weights: Seq<T>|
        {
            &&& #[trigger] weights_are(ratio, history.len() as int, weights)
            &&& out.len() == history[0].len()
            &&& forall|i: int|
                0 <= i < out.len() ==> fold::accumulates(
                    mac,
                    weights,
                    column(history, i),
                    fold::run(0, 0, history.len()),
                    zero,
                    #[trigger] out[i],
                )
        }
}

/// The lengths of the outputs of a history agree.
pub open spec fn same_lengths<T>(history: Seq<Seq<T>>) -> bool {
    forall|k: int| 0 <= k < history.len() ==> (#[trigger] history[k]).len() == history[0].len()
}

/// The texts of nested vectors.
pub open spec fn nested<T>(vectors: Seq<Vec<T>>) -> Seq<Seq<T>> {
    Seq::new(vectors.len(), |i: int| vectors[i]@)
}

/// A history after one more output: at most the last four are kept.
pub open spec fn remembered<T>(history: Seq<Seq<T>>, output: Seq<T>) -> Seq<Seq<T>> {
    if history.len() > 3 {
        history.skip(1).push(output)
    } else {
        history.push(output)
    }
}

/// The PNDM schedule.
pub struct Sd15Scheduler<T> {
    alphas: Vec<T>,
    timesteps: Vec<usize>,
    ratio: usize,
    counter: usize,
    history: Vec<Vec<T>>,
    bootstrap: Option<Vec<T>>,
}

impl<T: Copy> Sd15Scheduler<T> {
    /// The cumulative products of the training schedule.
    pub closed spec fn alphas(&self) -> Seq<T> {
        self.alphas@
    }

    /// The timesteps, in order.
    pub closed spec fn schedule(&self) -> Seq<usize> {
        self.timesteps@
    }

    /// How far apart timesteps are.
    pub closed spec fn spacing(&self) -> int {
        self.ratio as int
    }

    /// The number of steps done.
    pub closed spec fn done(&self) -> int {
        self.counter as int
    }

    /// The outputs that are remembered, the oldest first.
    pub closed spec fn outputs(&self) -> Seq<Seq<T>> {
        nested(self.history@)
    }

    /// The sample that the first step was given, until the second step has used it.
    pub closed spec fn first_sample(&self) -> Option<Seq<T>> {
        match self.bootstrap {
            Some(sample) => Some(sample@),
            None => None,
        }
    }

    /// The schedule is one of 1 to 1000 steps. Before the first step no output is remembered, before
    /// the second one is, and after that one to four are.
    pub open spec fn wf(&self) -> bool {
        &&& self.alphas().len() == TRAIN_TIMESTEPS
        &&& exists|steps: nat|
            {
                &&& 1 <= steps <= 1000
                &&& self.schedule() == #[trigger] pndm_timesteps(steps)
                &&& self.spacing() == step_ratio(steps)
            }
        &&& 0 <= self.done() <= self.schedule().len()
        &&& if self.done() <= 1 {
            self.outputs().len() == self.done()
        } else {
            1 <= self.outputs().len() <= 4
        }
    }

    /// A schedule of `inference_steps` steps.
    pub fn new(inference_steps: usize, alphas: Vec<T>) -> (result: Result<Self, SchedulerError>)
        requires
            alphas@.len() == TRAIN_TIMESTEPS,
        ensures
            (1 <= inference_steps <= 1000) ==> {
                &&& result is Ok && result->Ok_0.wf()
                &&& result->Ok_0.alphas() == alphas@
                &&& result->Ok_0.schedule() == pndm_timesteps(inference_steps as nat)
                &&& result->Ok_0.spacing() == step_ratio(inference_steps as nat)
                &&& result->Ok_0.done() == 0
                &&& result->Ok_0.first_sample() is None
            },
            !(1 <= inference_steps <= 1000) ==> result == Err::<Self, _>(
                SchedulerError::InferenceSteps,
            ),
    {
        if inference_steps == 0 || inference_steps > TRAIN_TIMESTEPS {
            return Err(SchedulerError::InferenceSteps);
        }
        let n: usize = inference_steps;
        let ratio: usize = TRAIN_TIMESTEPS / n;
        let mut timesteps: Vec<usize> = Vec::with_capacity(n + 1);
        proof {
            lemma_base_timestep(n as nat, n - 1);
        }
        timesteps.push((n - 1) * ratio + 1);
        if n > 1 {
            proof {
                lemma_base_timestep(n as nat, n - 2);
            }
            timesteps.push((n - 2) * ratio + 1);
            let mut index: usize = n - 1;
            while index > 0
                invariant
                    1 < n <= 1000,
                    index <= n - 1,
                    ratio == step_ratio(n as nat),
                    timesteps@.len() == n + 1 - index,
                    forall|k: int|
                        0 <= k < timesteps@.len() ==> #[trigger] timesteps@[k] == pndm_timesteps(
                            n as nat,
                        )[k],
                decreases index,
            {
                index = index - 1;
                proof {
                    lemma_base_timestep(n as nat, index as int);
                }
                timesteps.push(index * ratio + 1);
            }
            proof {
                assert(timesteps@ =~= pndm_timesteps(n as nat));
            }
        } else {
            proof {
                assert(0 * ratio == 0) by (nonlinear_arith);
                assert(timesteps@ =~= seq![1usize]);
            }
        }
        let scheduler = Sd15Scheduler {
            alphas,
            timesteps,
            ratio,
            counter: 0,
            history: Vec::new(),
            bootstrap: None,
        };
        proof {
            assert(scheduler.outputs() =~= Seq::empty());
            assert(scheduler.schedule() == pndm_timesteps(n as nat));
        }
        Ok(scheduler)
    }

    /// The timesteps, in order.
    pub fn timesteps(&self) -> (timesteps: &[usize])
        ensures
            timesteps@ == self.schedule(),
    {
        &self.timesteps
    }

    /// The cumulative products of the training schedule.
    pub fn alphas_cumprod(&self) -> (alphas: &[T])
        ensures
            alphas@ == self.alphas(),
    {
        &self.alphas
    }
}

/// Why a step is refused before anything has been done, if it is.
pub open spec fn step_refusal(
    schedule: Seq<usize>,
    done: int,
    has_first: bool,
    sample: nat,
    model: nat,
    timestep: usize,
) -> Option<SchedulerError> {
    if model != sample {
        Some(SchedulerError::LengthMismatch { sample: sample as usize, model: model as usize })
    } else if timestep >= TRAIN_TIMESTEPS {
        Some(SchedulerError::OutsideSchedule { timestep })
    } else if done >= schedule.len() {
        Some(SchedulerError::TooManySteps)
    } else if timestep != schedule[done] {
        Some(
            SchedulerError::UnexpectedTimestep {
                expected: schedule[done],
                step: done as usize,
                actual: timestep,
            },
        )
    } else if done == 1 && !has_first {
        Some(SchedulerError::BootstrapMissing)
    } else {
        None
    }
}

/// Where in the training schedule the step starts: the second step repeats the first.
pub open spec fn from_timestep(done: int, timestep: int, spacing: int) -> int {
    if done == 1 {
        timestep + spacing
    } else {
        timestep
    }
}

/// Where in the training schedule the step ends; after the last one it is the schedule's start.
pub open spec fn to_timestep(done: int, timestep: int, spacing: int) -> int {
    if done == 1 {
        timestep
    } else if timestep >= spacing {
        timestep - spacing
    } else {
        0
    }
}

/// The outputs that a step combines: the second step leaves the history as it is.
pub open spec fn history_after<T>(done: int, history: Seq<Seq<T>>, model: Seq<T>) -> Seq<Seq<T>> {
    if done == 1 {
        history
    } else {
        remembered(history, model)
    }
}

/// The sample that a step starts from: the second step starts from the first one's.
pub open spec fn start_sample<T>(done: int, first: Option<Seq<T>>, sample: Seq<T>) -> Seq<T> {
    if done == 1 {
        first->0
    } else {
        sample
    }
}

/// `combined` is what a step makes of the outputs: the model's own at the first step, their average
/// at the second, and a weighted sum after that.
pub open spec fn step_combines<T, A: Fn(T, T) -> T, R: Fn(i32, i32) -> T, M: Fn(T, T, T) -> T>(
    average: A,
    ratio: R,
    mac: M,
    zero: T,
    done: int,
    history: Seq<Seq<T>>,
    model: Seq<T>,
    combined: Seq<T>,
) -> bool {
    if done == 0 {
        combined == model
    } else if done == 1 {
        &&& combined.len() == if model.len() <= history[0].len() {
            model.len()
        } else {
            history[0].len()
        }
        &&& forall|i: int|
            0 <= i < combined.len() ==> call_ensures(
                average,
                (model[i], history[0][i]),
                #[trigger] combined[i],
            )
    } else {
        combines(ratio, mac, zero, history, combined)
    }
}

/// `output` is each element of a sample moved from one timestep to another.
pub open spec fn moved<T, P: Fn(T, T, T, T) -> T>(
    previous: P,
    alpha: T,
    previous_alpha: T,
    sample: Seq<T>,
    combined: Seq<T>,
    output: Seq<T>,
) -> bool {
    &&& output.len() == sample.len()
    &&& forall|i: int|
        0 <= i < output.len() ==> call_ensures(
            previous,
            (alpha, previous_alpha, sample[i], combined[i]),
            #[trigger] output[i],
        )
}

/// The weighted sum of the outputs of a history.
fn combine_outputs<T: Copy, R: Fn(i32, i32) -> T, M: Fn(T, T, T) -> T>(
    history: &Vec<Vec<T>>,
    zero: T,
    ratio: &R,
    mac: &M,
) -> (result: Result<Vec<T>, SchedulerError>)
    requires
        2 <= history@.len() <= 4,
        fold::total2(*ratio),
        fold::total3(*mac),
    ensures
        same_lengths(nested(history@)) ==> result is Ok && combines(
            *ratio,
            *mac,
            zero,
            nested(history@),
            result->Ok_0@,
        ),
        !same_lengths(nested(history@)) ==> result == Err::<Vec<T>, _>(
            SchedulerError::HistoryLengths,
        ),
{
    let ghost all = nested(history@);
    let order: usize = history.len();
    let width: usize = history[0].len();
    let mut k: usize = 0;
    while k < order
        invariant
            k <= order == history@.len(),
            all == nested(history@),
            width == history@[0]@.len(),
            forall|j: int| 0 <= j < k ==> (#[trigger] all[j]).len() == all[0].len(),
        decreases order - k,
    {
        if history[k].len() != width {
            proof {
                assert(all[k as int].len() != all[0].len());
            }
            return Err(SchedulerError::HistoryLengths);
        }
        k = k + 1;
    }
    let mut weights: Vec<T> = Vec::with_capacity(order);
    let mut j: usize = 0;
    while j < order
        invariant
            j == weights@.len() <= order,
            fold::total2(*ratio),
            forall|i: int|
                0 <= i < j ==> call_ensures(
                    *ratio,
                    coefficient(order as int, i),
                    #[trigger] weights@[i],
                ),
        decreases order - j,
    {
        let (numerator, denominator): (i32, i32) = coefficient_of(order, j);
        weights.push(ratio(numerator, denominator));
        j = j + 1;
    }
    let mut out: Vec<T> = Vec::with_capacity(width);
    let mut i: usize = 0;
    while i < width
        invariant
            i == out@.len() <= width,
            2 <= order == history@.len() <= 4,
            all == nested(history@),
            same_lengths(all),
            width == all[0].len(),
            weights@.len() == order,
            fold::total3(*mac),
            forall|e: int|
                0 <= e < i ==> fold::accumulates(
                    *mac,
                    weights@,
                    column(all, e),
                    fold::run(0, 0, order as nat),
                    zero,
                    #[trigger] out@[e],
                ),
        decreases width - i,
    {
        let mut values: Vec<T> = Vec::with_capacity(order);
        let mut back: usize = 0;
        while back < order
            invariant
                back == values@.len() <= order == history@.len(),
                all == nested(history@),
                same_lengths(all),
                i < width == all[0].len(),
                forall|b: int|
                    0 <= b < back ==> #[trigger] values@[b] == all[order - 1 - b][i as int],
            decreases order - back,
        {
            proof {
                assert(all[order - 1 - back].len() == all[0].len());
            }
            values.push(history[order - 1 - back][i]);
            back = back + 1;
        }
        proof {
            assert(values@ =~= column(all, i as int));
        }
        out.push(dot(&weights, 0, &values, 0, order, zero, mac));
        i = i + 1;
    }
    proof {
        assert(all.len() == order);
        assert(weights_are(*ratio, all.len() as int, weights@));
        assert(out@.len() == all[0].len());
        assert(combines(*ratio, *mac, zero, all, out@));
    }
    Ok(out)
}

/// Each element of a sample moved from one timestep to another.
fn previous_sample<T: Copy, P: Fn(T, T, T, T) -> T>(
    alpha: T,
    previous_alpha: T,
    sample: &[T],
    combined: &[T],
    previous: &P,
) -> (output: Vec<T>)
    requires
        sample@.len() == combined@.len(),
        forall|a: T, b: T, c: T, d: T| #[trigger] call_requires(*previous, (a, b, c, d)),
    ensures
        moved(*previous, alpha, previous_alpha, sample@, combined@, output@),
{
    let mut output: Vec<T> = Vec::with_capacity(sample.len());
    let mut i: usize = 0;
    while i < sample.len()
        invariant
            i == output@.len() <= sample@.len() == combined@.len(),
            forall|a: T, b: T, c: T, d: T| #[trigger] call_requires(*previous, (a, b, c, d)),
            forall|e: int|
                0 <= e < i ==> call_ensures(
                    *previous,
                    (alpha, previous_alpha, sample@[e], combined@[e]),
                    #[trigger] output@[e],
                ),
        decreases sample.len() - i,
    {
        output.push(previous(alpha, previous_alpha, sample[i], combined[i]));
        i = i + 1;
    }
    output
}

impl<T: Copy> Sd15Scheduler<T> {
    /// The schedule stays the same.
    pub open spec fn same_schedule(&self, other: &Self) -> bool {
        &&& self.alphas() == other.alphas()
        &&& self.schedule() == other.schedule()
        &&& self.spacing() == other.spacing()
    }

    /// The schedule and all that it remembers stay the same.
    pub open spec fn unchanged(&self, other: &Self) -> bool {
        &&& self.same_schedule(other)
        &&& self.done() == other.done()
        &&& self.outputs() == other.outputs()
        &&& self.first_sample() == other.first_sample()
    }

    /// The history that the next step combines.
    pub open spec fn next_history(&self, model: Seq<T>) -> Seq<Seq<T>> {
        history_after(self.done(), self.outputs(), model)
    }

    /// What a step makes of the schedule, and what it gives.
    pub open spec fn advances<
        A: Fn(T, T) -> T,
        R: Fn(i32, i32) -> T,
        M: Fn(T, T, T) -> T,
        P: Fn(T, T, T, T) -> T,
    >(
        &self,
        after: &Self,
        model_output: Seq<T>,
        timestep: usize,
        sample: Seq<T>,
        zero: T,
        average: A,
        ratio: R,
        mac: M,
        previous: P,
        result: Result<Vec<T>, SchedulerError>,
    ) -> bool {
        match step_refusal(
            self.schedule(),
            self.done(),
            self.first_sample() is Some,
            sample.len(),
            model_output.len(),
            timestep,
        ) {
            Some(error) => result == Err::<Vec<T>, _>(error) && after.unchanged(self),
            None => {
                let done = self.done();
                let history = self.next_history(model_output);
                let start = start_sample(done, self.first_sample(), sample);
                let from = from_timestep(done, timestep as int, self.spacing());
                let to = to_timestep(done, timestep as int, self.spacing());
                &&& after.outputs() == history
                &&& match result {
                    Ok(output) => {
                        &&& after.done() == done + 1
                        &&& after.first_sample() == if done == 0 {
                            Some(sample)
                        } else if done == 1 {
                            None
                        } else {
                            self.first_sample()
                        }
                        &&& from < TRAIN_TIMESTEPS
                        &&& done >= 2 ==> same_lengths(history)
                        &&& exists|combined: Seq<T>|
                            {
                                &&& #[trigger] step_combines(
                                    average,
                                    ratio,
                                    mac,
                                    zero,
                                    done,
                                    history,
                                    model_output,
                                    combined,
                                )
                                &&& combined.len() == start.len()
                                &&& moved(
                                    previous,
                                    self.alphas()[from],
                                    self.alphas()[to],
                                    start,
                                    combined,
                                    output@,
                                )
                            }
                    },
                    Err(error) => {
                        &&& after.done() == done
                        &&& done == 1 ==> after.first_sample() is None
                        &&& error == SchedulerError::HistoryLengths <==> done >= 2
                            && !same_lengths(history)
                        &&& error == SchedulerError::OutsideAlphas ==> from >= TRAIN_TIMESTEPS
                        &&& error == SchedulerError::HistoryLengths || error
                            == SchedulerError::SampleLength || error
                            == SchedulerError::OutsideAlphas
                        &&& error == SchedulerError::SampleLength ==> (if done == 0 {
                            false
                        } else if done == 1 {
                            start.len() != if model_output.len() <= history[0].len() {
                                model_output.len()
                            } else {
                                history[0].len()
                            }
                        } else {
                            history[0].len() != sample.len()
                        })
                    },
                }
            },
        }
    }

    /// Does one step: the sample at the schedule's next timestep.
    pub fn step<
        A: Fn(T, T) -> T,
        R: Fn(i32, i32) -> T,
        M: Fn(T, T, T) -> T,
        P: Fn(T, T, T, T) -> T,
    >(
        &mut self,
        model_output: &[T],
        timestep: usize,
        sample: &[T],
        zero: T,
        average: A,
        ratio: R,
        mac: M,
        previous: P,
    ) -> (result: Result<Vec<T>, SchedulerError>)
        requires
            old(self).wf(),
            fold::total2(average),
            fold::total2(ratio),
            fold::total3(mac),
            forall|a: T, b: T, c: T, d: T| #[trigger] call_requires(previous, (a, b, c, d)),
        ensures
            final(self).wf(),
            final(self).same_schedule(old(self)),
            old(self).advances(
                final(self),
                model_output@,
                timestep,
                sample@,
                zero,
                average,
                ratio,
                mac,
                previous,
                result,
            ),
    {
        proof {
            assert(model_output@.len() == model_output.len());
            assert(sample@.len() == sample.len());
        }
        if model_output.len() != sample.len() {
            return Err(
                SchedulerError::LengthMismatch { sample: sample.len(), model: model_output.len() },
            );
        }
        if timestep >= TRAIN_TIMESTEPS {
            return Err(SchedulerError::OutsideSchedule { timestep });
        }
        if self.counter >= self.timesteps.len() {
            return Err(SchedulerError::TooManySteps);
        }
        if timestep != self.timesteps[self.counter] {
            return Err(
                SchedulerError::UnexpectedTimestep {
                    expected: self.timesteps[self.counter],
                    step: self.counter,
                    actual: timestep,
                },
            );
        }
        if self.counter == 1 && self.bootstrap.is_none() {
            return Err(SchedulerError::BootstrapMissing);
        }
        let ghost done = self.done();
        let ghost target = self.next_history(model_output@);
        let ghost start = start_sample(done, self.first_sample(), sample@);
        let ghost steps = choose|steps: nat|
            {
                &&& 1 <= steps <= 1000
                &&& self.schedule() == #[trigger] pndm_timesteps(steps)
                &&& self.spacing() == step_ratio(steps)
            };
        let counter: usize = self.counter;
        let ratio_steps: usize = self.ratio;
        proof {
            lemma_base_timestep(steps, 0);
            assert(1 <= step_ratio(steps) <= 1000);
        }
        if counter != 1 {
            if self.history.len() > 3 {
                self.history.remove(0);
            }
            self.history.push(vstd::slice::slice_to_vec(model_output));
        }
        proof {
            if counter != 1 {
                assert(self.outputs() =~= target);
            }
            assert(self.outputs() == target);
            assert(self.schedule() == pndm_timesteps(steps));
        }
        let from: usize = if counter == 1 {
            timestep + ratio_steps
        } else {
            timestep
        };
        let to: usize = if counter == 1 {
            timestep
        } else if timestep >= ratio_steps {
            timestep - ratio_steps
        } else {
            0
        };
        let mut taken: Option<Vec<T>> = None;
        if counter == 1 {
            taken = self.bootstrap.take();
        }
        let combined: Vec<T>;
        if counter == 0 {
            self.bootstrap = Some(vstd::slice::slice_to_vec(sample));
            combined = vstd::slice::slice_to_vec(model_output);
        } else if counter == 1 {
            combined = averaged(model_output, &self.history[0], &average);
        } else {
            combined = match combine_outputs(&self.history, zero, &ratio, &mac) {
                Ok(combined) => combined,
                Err(error) => {
                    return Err(error);
                },
            };
        }
        let ghost combined_seq = combined@;
        proof {
            assert(step_combines(
                average,
                ratio,
                mac,
                zero,
                done,
                target,
                model_output@,
                combined_seq,
            ));
        }
        let output: Vec<T>;
        match taken {
            Some(first) => {
                proof {
                    assert(first@ == start);
                }
                if first.len() != combined.len() {
                    return Err(SchedulerError::SampleLength);
                }
                if from >= TRAIN_TIMESTEPS {
                    return Err(SchedulerError::OutsideAlphas);
                }
                output = previous_sample(
                    self.alphas[from],
                    self.alphas[to],
                    &first,
                    &combined,
                    &previous,
                );
            },
            None => {
                if sample.len() != combined.len() {
                    return Err(SchedulerError::SampleLength);
                }
                output = previous_sample(
                    self.alphas[from],
                    self.alphas[to],
                    sample,
                    &combined,
                    &previous,
                );
            },
        }
        self.counter = counter + 1;
        Ok(output)
    }
}

/// The averages of two outputs, as far as both go.
fn averaged<T: Copy, A: Fn(T, T) -> T>(model: &[T], earlier: &Vec<T>, average: &A) -> (out: Vec<T>)
    requires
        fold::total2(*average),
    ensures
        out@.len() == if model@.len() <= earlier@.len() {
            model@.len()
        } else {
            earlier@.len()
        },
        forall|i: int|
            0 <= i < out@.len() ==> call_ensures(
                *average,
                (model@[i], earlier@[i]),
                #[trigger] out@[i],
            ),
{
    let len: usize = if model.len() <= earlier.len() {
        model.len()
    } else {
        earlier.len()
    };
    let mut out: Vec<T> = Vec::with_capacity(len);
    let mut i: usize = 0;
    while i < len
        invariant
            i == out@.len() <= len,
            len <= model@.len(),
            len <= earlier@.len(),
            fold::total2(*average),
            forall|e: int|
                0 <= e < i ==> call_ensures(
                    *average,
                    (model@[e], earlier@[e]),
                    #[trigger] out@[e],
                ),
        decreases len - i,
    {
        out.push(average(model[i], earlier[i]));
        i = i + 1;
    }
    out
}

/// A guidance scale is usable: finite and not negative.
pub open spec fn usable_scale(bits: u32) -> bool {
    float_order::finite(bits) && float_order::level(bits) >= 0
}

/// Combines the predictions with and without the prompt.
pub fn classifier_free_guidance<T: Copy, F: Fn(T, T, u32) -> T>(
    unconditional: &[T],
    conditional: &[T],
    scale: u32,
    guide: F,
) -> (result: Result<Vec<T>, SchedulerError>)
    requires
        forall|a: T, b: T, s: u32| #[trigger] call_requires(guide, (a, b, s)),
    ensures
        unconditional@.len() != conditional@.len() ==> result == Err::<Vec<T>, _>(
            SchedulerError::GuidanceLengths {
                unconditional: unconditional@.len() as usize,
                conditional: conditional@.len() as usize,
            },
        ),
        unconditional@.len() == conditional@.len() && !usable_scale(scale) ==> result == Err::<
            Vec<T>,
            _,
        >(SchedulerError::GuidanceScale),
        unconditional@.len() == conditional@.len() && usable_scale(scale) ==> {
            &&& result is Ok && result->Ok_0@.len() == unconditional@.len()
            &&& forall|i: int|
                0 <= i < unconditional@.len() ==> call_ensures(
                    guide,
                    (unconditional@[i], conditional@[i], scale),
                    #[trigger] result->Ok_0@[i],
                )
        },
{
    proof {
        assert(unconditional@.len() == unconditional.len());
        assert(conditional@.len() == conditional.len());
    }
    if unconditional.len() != conditional.len() {
        return Err(
            SchedulerError::GuidanceLengths {
                unconditional: unconditional.len(),
                conditional: conditional.len(),
            },
        );
    }
    if !is_finite(scale) || (scale > 0x8000_0000) {
        return Err(SchedulerError::GuidanceScale);
    }
    let mut out: Vec<T> = Vec::with_capacity(unconditional.len());
    let mut i: usize = 0;
    while i < unconditional.len()
        invariant
            i == out@.len() <= unconditional@.len() == conditional@.len(),
            forall|a: T, b: T, s: u32| #[trigger] call_requires(guide, (a, b, s)),
            forall|e: int|
                0 <= e < i ==> call_ensures(
                    guide,
                    (unconditional@[e], conditional@[e], scale),
                    #[trigger] out@[e],
                ),
        decreases unconditional.len() - i,
    {
        out.push(guide(unconditional[i], conditional[i], scale));
        i = i + 1;
    }
    Ok(out)
}

/// How many uniform numbers make `count` normal ones: two for each two, or for a last one.
pub open spec fn draws_needed(count: nat) -> nat {
    count + count % 2
}

/// `noise` holds normal numbers made of uniform ones, pair by pair: the first of a pair is what
/// `cosine` makes of two uniform numbers, the second what `sine` makes of the same two.
pub open spec fn shapes_noise<T, C: Fn(u64, u64) -> T, S: Fn(u64, u64) -> T>(
    cosine: C,
    sine: S,
    draws: Seq<u64>,
    noise: Seq<T>,
) -> bool {
    forall|i: int|
        0 <= i < noise.len() ==> if i % 2 == 0 {
            call_ensures(cosine, (draws[i], draws[i + 1]), #[trigger] noise[i])
        } else {
            call_ensures(sine, (draws[i - 1], draws[i]), noise[i])
        }
}

/// `noise` holds the normal numbers of a seed: those made of the first numbers that the small
/// generator gives for it.
pub open spec fn seeds_noise<T, C: Fn(u64, u64) -> T, S: Fn(u64, u64) -> T>(
    cosine: C,
    sine: S,
    seed: u64,
    noise: Seq<T>,
) -> bool {
    shapes_noise(cosine, sine, random::small_numbers(seed, draws_needed(noise.len())), noise)
}

/// Noise repeats with its seed: however far it goes, it is the same as far as both go.
pub proof fn noise_repeats_with_the_seed<T, C: Fn(u64, u64) -> T, S: Fn(u64, u64) -> T>(
    cosine: C,
    sine: S,
    seed: u64,
    short: Seq<T>,
    long: Seq<T>,
)
    requires
        fold::function2(cosine),
        fold::function2(sine),
        short.len() <= long.len(),
        seeds_noise(cosine, sine, seed, short),
        seeds_noise(cosine, sine, seed, long),
    ensures
        long.take(short.len() as int) == short,
{
    let few = random::small_numbers(seed, draws_needed(short.len()));
    let many = random::small_numbers(seed, draws_needed(long.len()));
    assert forall|i: int| 0 <= i < short.len() implies long[i] == short[i] by {
        if i % 2 == 0 {
            assert(few[i] == many[i] && few[i + 1] == many[i + 1]);
            assert(call_ensures(cosine, (few[i], few[i + 1]), short[i]));
            assert(call_ensures(cosine, (few[i], few[i + 1]), long[i]));
        } else {
            assert(few[i - 1] == many[i - 1] && few[i] == many[i]);
            assert(call_ensures(sine, (few[i - 1], few[i]), short[i]));
            assert(call_ensures(sine, (few[i - 1], few[i]), long[i]));
        }
    }
    assert(long.take(short.len() as int) =~= short);
}

/// Turns uniform numbers into normal ones, pair by pair.
pub fn noise_from_draws<T, C: Fn(u64, u64) -> T, S: Fn(u64, u64) -> T>(
    draws: &[u64],
    count: usize,
    cosine: C,
    sine: S,
) -> (noise: Vec<T>)
    requires
        draws@.len() == draws_needed(count as nat),
        fold::total2(cosine),
        fold::total2(sine),
    ensures
        noise@.len() == count,
        shapes_noise(cosine, sine, draws@, noise@),
{
    let mut noise: Vec<T> = Vec::with_capacity(count);
    proof {
        assert(draws@.len() == draws.len());
    }
    while noise.len() < count
        invariant
            noise@.len() <= count,
            noise@.len() % 2 == 0 || noise@.len() == count,
            draws@.len() == draws_needed(count as nat),
            draws@.len() == draws.len(),
            fold::total2(cosine),
            fold::total2(sine),
            shapes_noise(cosine, sine, draws@, noise@),
        decreases count - noise.len(),
    {
        let i: usize = noise.len();
        noise.push(cosine(draws[i], draws[i + 1]));
        if noise.len() < count {
            noise.push(sine(draws[i], draws[i + 1]));
        }
    }
    noise
}

/// Normal numbers from a seed.
pub fn gaussian_noise<T, C: Fn(u64, u64) -> T, S: Fn(u64, u64) -> T>(
    seed: u64,
    count: usize,
    cosine: C,
    sine: S,
) -> (noise: Vec<T>)
    requires
        count < usize::MAX,
        fold::total2(cosine),
        fold::total2(sine),
    ensures
        noise@.len() == count,
        seeds_noise(cosine, sine, seed, noise@),
{
    let draws = seeded_draws(seed, count + count % 2);
    noise_from_draws(&draws, count, cosine, sine)
}

/// Why a timestep is not embedded, if it is not.
pub open spec fn embedding_refusal(timestep: u32, dimension: usize) -> Option<SchedulerError> {
    if dimension == 0 || dimension % 2 != 0 {
        Some(SchedulerError::EmbeddingDimension)
    } else if !float_order::finite(timestep) {
        Some(SchedulerError::EmbeddingTimestep)
    } else {
        None
    }
}

/// `out` is the embedding of a timestep: the cosines of all frequencies, then the sines.
pub open spec fn embeds<T, C: Fn(u32, usize, usize) -> T, S: Fn(u32, usize, usize) -> T>(
    timestep: u32,
    dimension: usize,
    cosine: C,
    sine: S,
    out: Seq<T>,
) -> bool {
    let half = dimension / 2;
    &&& out.len() == dimension
    &&& forall|i: int|
        0 <= i < half ==> call_ensures(cosine, (timestep, i as usize, half), #[trigger] out[i])
    &&& forall|i: int|
        half <= i < dimension ==> call_ensures(
            sine,
            (timestep, (i - half) as usize, half),
            #[trigger] out[i],
        )
}

/// A timestep's embedding: the cosines of all frequencies, then their sines.
pub fn timestep_embedding<T, C: Fn(u32, usize, usize) -> T, S: Fn(u32, usize, usize) -> T>(
    timestep: u32,
    dimension: usize,
    cosine: C,
    sine: S,
) -> (result: Result<Vec<T>, SchedulerError>)
    requires
        fold::accepts3(cosine),
        fold::accepts3(sine),
    ensures
        match embedding_refusal(timestep, dimension) {
            Some(error) => result == Err::<Vec<T>, _>(error),
            None => result is Ok && embeds(
                timestep,
                dimension,
                cosine,
                sine,
                result->Ok_0@,
            ),
        },
{
    if dimension == 0 || dimension % 2 != 0 {
        return Err(SchedulerError::EmbeddingDimension);
    }
    if !is_finite(timestep) {
        return Err(SchedulerError::EmbeddingTimestep);
    }
    let half: usize = dimension / 2;
    let mut out: Vec<T> = Vec::with_capacity(dimension);
    let mut i: usize = 0;
    while i < half
        invariant
            i == out@.len() <= half,
            fold::accepts3(cosine),
            forall|e: int|
                0 <= e < i ==> call_ensures(
                    cosine,
                    (timestep, e as usize, half),
                    #[trigger] out@[e],
                ),
        decreases half - i,
    {
        out.push(cosine(timestep, i, half));
        i = i + 1;
    }
    let mut j: usize = 0;
    while j < half
        invariant
            j <= half,
            out@.len() == half + j,
            fold::accepts3(sine),
            forall|e: int|
                0 <= e < half ==> call_ensures(
                    cosine,
                    (timestep, e as usize, half),
                    #[trigger] out@[e],
                ),
            forall|e: int|
                half <= e < half + j ==> call_ensures(
                    sine,
                    (timestep, (e - half) as usize, half),
                    #[trigger] out@[e],
                ),
        decreases half - j,
    {
        out.push(sine(timestep, j, half));
        j = j + 1;
    }
    Ok(out)
}

} // verus!
