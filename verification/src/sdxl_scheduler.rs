//! The Euler schedule of SDXL.

use vstd::prelude::*;
use crate::fold;
use crate::sd_scheduler;
use crate::sd_scheduler::{SchedulerError, TRAIN_TIMESTEPS};

verus! {

/// The timesteps of `steps` inference steps, from the noisiest: evenly spaced, and one more.
pub open spec fn euler_timesteps(steps: nat) -> Seq<usize> {
    Seq::new(steps, |k: int| sd_scheduler::base_timestep(steps, steps - 1 - k) as usize)
}

/// Timesteps go down strictly, and end at 1.
pub proof fn timesteps_descend(steps: nat, i: int, j: int)
    requires
        1 <= steps <= 1000,
        0 <= i < j < steps,
    ensures
        1 <= euler_timesteps(steps)[j] < euler_timesteps(steps)[i] <= TRAIN_TIMESTEPS,
        euler_timesteps(steps).last() == 1,
{
    sd_scheduler::lemma_base_timestep(steps, steps - 1 - i);
    sd_scheduler::lemma_base_timestep(steps, steps - 1 - j);
    let ratio = sd_scheduler::step_ratio(steps);
    assert((steps - 1 - j) * ratio < (steps - 1 - i) * ratio) by (nonlinear_arith)
        requires
            steps - 1 - j < steps - 1 - i,
            ratio >= 1,
    ;
    assert(0 * ratio == 0) by (nonlinear_arith);
}

/// The noise level of a training timestep; past the end of the schedule it is the last one.
pub open spec fn sigma_at<T>(full: Seq<T>, timestep: int) -> T {
    if timestep >= full.len() {
        full.last()
    } else {
        full[timestep]
    }
}

/// The noise level of a training timestep.
fn interpolate_sigma<T: Copy>(full: &[T], timestep: usize) -> (sigma: T)
    requires
        full@.len() > 0,
    ensures
        sigma == sigma_at(full@, timestep as int),
{
    if timestep >= full.len() {
        full[full.len() - 1]
    } else {
        full[timestep]
    }
}

/// The noise levels of the steps, and zero after the last.
pub open spec fn step_sigmas<T>(full: Seq<T>, zero: T, steps: nat) -> Seq<T> {
    Seq::new(
        steps + 1,
        |k: int|
            if k < steps {
                sigma_at(full, euler_timesteps(steps)[k] as int)
            } else {
                zero
            },
    )
}

/// The Euler schedule.
pub struct SdxlScheduler<T> {
    sigmas: Vec<T>,
    timesteps: Vec<usize>,
    counter: usize,
}

impl<T: Copy> SdxlScheduler<T> {
    /// The noise levels, in order; the last stands after the last step.
    pub closed spec fn levels(&self) -> Seq<T> {
        self.sigmas@
    }

    /// The timesteps, in order.
    pub closed spec fn schedule(&self) -> Seq<usize> {
        self.timesteps@
    }

    /// The number of steps done.
    pub closed spec fn done(&self) -> int {
        self.counter as int
    }

    /// There is a noise level for each timestep and one more, and no more steps are done than there
    /// are.
    pub open spec fn wf(&self) -> bool {
        &&& self.levels().len() == self.schedule().len() + 1
        &&& 1 <= self.schedule().len()
        &&& 0 <= self.done() <= self.schedule().len()
    }

    /// A schedule of `inference_steps` steps over the noise levels of the training schedule.
    pub fn new(inference_steps: usize, full: &[T], zero: T) -> (result: Result<
        Self,
        SchedulerError,
    >)
        requires
            full@.len() == TRAIN_TIMESTEPS,
        ensures
            (1 <= inference_steps <= 1000) ==> {
                &&& result is Ok && result->Ok_0.wf()
                &&& result->Ok_0.schedule() == euler_timesteps(inference_steps as nat)
                &&& result->Ok_0.levels() == step_sigmas(full@, zero, inference_steps as nat)
                &&& result->Ok_0.done() == 0
            },
            !(1 <= inference_steps <= 1000) ==> result == Err::<Self, _>(
                SchedulerError::SdxlInferenceSteps,
            ),
    {
        if inference_steps == 0 || inference_steps > TRAIN_TIMESTEPS {
            return Err(SchedulerError::SdxlInferenceSteps);
        }
        let n: usize = inference_steps;
        let ratio: usize = TRAIN_TIMESTEPS / n;
        let mut timesteps: Vec<usize> = Vec::with_capacity(n);
        let mut sigmas: Vec<T> = Vec::with_capacity(n + 1);
        let mut index: usize = n;
        while index > 0
            invariant
                1 <= n <= 1000,
                index <= n,
                ratio == sd_scheduler::step_ratio(n as nat),
                full@.len() == TRAIN_TIMESTEPS,
                timesteps@.len() == n - index,
                sigmas@.len() == n - index,
                forall|k: int|
                    0 <= k < n - index ==> #[trigger] timesteps@[k] == euler_timesteps(n as nat)[k],
                forall|k: int|
                    0 <= k < n - index ==> #[trigger] sigmas@[k] == step_sigmas(
                        full@,
                        zero,
                        n as nat,
                    )[k],
            decreases index,
        {
            index = index - 1;
            proof {
                sd_scheduler::lemma_base_timestep(n as nat, index as int);
            }
            let timestep: usize = index * ratio + 1;
            timesteps.push(timestep);
            sigmas.push(interpolate_sigma(full, timestep));
        }
        sigmas.push(zero);
        proof {
            assert(timesteps@ =~= euler_timesteps(n as nat));
            assert(sigmas@ =~= step_sigmas(full@, zero, n as nat));
        }
        Ok(SdxlScheduler { sigmas, timesteps, counter: 0 })
    }

    /// The timesteps, in order.
    pub fn timesteps(&self) -> (timesteps: &[usize])
        ensures
            timesteps@ == self.schedule(),
    {
        &self.timesteps
    }

    /// The noise levels, in order.
    pub fn sigmas(&self) -> (sigmas: &[T])
        ensures
            sigmas@ == self.levels(),
    {
        &self.sigmas
    }

    /// The noise level of the step that comes next.
    pub fn current_sigma(&self) -> (sigma: T)
        requires
            self.wf(),
        ensures
            sigma == self.levels()[self.done()],
    {
        self.sigmas[self.counter]
    }

    /// The sample, scaled for the model.
    pub fn scale_model_input<F: Fn(T, T) -> T>(&self, sample: &[T], scale: F) -> (out: Vec<T>)
        requires
            self.wf(),
            fold::total2(scale),
        ensures
            out@.len() == sample@.len(),
            forall|i: int|
                0 <= i < out@.len() ==> call_ensures(
                    scale,
                    (sample@[i], self.levels()[self.done()]),
                    #[trigger] out@[i],
                ),
    {
        let sigma: T = self.current_sigma();
        let mut out: Vec<T> = Vec::with_capacity(sample.len());
        let mut i: usize = 0;
        while i < sample.len()
            invariant
                i == out@.len() <= sample@.len(),
                fold::total2(scale),
                forall|e: int|
                    0 <= e < i ==> call_ensures(scale, (sample@[e], sigma), #[trigger] out@[e]),
            decreases sample.len() - i,
        {
            out.push(scale(sample[i], sigma));
            i = i + 1;
        }
        out
    }

    /// The noise level that the first sample is scaled by.
    pub fn init_noise_sigma(&self) -> (sigma: T)
        requires
            self.wf(),
        ensures
            sigma == self.levels()[0],
    {
        self.sigmas[0]
    }

    /// Why a step is refused, if it is.
    pub open spec fn refusal(&self, sample: nat, model: nat, timestep: usize) -> Option<
        SchedulerError,
    > {
        if model != sample {
            Some(SchedulerError::LengthMismatch { sample: sample as usize, model: model as usize })
        } else if self.done() >= self.schedule().len() {
            Some(SchedulerError::TooManySteps)
        } else if timestep != self.schedule()[self.done()] {
            Some(
                SchedulerError::UnexpectedTimestep {
                    expected: self.schedule()[self.done()],
                    step: self.done() as usize,
                    actual: timestep,
                },
            )
        } else {
            None
        }
    }

    /// What a step makes of the schedule, and what it gives.
    pub open spec fn advances<F: Fn(T, T, T, T) -> T>(
        &self,
        after: &Self,
        model_output: Seq<T>,
        timestep: usize,
        sample: Seq<T>,
        advance: F,
        result: Result<Vec<T>, SchedulerError>,
    ) -> bool {
        match self.refusal(sample.len(), model_output.len(), timestep) {
            Some(error) => result == Err::<Vec<T>, _>(error) && after.done()
                == self.done(),
            None => {
                let done = self.done();
                &&& after.done() == done + 1
                &&& result is Ok && result->Ok_0@.len() == sample.len()
                &&& forall|i: int|
                    0 <= i < sample.len() ==> call_ensures(
                        advance,
                        (
                            sample[i],
                            model_output[i],
                            self.levels()[done],
                            self.levels()[done + 1],
                        ),
                        #[trigger] result->Ok_0@[i],
                    )
            },
        }
    }

    /// Does one step: each element moves along the model's output, from one noise level to the next.
    pub fn step<F: Fn(T, T, T, T) -> T>(
        &mut self,
        model_output: &[T],
        timestep: usize,
        sample: &[T],
        advance: F,
    ) -> (result: Result<Vec<T>, SchedulerError>)
        requires
            old(self).wf(),
            forall|a: T, b: T, c: T, d: T| #[trigger] call_requires(advance, (a, b, c, d)),
        ensures
            final(self).wf(),
            final(self).levels() == old(self).levels(),
            final(self).schedule() == old(self).schedule(),
            old(self).advances(
                final(self),
                model_output@,
                timestep,
                sample@,
                advance,
                result,
            ),
    {
        proof {
            assert(model_output@.len() == model_output.len());
            assert(sample@.len() == sample.len());
        }
        if model_output.len() != sample.len() {
            return Err(
                SchedulerError::LengthMismatch { sample: sample.len(), model: model_output.len() },
            );
        }
        if self.counter >= self.timesteps.len() {
            return Err(SchedulerError::TooManySteps);
        }
        if timestep != self.timesteps[self.counter] {
            return Err(
                SchedulerError::UnexpectedTimestep {
                    expected: self.timesteps[self.counter],
                    step: self.counter,
                    actual: timestep,
                },
            );
        }
        let sigma: T = self.sigmas[self.counter];
        let sigma_next: T = self.sigmas[self.counter + 1];
        let mut out: Vec<T> = Vec::with_capacity(sample.len());
        let mut i: usize = 0;
        while i < sample.len()
            invariant
                i == out@.len() <= sample@.len() == model_output@.len(),
                forall|a: T, b: T, c: T, d: T| #[trigger] call_requires(advance, (a, b, c, d)),
                forall|e: int|
                    0 <= e < i ==> call_ensures(
                        advance,
                        (sample@[e], model_output@[e], sigma, sigma_next),
                        #[trigger] out@[e],
                    ),
            decreases sample.len() - i,
        {
            out.push(advance(sample[i], model_output[i], sigma, sigma_next));
            i = i + 1;
        }
        self.counter = self.counter + 1;
        Ok(out)
    }
}

} // verus!
