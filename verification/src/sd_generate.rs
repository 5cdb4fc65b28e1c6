//! Images from text, with the first model.

use vstd::prelude::*;
use crate::fold;
use crate::layers::Kernels;
use crate::layout;
use crate::reshape::Array;
use crate::safetensors::Scalar;
use crate::sd15::Sd15Pack;
use crate::sd_clip;
use crate::sd_pipeline;
use crate::sd_pipeline::{
    validate_request, Action, Cancelled, Generation, GenerationProgress, GenerationRequest,
    RequestError,
};
use crate::sd_scheduler;
use crate::sd_scheduler::{
    alphas_cumprod, classifier_free_guidance, gaussian_noise, Sd15Scheduler, SchedulerError,
};
use crate::sd_unet;
use crate::sd_vae;
use crate::sd_vae::VaeError;
use crate::tensor;
use crate::tensor::Tensor;
use crate::text_encoder::EncoderError;
use crate::tiles::Blend;
use crate::unet::{UnetError, UnetModel};

verus! {

/// Why no image is made.
#[derive(Clone, Debug, PartialEq, Eq)]
pub enum GenerationError {
    Request(RequestError),
    Cancelled,
    Encoder(EncoderError),
    Unet(UnetError),
    Schedule(SchedulerError),
    Vae(VaeError),
}

impl GenerationError {
    /// What the message says.
    pub open spec fn text(&self) -> Seq<char> {
        match *self {
            GenerationError::Request(error) => error.text(),
            GenerationError::Cancelled => "generation cancelled"@,
            GenerationError::Encoder(error) => error@.text(),
            GenerationError::Unet(error) => error@.text(UnetModel::Sd15),
            GenerationError::Schedule(error) => error.text(),
            GenerationError::Vae(error) => error@.text(),
        }
    }

    /// A message for the user.
    pub fn message(&self) -> (message: String)
        ensures
            message@ == self.text(),
    {
        match self {
            GenerationError::Request(error) => error.message().to_owned(),
            GenerationError::Cancelled => Cancelled.message().to_owned(),
            GenerationError::Encoder(error) => error.message(),
            GenerationError::Unet(error) => error.message(UnetModel::Sd15),
            GenerationError::Schedule(error) => error.message(),
            GenerationError::Vae(error) => error.message(),
        }
    }
}

/// A pack, and the arithmetic that makes images with it.
pub struct Painter<'a, T, M, P, G, L, E, Q, A, B, C, H, N, F, W, O, D, I, J, K, R, S, U, V, X, Y, AA, BB> {
    pub pack: &'a Sd15Pack<'a>,
    pub kernels: Kernels<T, M, P, G, L, E, Q, A, B, C, H, N>,
    pub blend: Blend<F, W, O, D>,
    pub one: T,
    /// The next cumulative product of the training schedule.
    pub next: I,
    pub average: J,
    /// The number that a fraction stands for.
    pub ratio: K,
    /// The sample at the timestep before.
    pub previous: R,
    /// A prediction without the prompt, guided by one with it.
    pub guide: S,
    /// The bit pattern of a whole number.
    pub single: U,
    /// The cosines and sines of a timestep.
    pub cosine: V,
    pub sine: X,
    /// Normally distributed numbers from two draws.
    pub noise_cosine: Y,
    pub noise_sine: AA,
    pub divide: BB,
}

/// The dimensions of the latents.
pub open spec fn latent_dims() -> Seq<usize> {
    seq![1, 4, 64, 64]
}

/// The number of latents.
pub const LATENTS: usize = 16384;

/// The schedule and the latents between two steps.
pub struct Between<T> {
    pub scheduler: Sd15Scheduler<T>,
    pub latents: Array<T>,
}

impl<T: Copy> Between<T> {
    /// The timestep that comes next.
    pub open spec fn timestep(self) -> usize {
        self.scheduler.schedule()[self.scheduler.done()]
    }
}

/// The dimensions hold the latents.
proof fn lemma_latents()
    ensures
        tensor::valid_shape(latent_dims()),
        layout::product(latent_dims()) == LATENTS,
{
    let dims = latent_dims();
    layout::lemma_product_small(dims);
    assert(dims[0] * dims[1] * dims[2] * dims[3] == 16384) by (nonlinear_arith)
        requires
            dims[0] == 1,
            dims[1] == 4,
            dims[2] == 64,
            dims[3] == 64,
    ;
}

/// What the script asks for before the first step.
pub(crate) proof fn lemma_start(total: nat)
    ensures
        sd_pipeline::script(total).len() == 16 + 7 * total,
        sd_pipeline::script(total)[0] == Action::Check,
        sd_pipeline::script(total)[1] is Report,
        sd_pipeline::script(total)[2] == Action::EncodeNegative,
        sd_pipeline::script(total)[3] == Action::Check,
        sd_pipeline::script(total)[4] is Report,
        sd_pipeline::script(total)[5] == Action::EncodePrompt,
        sd_pipeline::script(total)[6] == Action::Check,
        sd_pipeline::script(total)[7] is Report,
        sd_pipeline::script(total)[8] == Action::Prepare,
        sd_pipeline::script(total)[9] is Report,
{
    sd_pipeline::lemma_script_len(total);
    sd_pipeline::lemma_opening(total, 0);
    sd_pipeline::lemma_opening(total, 1);
    sd_pipeline::lemma_opening(total, 2);
    sd_pipeline::lemma_opening(total, 3);
    sd_pipeline::lemma_opening(total, 4);
    sd_pipeline::lemma_opening(total, 5);
    sd_pipeline::lemma_opening(total, 6);
    sd_pipeline::lemma_opening(total, 7);
    sd_pipeline::lemma_opening(total, 8);
    sd_pipeline::lemma_opening(total, 9);
}

/// What the script asks for at a step.
pub(crate) proof fn lemma_step(total: nat, index: nat)
    requires
        index < total,
    ensures
        sd_pipeline::script(total).len() == 16 + 7 * total,
        sd_pipeline::script(total)[10 + 7 * index as int] == Action::Check,
        sd_pipeline::script(total)[11 + 7 * index as int] is PredictUnconditional,
        sd_pipeline::script(total)[12 + 7 * index as int] == Action::Check,
        sd_pipeline::script(total)[13 + 7 * index as int] is PredictConditional,
        sd_pipeline::script(total)[14 + 7 * index as int] == Action::Check,
        sd_pipeline::script(total)[15 + 7 * index as int] is Advance,
        sd_pipeline::script(total)[16 + 7 * index as int] is Report,
{
    sd_pipeline::lemma_script_len(total);
    sd_pipeline::lemma_round(total, index, 0);
    sd_pipeline::lemma_round(total, index, 1);
    sd_pipeline::lemma_round(total, index, 2);
    sd_pipeline::lemma_round(total, index, 3);
    sd_pipeline::lemma_round(total, index, 4);
    sd_pipeline::lemma_round(total, index, 5);
    sd_pipeline::lemma_round(total, index, 6);
}

/// What the script asks for after the last step.
pub(crate) proof fn lemma_end(total: nat)
    ensures
        sd_pipeline::script(total).len() == 16 + 7 * total,
        sd_pipeline::script(total)[10 + 7 * total as int] is Report,
        sd_pipeline::script(total)[11 + 7 * total as int] == Action::Check,
        sd_pipeline::script(total)[12 + 7 * total as int] == Action::Decode,
        sd_pipeline::script(total)[13 + 7 * total as int] == Action::Check,
        sd_pipeline::script(total)[14 + 7 * total as int] is Report,
{
    sd_pipeline::lemma_script_len(total);
    sd_pipeline::lemma_closing(total, 0);
    sd_pipeline::lemma_closing(total, 1);
    sd_pipeline::lemma_closing(total, 2);
    sd_pipeline::lemma_closing(total, 3);
    sd_pipeline::lemma_closing(total, 4);
}

/// A guidance scale of a request in order can be used.
pub(crate) proof fn lemma_scale(scale: u32)
    requires
        sd_pipeline::valid_guidance(scale),
    ensures
        sd_scheduler::usable_scale(scale),
{
}

/// The dimensions of the latents.
fn latent_shape() -> (shape: Vec<usize>)
    ensures
        shape@ == latent_dims(),
{
    let mut shape: Vec<usize> = Vec::new();
    shape.push(1);
    shape.push(4);
    shape.push(64);
    shape.push(64);
    proof {
        assert(shape@ =~= latent_dims());
    }
    shape
}

impl<
    'a,
    T: Copy,
    Z: Copy,
    M: Fn(T, T, T) -> T + Copy,
    P: Fn(T, T) -> T + Copy,
    G: Fn(T, T) -> T + Copy,
    L: Fn(T) -> T + Copy,
    E: Fn(T) -> T + Copy,
    Q: Fn(T) -> T + Copy,
    A: Fn(&[T], u32) -> Z + Copy,
    B: Fn(T, Z, T, T) -> T + Copy,
    C: Fn(T, usize) -> T + Copy,
    H: Fn(Vec<T>) -> Vec<T> + Copy,
    N: Fn(Scalar) -> T + Copy,
    F: Fn(usize, usize) -> T + Copy,
    W: Fn(T, T) -> T + Copy,
    O: Fn(T) -> bool + Copy,
    D: Fn(T, T) -> T + Copy,
    I: Fn(T, usize) -> T + Copy,
    J: Fn(T, T) -> T + Copy,
    K: Fn(i32, i32) -> T + Copy,
    R: Fn(T, T, T, T) -> T + Copy,
    S: Fn(T, T, u32) -> T + Copy,
    U: Fn(usize) -> u32 + Copy,
    V: Fn(u32, usize, usize) -> T + Copy,
    X: Fn(u32, usize, usize) -> T + Copy,
    Y: Fn(u64, u64) -> T + Copy,
    AA: Fn(u64, u64) -> T + Copy,
    BB: Fn(T, u32) -> T + Copy,
> Painter<'a, T, M, P, G, L, E, Q, A, B, C, H, N, F, W, O, D, I, J, K, R, S, U, V, X, Y, AA, BB> {
    /// The arithmetic accepts whatever it is given.
    pub open spec fn usable(self) -> bool {
        &&& self.pack.wf()
        &&& self.kernels.usable()
        &&& self.blend.usable()
        &&& fold::total2(self.next)
        &&& fold::total2(self.average)
        &&& fold::total2(self.ratio)
        &&& forall|a: T, b: T, c: T, d: T| #[trigger] call_requires(self.previous, (a, b, c, d))
        &&& forall|a: T, b: T, s: u32| #[trigger] call_requires(self.guide, (a, b, s))
        &&& fold::total1(self.single)
        &&& fold::accepts3(self.cosine)
        &&& fold::accepts3(self.sine)
        &&& fold::total2(self.noise_cosine)
        &&& fold::total2(self.noise_sine)
        &&& fold::total2(self.divide)
    }

    /// What the text encoder gives for a prompt.
    #[verifier::opaque]
    pub open spec fn encoded(
        self,
        prompt: Seq<char>,
        result: Result<Tensor<T>, EncoderError>,
    ) -> bool {
        sd_clip::encodes(
            self.kernels,
            self.pack.text_encoder.weights(),
            self.pack.tokenizer@.encode(prompt),
            result,
        )
    }

    /// What the model predicts for latents at their next timestep.
    #[verifier::opaque]
    pub open spec fn predicted(
        self,
        at: Between<T>,
        context: Array<T>,
        result: Result<Tensor<T>, UnetError>,
    ) -> bool {
        exists|bits: u32| #[trigger]
            call_ensures(self.single, (at.timestep(),), bits) && sd_unet::predicts(
                self.kernels,
                self.pack.unet.weights(),
                at.latents,
                bits,
                context,
                self.cosine,
                self.sine,
                result,
            )
    }

    /// The predictions without and with the prompt.
    pub open spec fn predicted_both(
        self,
        at: Between<T>,
        contexts: (Tensor<T>, Tensor<T>),
        without: Tensor<T>,
        with: Tensor<T>,
    ) -> bool {
        &&& self.predicted(at, contexts.0.array(), Ok(without))
        &&& self.predicted(at, contexts.1.array(), Ok(with))
    }

    /// A prediction, guided.
    pub open spec fn guided(
        self,
        scale: u32,
        without: Seq<T>,
        with: Seq<T>,
        guided: Seq<T>,
    ) -> bool {
        &&& without.len() == with.len() == guided.len()
        &&& forall|i: int|
            0 <= i < guided.len() ==> call_ensures(
                self.guide,
                (without[i], with[i], scale),
                #[trigger] guided[i],
            )
    }

    /// What the schedule makes of a guided prediction.
    #[verifier::opaque]
    pub open spec fn advanced(
        self,
        before: Between<T>,
        guided: Seq<T>,
        after: Sd15Scheduler<T>,
        result: Result<Vec<T>, SchedulerError>,
    ) -> bool {
        before.scheduler.advances(
            &after,
            guided,
            before.timestep(),
            before.latents.data,
            self.kernels.zero,
            self.average,
            self.ratio,
            self.kernels.mac,
            self.previous,
            result,
        )
    }

    /// One step: the noise is predicted without and with the prompt, guided, and taken away.
    pub open spec fn moves(
        self,
        scale: u32,
        contexts: (Tensor<T>, Tensor<T>),
        before: Between<T>,
        after: Between<T>,
    ) -> bool {
        exists|without: Tensor<T>, with: Tensor<T>, guided: Seq<T>, data: Vec<T>|
            {
                &&& #[trigger] self.predicted_both(before, contexts, without, with)
                &&& #[trigger] self.guided(scale, without@, with@, guided)
                &&& #[trigger] self.advanced(before, guided, after.scheduler, Ok(data))
                &&& after.latents == (Array { dims: latent_dims(), data: data@ })
            }
    }

    /// The latents before the first step are the noise of the seed, and the schedule has the steps
    /// of the request.
    #[verifier::opaque]
    pub open spec fn begins(self, request: GenerationRequest, start: Between<T>) -> bool {
        &&& start.latents.dims == latent_dims()
        &&& start.latents.data.len() == LATENTS
        &&& sd_scheduler::seeds_noise(
            self.noise_cosine,
            self.noise_sine,
            request.seed,
            start.latents.data,
        )
        &&& sd_scheduler::running(self.next, self.one, start.scheduler.alphas())
        &&& start.scheduler.schedule() == sd_scheduler::pndm_timesteps(request.steps as nat)
        &&& start.scheduler.spacing() == sd_scheduler::step_ratio(request.steps as nat)
        &&& start.scheduler.done() == 0
    }

    /// The step at a place of a trace.
    pub open spec fn moves_at(
        self,
        scale: u32,
        contexts: (Tensor<T>, Tensor<T>),
        trace: Seq<Between<T>>,
        k: int,
    ) -> bool {
        self.moves(scale, contexts, trace[k], trace[k + 1])
    }

    /// The prompts are encoded, and a trace has its first steps.
    pub open spec fn midway(
        self,
        request: GenerationRequest,
        contexts: (Tensor<T>, Tensor<T>),
        trace: Seq<Between<T>>,
    ) -> bool {
        &&& self.encoded(request.negative_prompt@, Ok(contexts.0))
        &&& self.encoded(request.prompt@, Ok(contexts.1))
        &&& trace.len() > 0
        &&& self.begins(request, trace[0])
        &&& forall|k: int|
            0 <= k < trace.len() - 1 ==> #[trigger] self.moves_at(
                request.guidance_scale,
                contexts,
                trace,
                k,
            )
    }

    /// What the decoder gives for latents.
    #[verifier::opaque]
    pub open spec fn decoded(
        self,
        latents: Array<T>,
        result: Result<Tensor<T>, VaeError>,
    ) -> bool {
        sd_vae::decodes_scaled(
            self.kernels,
            self.blend,
            self.pack.vae.weights(),
            latents,
            sd_vae::LATENT_SCALE,
            self.divide,
            result,
        )
    }

    /// All steps are done, and the decoder gives a result.
    pub open spec fn paints(
        self,
        request: GenerationRequest,
        result: Result<Tensor<T>, VaeError>,
    ) -> bool {
        exists|contexts: (Tensor<T>, Tensor<T>), trace: Seq<Between<T>>|
            {
                &&& #[trigger] self.midway(request, contexts, trace)
                &&& trace.len() == sd_scheduler::pndm_timesteps(request.steps as nat).len() + 1
                &&& self.decoded(trace.last().latents, result)
            }
    }

    /// The model refuses one of the steps.
    pub open spec fn fails_to_predict(self, request: GenerationRequest, error: UnetError) -> bool {
        exists|contexts: (Tensor<T>, Tensor<T>), trace: Seq<Between<T>>|
            {
                &&& #[trigger] self.midway(request, contexts, trace)
                &&& trace.len() <= sd_scheduler::pndm_timesteps(request.steps as nat).len()
                &&& {
                    ||| self.predicted(trace.last(), contexts.0.array(), Err(error))
                    ||| self.predicted(trace.last(), contexts.1.array(), Err(error))
                }
            }
    }

    /// The schedule refuses what the model predicts at one of the steps.
    pub open spec fn fails_to_advance(
        self,
        request: GenerationRequest,
        error: SchedulerError,
    ) -> bool {
        exists|
            contexts: (Tensor<T>, Tensor<T>),
            trace: Seq<Between<T>>,
            without: Tensor<T>,
            with: Tensor<T>,
        |
            {
                &&& #[trigger] self.midway(request, contexts, trace)
                &&& trace.len() <= sd_scheduler::pndm_timesteps(request.steps as nat).len()
                &&& #[trigger] self.predicted_both(trace.last(), contexts, without, with)
                &&& self.refuses(request.guidance_scale, trace.last(), without@, with@, error)
            }
    }

    /// Predictions of different lengths cannot be guided; others the schedule may refuse.
    pub open spec fn refuses(
        self,
        scale: u32,
        at: Between<T>,
        without: Seq<T>,
        with: Seq<T>,
        error: SchedulerError,
    ) -> bool {
        if without.len() != with.len() {
            error == SchedulerError::GuidanceLengths {
                unconditional: without.len() as usize,
                conditional: with.len() as usize,
            }
        } else {
            exists|guided: Seq<T>, after: Sd15Scheduler<T>|
                {
                    &&& #[trigger] self.guided(scale, without, with, guided)
                    &&& #[trigger] self.advanced(at, guided, after, Err(error))
                }
        }
    }

    /// What encoder, model, schedule and decoder make of a request that is in order.
    pub open spec fn made(
        self,
        request: GenerationRequest,
        result: Result<Tensor<T>, GenerationError>,
    ) -> bool {
        match result {
            Ok(image) => self.paints(request, Ok(image)),
            Err(GenerationError::Request(_)) => false,
            Err(GenerationError::Cancelled) => false,
            Err(GenerationError::Encoder(error)) => {
                ||| self.encoded(request.negative_prompt@, Err(error))
                ||| self.encoded(request.prompt@, Err(error))
            },
            Err(GenerationError::Unet(error)) => self.fails_to_predict(request, error),
            Err(GenerationError::Schedule(error)) => self.fails_to_advance(request, error),
            Err(GenerationError::Vae(error)) => self.paints(request, Err(error)),
        }
    }

    /// What comes of a request: an image, if it is in order, nobody cancels, and encoder, model,
    /// schedule and decoder refuse nothing; else the first refusal.
    pub open spec fn outcome(
        self,
        request: GenerationRequest,
        result: Result<Tensor<T>, GenerationError>,
    ) -> bool {
        match sd_pipeline::request_refusal(
            request.prompt@,
            request.steps,
            request.guidance_scale,
        ) {
            Some(error) => result == Err::<Tensor<T>, _>(GenerationError::Request(error)),
            None => {
                ||| result == Err::<Tensor<T>, _>(GenerationError::Cancelled)
                ||| self.made(request, result)
            },
        }
    }

    /// How many steps a request asks for.
    pub open spec fn steps(request: GenerationRequest) -> nat {
        sd_scheduler::pndm_timesteps(request.steps as nat).len()
    }

    /// The script ends at a place with a result: an image at its end, an error at the action that
    /// gives it.
    pub open spec fn ends_at(
        request: GenerationRequest,
        result: Result<Tensor<T>, GenerationError>,
        n: int,
    ) -> bool {
        let action = sd_pipeline::script(Self::steps(request))[n];
        &&& 0 <= n < sd_pipeline::script(Self::steps(request)).len()
        &&& match result {
            Ok(_) => action == Action::Finish,
            Err(GenerationError::Request(_)) => false,
            Err(GenerationError::Cancelled) => action == Action::Check,
            Err(GenerationError::Encoder(_)) => action is EncodeNegative || action is EncodePrompt,
            Err(GenerationError::Unet(_)) => action is PredictUnconditional
                || action is PredictConditional,
            Err(GenerationError::Schedule(_)) => action is Advance,
            Err(GenerationError::Vae(_)) => action == Action::Decode,
        }
    }

    /// A generation asks and tells what the script says, up to the place at which it ends with a
    /// result: every question before that place gets leave to go on, and the one at which it is
    /// cancelled does not.
    pub open spec fn follows<CC: Fn(usize) -> bool, DD: Fn(GenerationProgress)>(
        request: GenerationRequest,
        on_progress: DD,
        is_cancelled: CC,
        result: Result<Tensor<T>, GenerationError>,
    ) -> bool {
        exists|n: int|
            {
                &&& #[trigger] Self::ends_at(request, result, n)
                &&& sd_pipeline::asked(is_cancelled, Self::steps(request), n)
                &&& sd_pipeline::told(on_progress, Self::steps(request), n)
                &&& result matches Err(GenerationError::Cancelled) ==> call_ensures(
                    is_cancelled,
                    (n as usize,),
                    true,
                )
            }
    }

    /// Predicts the noise at the next timestep of a schedule.
    fn predict(
        &self,
        scheduler: &Sd15Scheduler<T>,
        timestep: usize,
        latents: &Tensor<T>,
        context: &Tensor<T>,
    ) -> (result: Result<Tensor<T>, UnetError>)
        requires
            self.usable(),
            latents.wf(),
            context.wf(),
            latents.dims() == latent_dims(),
            0 <= scheduler.done() < scheduler.schedule().len(),
            timestep == scheduler.schedule()[scheduler.done()],
        ensures
            self.predicted(
                (Between { scheduler: *scheduler, latents: latents.array() }),
                context.array(),
                result,
            ),
            result is Ok ==> result->Ok_0.wf(),
    {
        let ghost at = Between { scheduler: *scheduler, latents: latents.array() };
        let bits: u32 = (self.single)(timestep);
        let result = self.pack.predict_noise(
            &self.kernels,
            latents,
            bits,
            context,
            self.cosine,
            self.sine,
        );
        proof {
            reveal(Painter::predicted);
            assert(at.timestep() == timestep);
            assert(call_ensures(self.single, (at.timestep(),), bits));
        }
        result
    }

    /// Encodes a prompt.
    fn encode(&self, prompt: &str) -> (result: Result<Tensor<T>, EncoderError>)
        requires
            self.usable(),
        ensures
            self.encoded(prompt@, result),
            result is Ok ==> result->Ok_0.wf(),
    {
        proof {
            reveal(Painter::encoded);
        }
        self.pack.encode_prompt(&self.kernels, prompt)
    }

    /// Decodes latents.
    fn decode(&self, latents: &Tensor<T>) -> (result: Result<Tensor<T>, VaeError>)
        requires
            self.usable(),
            latents.wf(),
            latents.dims() == latent_dims(),
        ensures
            self.decoded(latents.array(), result),
            result is Ok ==> result->Ok_0.wf(),
    {
        proof {
            reveal(Painter::decoded);
            let dims = latents.dims();
            assert(dims[2] * dims[3] == 4096) by (nonlinear_arith)
                requires
                    dims[2] == 64,
                    dims[3] == 64,
            ;
        }
        self.pack.decode_latents(&self.kernels, &self.blend, latents, self.divide)
    }

    /// Guides a prediction and takes it away from the latents.
    fn advance(
        &self,
        scale: u32,
        scheduler: &mut Sd15Scheduler<T>,
        timestep: usize,
        latents: &Tensor<T>,
        without: &Tensor<T>,
        with: &Tensor<T>,
        Ghost(contexts): Ghost<(Tensor<T>, Tensor<T>)>,
    ) -> (result: Result<Tensor<T>, SchedulerError>)
        requires
            self.usable(),
            sd_scheduler::usable_scale(scale),
            old(scheduler).wf(),
            0 <= old(scheduler).done() < old(scheduler).schedule().len(),
            timestep == old(scheduler).schedule()[old(scheduler).done()],
            old(scheduler).first_sample() matches Some(first) ==> first.len() == LATENTS,
            latents.wf(),
            latents.dims() == latent_dims(),
            without.wf(),
            with.wf(),
            self.predicted_both(
                (Between { scheduler: *old(scheduler), latents: latents.array() }),
                contexts,
                *without,
                *with,
            ),
        ensures
            match result {
                Ok(next) => {
                    &&& next.wf()
                    &&& next.dims() == latent_dims()
                    &&& final(scheduler).wf()
                    &&& final(scheduler).schedule() == old(scheduler).schedule()
                    &&& final(scheduler).done() == old(scheduler).done() + 1
                    &&& final(scheduler).first_sample() matches Some(first) ==> first.len()
                        == LATENTS
                    &&& self.moves(
                        scale,
                        contexts,
                        (Between { scheduler: *old(scheduler), latents: latents.array() }),
                        (Between { scheduler: *final(scheduler), latents: next.array() }),
                    )
                },
                Err(error) => self.refuses(
                    scale,
                    (Between { scheduler: *old(scheduler), latents: latents.array() }),
                    without@,
                    with@,
                    error,
                ),
            },
    {
        let ghost before = Between { scheduler: *scheduler, latents: latents.array() };
        proof {
            lemma_latents();
            assert(latents@.len() == LATENTS);
            assert(before.timestep() == timestep);
        }
        let guided = match classifier_free_guidance(
            without.data(),
            with.data(),
            scale,
            self.guide,
        ) {
            Err(error) => {
                return Err(error);
            },
            Ok(guided) => guided,
        };
        proof {
            assert(self.guided(scale, without@, with@, guided@));
        }
        let stepped = scheduler.step(
            guided.as_slice(),
            timestep,
            latents.data(),
            self.kernels.zero,
            self.average,
            self.ratio,
            self.kernels.mac,
            self.previous,
        );
        proof {
            reveal(Painter::advanced);
            assert(self.advanced(before, guided@, *scheduler, stepped));
        }
        match stepped {
            Err(error) => Err(error),
            Ok(updated) => {
                let ghost data = updated;
                let next = Tensor::new(latent_shape(), updated).unwrap();
                proof {
                    let after = Between { scheduler: *scheduler, latents: next.array() };
                    assert(after.latents == (Array { dims: latent_dims(), data: data@ }));
                    assert(self.advanced(before, guided@, after.scheduler, Ok(data)));
                }
                Ok(next)
            },
        }
    }

    /// The schedule and the latents before the first step.
    fn start(&self, request: &GenerationRequest) -> (start: (Sd15Scheduler<T>, Tensor<T>))
        requires
            self.usable(),
            1 <= request.steps <= 100,
        ensures
            start.0.wf(),
            start.0.schedule() == sd_scheduler::pndm_timesteps(request.steps as nat),
            start.0.done() == 0,
            start.0.first_sample() is None,
            start.1.wf(),
            start.1.dims() == latent_dims(),
            self.begins(
                *request,
                (Between { scheduler: start.0, latents: start.1.array() }),
            ),
    {
        proof {
            lemma_latents();
        }
        let shape = latent_shape();
        let noise = gaussian_noise(request.seed, LATENTS, self.noise_cosine, self.noise_sine);
        let latents = Tensor::new(shape, noise).unwrap();
        let alphas = alphas_cumprod(self.one, self.next);
        let scheduler = Sd15Scheduler::new(request.steps, alphas).unwrap();
        proof {
            reveal(Painter::begins);
        }
        (scheduler, latents)
    }

    /// Makes an image. What happens in between is told, and asked for, as the script says; every
    /// question is put with its place in the script.
    pub fn generate_asking<CC: Fn(usize) -> bool, DD: Fn(GenerationProgress)>(
        &self,
        request: &GenerationRequest,
        on_progress: &DD,
        is_cancelled: &CC,
    ) -> (result: Result<Tensor<T>, GenerationError>)
        requires
            self.usable(),
            forall|place: usize| #[trigger] call_requires(*is_cancelled, (place,)),
            forall|progress: GenerationProgress| #[trigger]
                call_requires(*on_progress, (progress,)),
        ensures
            self.outcome(*request, result),
            sd_pipeline::request_refusal(
                request.prompt@,
                request.steps,
                request.guidance_scale,
            ) is None ==> Self::follows(
                *request,
                *on_progress,
                *is_cancelled,
                result,
            ),
            result is Ok ==> result->Ok_0.wf(),
    {
        match validate_request(request) {
            Err(error) => {
                return Err(GenerationError::Request(error));
            },
            Ok(()) => {},
        }
        let (scheduler, latents) = self.start(request);
        let mut scheduler = scheduler;
        let mut latents = latents;
        let total: usize = scheduler.timesteps().len();
        let mut script = Generation::new(total);
        let ghost steps = Self::steps(*request);
        proof {
            lemma_start(total as nat);
        }
        if script.ask(is_cancelled).is_err() {
            proof {
                assert(Self::ends_at(
                    *request,
                    Err(GenerationError::Cancelled),
                    script.at as int,
                ));
            }
            return Err(GenerationError::Cancelled);
        }
        script.tell(on_progress);
        let without = match self.encode(request.negative_prompt.as_str()) {
            Err(error) => {
                proof {
                    assert(Self::ends_at(
                        *request,
                        Err(GenerationError::Encoder(error)),
                        script.at as int,
                    ));
                }
                return Err(GenerationError::Encoder(error));
            },
            Ok(context) => context,
        };
        let _ = script.proceed(false);
        if script.ask(is_cancelled).is_err() {
            proof {
                assert(Self::ends_at(
                    *request,
                    Err(GenerationError::Cancelled),
                    script.at as int,
                ));
            }
            return Err(GenerationError::Cancelled);
        }
        script.tell(on_progress);
        let with = match self.encode(request.prompt.as_str()) {
            Err(error) => {
                proof {
                    assert(Self::ends_at(
                        *request,
                        Err(GenerationError::Encoder(error)),
                        script.at as int,
                    ));
                }
                return Err(GenerationError::Encoder(error));
            },
            Ok(context) => context,
        };
        let _ = script.proceed(false);
        if script.ask(is_cancelled).is_err() {
            proof {
                assert(Self::ends_at(
                    *request,
                    Err(GenerationError::Cancelled),
                    script.at as int,
                ));
            }
            return Err(GenerationError::Cancelled);
        }
        script.tell(on_progress);
        let _ = script.proceed(false);
        script.tell(on_progress);
        let ghost contexts = (without, with);
        let ghost mut trace = seq![Between { scheduler, latents: latents.array() }];
        proof {
            assert(self.midway(*request, contexts, trace));
        }
        let mut index: usize = 0;
        while index < total
            invariant
                index <= total,
                total == sd_scheduler::pndm_timesteps(request.steps as nat).len(),
                total <= 101,
                1 <= request.steps <= 100,
                sd_pipeline::request_refusal(
                    request.prompt@,
                    request.steps,
                    request.guidance_scale,
                ) is None,
                self.usable(),
                forall|place: usize| #[trigger] call_requires(*is_cancelled, (place,)),
                forall|progress: GenerationProgress| #[trigger]
                    call_requires(*on_progress, (progress,)),
                script.wf(),
                script.total == total,
                script.at == 10 + 7 * index,
                steps == total == Self::steps(*request),
                sd_pipeline::asked(*is_cancelled, steps, script.at as int),
                sd_pipeline::told(*on_progress, steps, script.at as int),
                contexts == (without, with),
                without.wf(),
                with.wf(),
                latents.wf(),
                latents.dims() == latent_dims(),
                scheduler.wf(),
                scheduler.schedule() == sd_scheduler::pndm_timesteps(request.steps as nat),
                scheduler.done() == index,
                scheduler.first_sample() matches Some(first) ==> first.len() == LATENTS,
                trace.len() == index + 1,
                trace.last() == (Between { scheduler, latents: latents.array() }),
                self.midway(*request, contexts, trace),
            decreases total - index,
        {
            proof {
                lemma_step(total as nat, index as nat);
                lemma_latents();
            }
            let timestep: usize = scheduler.timesteps()[index];
            if script.ask(is_cancelled).is_err() {
                proof {
                    assert(Self::ends_at(
                        *request,
                        Err(GenerationError::Cancelled),
                        script.at as int,
                    ));
                }
                return Err(GenerationError::Cancelled);
            }
            let first = match self.predict(&scheduler, timestep, &latents, &without) {
                Err(error) => {
                    proof {
                        assert(self.midway(*request, contexts, trace));
                        assert(Self::ends_at(
                            *request,
                            Err(GenerationError::Unet(error)),
                            script.at as int,
                        ));
                    }
                    return Err(GenerationError::Unet(error));
                },
                Ok(noise) => noise,
            };
            let _ = script.proceed(false);
            if script.ask(is_cancelled).is_err() {
                proof {
                    assert(Self::ends_at(
                        *request,
                        Err(GenerationError::Cancelled),
                        script.at as int,
                    ));
                }
                return Err(GenerationError::Cancelled);
            }
            let second = match self.predict(&scheduler, timestep, &latents, &with) {
                Err(error) => {
                    proof {
                        assert(self.midway(*request, contexts, trace));
                        assert(Self::ends_at(
                            *request,
                            Err(GenerationError::Unet(error)),
                            script.at as int,
                        ));
                    }
                    return Err(GenerationError::Unet(error));
                },
                Ok(noise) => noise,
            };
            let _ = script.proceed(false);
            if script.ask(is_cancelled).is_err() {
                proof {
                    assert(Self::ends_at(
                        *request,
                        Err(GenerationError::Cancelled),
                        script.at as int,
                    ));
                }
                return Err(GenerationError::Cancelled);
            }
            proof {
                assert(self.predicted_both(trace.last(), contexts, first, second));
                lemma_scale(request.guidance_scale);
            }
            let next = match self.advance(
                request.guidance_scale,
                &mut scheduler,
                timestep,
                &latents,
                &first,
                &second,
                Ghost(contexts),
            ) {
                Err(error) => {
                    proof {
                        assert(self.midway(*request, contexts, trace));
                        assert(self.predicted_both(trace.last(), contexts, first, second));
                        assert(Self::ends_at(
                            *request,
                            Err(GenerationError::Schedule(error)),
                            script.at as int,
                        ));
                    }
                    return Err(GenerationError::Schedule(error));
                },
                Ok(next) => next,
            };
            latents = next;
            let _ = script.proceed(false);
            script.tell(on_progress);
            proof {
                let after = Between { scheduler, latents: latents.array() };
                let longer = trace.push(after);
                assert forall|k: int| 0 <= k < longer.len() - 1 implies #[trigger] self.moves_at(
                    request.guidance_scale,
                    contexts,
                    longer,
                    k,
                ) by {
                    if k < trace.len() - 1 {
                        assert(self.moves_at(request.guidance_scale, contexts, trace, k));
                        assert(longer[k] == trace[k] && longer[k + 1] == trace[k + 1]);
                    } else {
                        assert(longer[k] == trace.last());
                    }
                }
                assert(longer[0] == trace[0]);
                trace = longer;
            }
            index = index + 1;
        }
        proof {
            lemma_end(total as nat);
        }
        script.tell(on_progress);
        if script.ask(is_cancelled).is_err() {
            proof {
                assert(Self::ends_at(
                    *request,
                    Err(GenerationError::Cancelled),
                    script.at as int,
                ));
            }
            return Err(GenerationError::Cancelled);
        }
        let image = match self.decode(&latents) {
            Err(error) => {
                proof {
                    assert(self.midway(*request, contexts, trace));
                    assert(self.paints(*request, Err(error)));
                    assert(Self::ends_at(
                        *request,
                        Err(GenerationError::Vae(error)),
                        script.at as int,
                    ));
                }
                return Err(GenerationError::Vae(error));
            },
            Ok(image) => image,
        };
        let _ = script.proceed(false);
        if script.ask(is_cancelled).is_err() {
            proof {
                assert(Self::ends_at(
                    *request,
                    Err(GenerationError::Cancelled),
                    script.at as int,
                ));
            }
            return Err(GenerationError::Cancelled);
        }
        script.tell(on_progress);
        proof {
            assert(self.midway(*request, contexts, trace));
            assert(self.paints(*request, Ok(image)));
            assert(Self::ends_at(*request, Ok(image), script.at as int));
        }
        Ok(image)
    }

    /// Makes an image. What happens in between is told, and asked for, as the script says.
    pub fn generate_with_control<CC: Fn() -> bool, DD: Fn(GenerationProgress)>(
        &self,
        request: &GenerationRequest,
        on_progress: &DD,
        is_cancelled: &CC,
    ) -> (result: Result<Tensor<T>, GenerationError>)
        requires
            self.usable(),
            call_requires(*is_cancelled, ()),
            forall|progress: GenerationProgress| #[trigger]
                call_requires(*on_progress, (progress,)),
        ensures
            self.outcome(*request, result),
            sd_pipeline::request_refusal(
                request.prompt@,
                request.steps,
                request.guidance_scale,
            ) is None ==> exists|n: int|
                {
                    &&& #[trigger] Self::ends_at(*request, result, n)
                    &&& n > 0 ==> call_ensures(*is_cancelled, (), false)
                    &&& sd_pipeline::told(*on_progress, Self::steps(*request), n)
                },
            result is Ok ==> call_ensures(*is_cancelled, (), false),
            result matches Err(GenerationError::Cancelled) ==> call_ensures(
                *is_cancelled,
                (),
                true,
            ),
            result is Ok ==> sd_pipeline::told(
                *on_progress,
                Self::steps(*request),
                sd_pipeline::script(Self::steps(*request)).len() as int,
            ),
            result is Ok ==> result->Ok_0.wf(),
    {
        let anywhere = |place: usize| -> (cancelled: bool)
            requires
                sd_pipeline::answerable(is_cancelled),
            ensures
                sd_pipeline::answered(is_cancelled, cancelled),
            { is_cancelled() };
        let result = self.generate_asking(request, on_progress, &anywhere);
        proof {
            let steps = Self::steps(*request);
            sd_pipeline::lemma_first_question(steps);
            sd_pipeline::lemma_closing(steps, 5);
            sd_pipeline::lemma_finish(steps);
        }
        result
    }

    /// Makes an image.
    pub fn generate(&self, request: &GenerationRequest) -> (result: Result<
        Tensor<T>,
        GenerationError,
    >)
        requires
            self.usable(),
        ensures
            result is Ok ==> result->Ok_0.wf(),
            match sd_pipeline::request_refusal(
                request.prompt@,
                request.steps,
                request.guidance_scale,
            ) {
                Some(error) => result == Err::<Tensor<T>, _>(GenerationError::Request(error)),
                None => self.made(*request, result),
            },
    {
        let silent = |progress: GenerationProgress| -> (told: ())
            requires
                true,
            {  };
        let never = || -> (cancelled: bool)
            requires
                true,
            ensures
                !cancelled,
            { false };
        self.generate_with_control(request, &silent, &never)
    }
}

} // verus!
