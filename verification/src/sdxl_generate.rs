//! Images from text, with the second model.

use vstd::prelude::*;
use crate::fold;
use crate::layers::Kernels;
use crate::layout;
use crate::reshape;
use crate::reshape::Array;
use crate::safetensors::Scalar;
use crate::sd_generate;
use crate::sd_pipeline;
use crate::sd_pipeline::{Action, Cancelled, Generation, GenerationProgress, RequestError};
use crate::sd_scheduler;
use crate::sd_scheduler::{
    alphas_cumprod, classifier_free_guidance, gaussian_noise, SchedulerError, TRAIN_TIMESTEPS,
};
use crate::sd_vae;
use crate::sd_vae::VaeError;
use crate::sdxl;
use crate::sdxl::{DecodeError, SdxlPack};
use crate::sdxl_clip;
use crate::sdxl_pipeline;
use crate::sdxl_pipeline::{latent_shape, time_ids, validate_request, GenerationRequest};
use crate::sdxl_scheduler;
use crate::sdxl_scheduler::SdxlScheduler;
use crate::sdxl_unet;
use crate::tensor;
use crate::tensor::Tensor;
use crate::text_encoder::EncoderError;
use crate::tiles::Blend;
use crate::unet::{UnetError, UnetModel};

verus! {

/// Why no image is made.
#[derive(Clone, Debug, PartialEq, Eq)]
pub enum GenerationError {
    Request(RequestError),
    Cancelled,
    Encoder(EncoderError),
    Unet(UnetError),
    Schedule(SchedulerError),
    Decode(DecodeError),
}

impl GenerationError {
    /// What the message says.
    pub open spec fn text(&self) -> Seq<char> {
        match *self {
            GenerationError::Request(error) => error.text(),
            GenerationError::Cancelled => "generation cancelled"@,
            GenerationError::Encoder(error) => error@.text(),
            GenerationError::Unet(error) => error@.text(UnetModel::Sdxl),
            GenerationError::Schedule(error) => error.text(),
            GenerationError::Decode(error) => error.text(),
        }
    }

    /// A message for the user.
    pub fn message(&self) -> (message: String)
        ensures
            message@ == self.text(),
    {
        match self {
            GenerationError::Request(error) => error.message().to_owned(),
            GenerationError::Cancelled => Cancelled.message().to_owned(),
            GenerationError::Encoder(error) => error.message(),
            GenerationError::Unet(error) => error.message(UnetModel::Sdxl),
            GenerationError::Schedule(error) => error.message(),
            GenerationError::Decode(error) => error.message(),
        }
    }
}

/// A pack, and the arithmetic that makes images with it.
pub struct SdxlPainter<'a, T, M, P, G, L, E, Q, A, B, C, H, N, F, W, O, D, I, J, K, R, S, U, V, X, Y, AA, BB, EE, FF> {
    pub pack: &'a SdxlPack<'a>,
    pub kernels: Kernels<T, M, P, G, L, E, Q, A, B, C, H, N>,
    pub blend: Blend<F, W, O, D>,
    pub one: T,
    /// The next cumulative product of the training schedule.
    pub next: I,
    /// The noise level that a cumulative product stands for.
    pub level: J,
    /// A latent scaled for the model, at a noise level.
    pub scale: K,
    /// The sample at the next noise level.
    pub advance: R,
    /// A prediction without the prompt, guided by one with it.
    pub guide: S,
    /// The bit pattern of a whole number.
    pub single: U,
    /// The cosines and sines of a timestep.
    pub cosine: V,
    pub sine: X,
    /// Normally distributed numbers from two draws.
    pub noise_cosine: Y,
    pub noise_sine: AA,
    pub divide: BB,
    /// Noise at a noise level.
    pub amplify: EE,
    /// Whether a number is finite.
    pub finite: FF,
}

/// The dimensions of the latents.
pub open spec fn latent_dims(resolution: usize) -> Seq<usize> {
    seq![1, 4, (resolution / 8) as usize, (resolution / 8) as usize]
}

/// The number of latents.
pub open spec fn latent_count(resolution: usize) -> int {
    4 * ((resolution / 8) * (resolution / 8))
}

/// The image has as many numbers as a machine can count.
pub open spec fn image_fits(resolution: usize) -> bool {
    192 * ((resolution / 8) * (resolution / 8)) <= usize::MAX
}

/// The sizes that the model is told.
pub open spec fn sizes(resolution: usize) -> Seq<usize> {
    seq![resolution, resolution, 0, 0, resolution, resolution]
}

/// The schedule and the latents between two steps.
pub struct Between<T> {
    pub scheduler: SdxlScheduler<T>,
    pub latents: Array<T>,
}

impl<T: Copy> Between<T> {
    /// The timestep that comes next.
    pub open spec fn timestep(self) -> usize {
        self.scheduler.schedule()[self.scheduler.done()]
    }

    /// The noise level before the next step.
    pub open spec fn sigma(self) -> T {
        self.scheduler.levels()[self.scheduler.done()]
    }
}

/// The dimensions hold the latents.
proof fn lemma_latents(resolution: usize)
    requires
        resolution >= 8,
        image_fits(resolution),
    ensures
        tensor::valid_shape(latent_dims(resolution)),
        layout::product(latent_dims(resolution)) == latent_count(resolution),
        4 <= latent_count(resolution) < usize::MAX,
{
    let dims = latent_dims(resolution);
    let side = (resolution / 8) as int;
    layout::lemma_product_small(dims);
    assert(1 * 4 * side * side == 4 * (side * side)) by (nonlinear_arith);
    assert(side * side >= 1) by (nonlinear_arith)
        requires
            side >= 1,
    ;
    assert(dims[0] * dims[1] * dims[2] * dims[3] == 1 * 4 * side * side) by (nonlinear_arith)
        requires
            dims[0] == 1,
            dims[1] == 4,
            dims[2] == side,
            dims[3] == side,
    ;
}

impl<
    'a,
    T: Copy,
    Z: Copy,
    M: Fn(T, T, T) -> T + Copy,
    P: Fn(T, T) -> T + Copy,
    G: Fn(T, T) -> T + Copy,
    L: Fn(T) -> T + Copy,
    E: Fn(T) -> T + Copy,
    Q: Fn(T) -> T + Copy,
    A: Fn(&[T], u32) -> Z + Copy,
    B: Fn(T, Z, T, T) -> T + Copy,
    C: Fn(T, usize) -> T + Copy,
    H: Fn(Vec<T>) -> Vec<T> + Copy,
    N: Fn(Scalar) -> T + Copy,
    F: Fn(usize, usize) -> T + Copy,
    W: Fn(T, T) -> T + Copy,
    O: Fn(T) -> bool + Copy,
    D: Fn(T, T) -> T + Copy,
    I: Fn(T, usize) -> T + Copy,
    J: Fn(T) -> T + Copy,
    K: Fn(T, T) -> T + Copy,
    R: Fn(T, T, T, T) -> T + Copy,
    S: Fn(T, T, u32) -> T + Copy,
    U: Fn(usize) -> u32 + Copy,
    V: Fn(u32, usize, usize) -> T + Copy,
    X: Fn(u32, usize, usize) -> T + Copy,
    Y: Fn(u64, u64) -> T + Copy,
    AA: Fn(u64, u64) -> T + Copy,
    BB: Fn(T, u32) -> T + Copy,
    EE: Fn(T, T) -> T + Copy,
    FF: Fn(T) -> bool + Copy,
> SdxlPainter<'a, T, M, P, G, L, E, Q, A, B, C, H, N, F, W, O, D, I, J, K, R, S, U, V, X, Y, AA, BB, EE, FF> {
    /// The arithmetic accepts whatever it is given.
    pub open spec fn usable(self) -> bool {
        &&& self.pack.wf()
        &&& self.kernels.usable()
        &&& self.blend.usable()
        &&& fold::total2(self.next)
        &&& fold::total1(self.level)
        &&& fold::total2(self.scale)
        &&& forall|a: T, b: T, c: T, d: T| #[trigger] call_requires(self.advance, (a, b, c, d))
        &&& forall|a: T, b: T, s: u32| #[trigger] call_requires(self.guide, (a, b, s))
        &&& fold::total1(self.single)
        &&& fold::accepts3(self.cosine)
        &&& fold::accepts3(self.sine)
        &&& fold::total2(self.noise_cosine)
        &&& fold::total2(self.noise_sine)
        &&& fold::total2(self.divide)
        &&& fold::total2(self.amplify)
        &&& fold::total1(self.finite)
    }

    /// What the text encoders give for a prompt.
    #[verifier::opaque]
    pub open spec fn encoded(
        self,
        prompt: Seq<char>,
        result: Result<(Tensor<T>, Vec<T>), EncoderError>,
    ) -> bool {
        exists|first: Result<Tensor<T>, EncoderError>|
            {
                &&& #[trigger] sdxl_clip::encodes(
                    self.kernels,
                    self.pack.text_encoder.weights(),
                    self.pack.tokenizer@.encode(prompt),
                    sdxl_clip::clip_l_spec(),
                    first,
                )
                &&& match first {
                    Err(error) => result is Err && result->Err_0 == error,
                    Ok(text) => exists|second: Result<(Tensor<T>, Vec<T>), EncoderError>|
                        {
                            &&& #[trigger] sdxl_clip::encodes_and_pools(
                                self.kernels,
                                self.pack.text_encoder_2.weights(),
                                self.pack.tokenizer_2@.encode(prompt),
                                sdxl_clip::clip_bigg_spec(),
                                second,
                            )
                            &&& match second {
                                Err(error) => result is Err && result->Err_0 == error,
                                Ok((text_2, pooled)) => {
                                    &&& result is Ok
                                    &&& result->Ok_0.0.array() == reshape::joined_last(
                                        text.array(),
                                        text_2.array(),
                                    )
                                    &&& result->Ok_0.1@ == pooled@
                                },
                            }
                        },
                }
            }
    }

    /// The latents, scaled for the model.
    pub open spec fn scaled(self, at: Between<T>, sample: Array<T>) -> bool {
        &&& sample.dims == at.latents.dims
        &&& sample.data.len() == at.latents.data.len()
        &&& forall|i: int|
            0 <= i < sample.data.len() ==> call_ensures(
                self.scale,
                (at.latents.data[i], at.sigma()),
                #[trigger] sample.data[i],
            )
    }

    /// The bit patterns of the sizes that the model is told.
    pub open spec fn told(self, resolution: usize, ids: Seq<u32>) -> bool {
        &&& ids.len() == 6
        &&& forall|k: int|
            0 <= k < 6 ==> call_ensures(self.single, (sizes(resolution)[k],), #[trigger] ids[k])
    }

    /// What the model predicts for scaled latents at their next timestep.
    #[verifier::opaque]
    pub open spec fn predicted(
        self,
        resolution: usize,
        at: Between<T>,
        sample: Array<T>,
        context: (Tensor<T>, Vec<T>),
        result: Result<Tensor<T>, UnetError>,
    ) -> bool {
        exists|bits: u32, ids: Seq<u32>| #[trigger]
            call_ensures(self.single, (at.timestep(),), bits) && #[trigger] self.told(
                resolution,
                ids,
            ) && sdxl_unet::predicts(
                self.kernels,
                self.pack.unet.weights(),
                sample,
                bits,
                context.0.array(),
                context.1@,
                ids,
                self.cosine,
                self.sine,
                result,
            )
    }

    /// The predictions without and with the prompt.
    pub open spec fn predicted_both(
        self,
        resolution: usize,
        at: Between<T>,
        contexts: ((Tensor<T>, Vec<T>), (Tensor<T>, Vec<T>)),
        without: Tensor<T>,
        with: Tensor<T>,
    ) -> bool {
        exists|sample: Array<T>|
            {
                &&& #[trigger] self.scaled(at, sample)
                &&& self.predicted(resolution, at, sample, contexts.0, Ok(without))
                &&& self.predicted(resolution, at, sample, contexts.1, Ok(with))
            }
    }

    /// A prediction, guided.
    pub open spec fn guided(
        self,
        scale: u32,
        without: Seq<T>,
        with: Seq<T>,
        guided: Seq<T>,
    ) -> bool {
        &&& without.len() == with.len() == guided.len()
        &&& forall|i: int|
            0 <= i < guided.len() ==> call_ensures(
                self.guide,
                (without[i], with[i], scale),
                #[trigger] guided[i],
            )
    }

    /// What the schedule makes of a guided prediction.
    #[verifier::opaque]
    pub open spec fn advanced(
        self,
        before: Between<T>,
        guided: Seq<T>,
        after: SdxlScheduler<T>,
        result: Result<Vec<T>, SchedulerError>,
    ) -> bool {
        before.scheduler.advances(
            &after,
            guided,
            before.timestep(),
            before.latents.data,
            self.advance,
            result,
        )
    }

    /// One step: the noise is predicted without and with the prompt, guided, and taken away.
    pub open spec fn moves(
        self,
        request: GenerationRequest,
        contexts: ((Tensor<T>, Vec<T>), (Tensor<T>, Vec<T>)),
        before: Between<T>,
        after: Between<T>,
    ) -> bool {
        exists|without: Tensor<T>, with: Tensor<T>, guided: Seq<T>, data: Vec<T>|
            {
                &&& #[trigger] self.predicted_both(
                    request.resolution,
                    before,
                    contexts,
                    without,
                    with,
                )
                &&& #[trigger] self.guided(request.guidance_scale, without@, with@, guided)
                &&& #[trigger] self.advanced(before, guided, after.scheduler, Ok(data))
                &&& after.latents == (Array {
                    dims: latent_dims(request.resolution),
                    data: data@,
                })
            }
    }

    /// The noise levels of the training schedule.
    pub open spec fn levels(self, full: Seq<T>) -> bool {
        exists|alphas: Seq<T>|
            {
                &&& #[trigger] sd_scheduler::running(self.next, self.one, alphas)
                &&& alphas.len() == TRAIN_TIMESTEPS
                &&& full.len() == TRAIN_TIMESTEPS
                &&& forall|i: int|
                    0 <= i < full.len() ==> call_ensures(
                        self.level,
                        (alphas[i],),
                        #[trigger] full[i],
                    )
            }
    }

    /// The latents before the first step are the noise of a seed at the first noise level.
    pub open spec fn noisy(self, seed: u64, start: Between<T>) -> bool {
        exists|noise: Seq<T>|
            {
                &&& noise.len() == start.latents.data.len()
                &&& #[trigger] sd_scheduler::seeds_noise(
                    self.noise_cosine,
                    self.noise_sine,
                    seed,
                    noise,
                )
                &&& forall|i: int|
                    0 <= i < noise.len() ==> call_ensures(
                        self.amplify,
                        (noise[i], start.scheduler.levels()[0]),
                        #[trigger] start.latents.data[i],
                    )
            }
    }

    /// The latents before the first step are the noise of the seed, and the schedule has the steps
    /// of the request.
    #[verifier::opaque]
    pub open spec fn begins(self, request: GenerationRequest, start: Between<T>) -> bool {
        let steps = request.steps as nat;
        &&& start.latents.dims == latent_dims(request.resolution)
        &&& start.latents.data.len() == latent_count(request.resolution)
        &&& self.noisy(request.seed, start)
        &&& start.scheduler.schedule() == sdxl_scheduler::euler_timesteps(steps)
        &&& exists|full: Seq<T>| #[trigger]
            self.levels(full) && start.scheduler.levels() == sdxl_scheduler::step_sigmas(
                full,
                self.kernels.zero,
                steps,
            )
        &&& start.scheduler.done() == 0
    }

    /// The step at a place of a trace.
    pub open spec fn moves_at(
        self,
        request: GenerationRequest,
        contexts: ((Tensor<T>, Vec<T>), (Tensor<T>, Vec<T>)),
        trace: Seq<Between<T>>,
        k: int,
    ) -> bool {
        self.moves(request, contexts, trace[k], trace[k + 1])
    }

    /// The prompts are encoded, and a trace has its first steps.
    pub open spec fn midway(
        self,
        request: GenerationRequest,
        contexts: ((Tensor<T>, Vec<T>), (Tensor<T>, Vec<T>)),
        trace: Seq<Between<T>>,
    ) -> bool {
        &&& self.encoded(request.negative_prompt@, Ok(contexts.0))
        &&& self.encoded(request.prompt@, Ok(contexts.1))
        &&& trace.len() > 0
        &&& self.begins(request, trace[0])
        &&& forall|k: int|
            0 <= k < trace.len() - 1 ==> #[trigger] self.moves_at(request, contexts, trace, k)
    }

    /// What the decoder gives for latents: an image of finite numbers, or an error.
    #[verifier::opaque]
    pub open spec fn decoded(
        self,
        latents: Array<T>,
        result: Result<Tensor<T>, DecodeError>,
    ) -> bool {
        exists|decoded: Result<Tensor<T>, VaeError>|
            {
                &&& #[trigger] sd_vae::decodes_scaled(
                    self.kernels,
                    self.blend,
                    self.pack.vae.weights(),
                    latents,
                    sdxl::SCALING_FACTOR,
                    self.divide,
                    decoded,
                )
                &&& match decoded {
                    Err(error) => result is Err && result->Err_0 == DecodeError::Vae(error),
                    Ok(image) => match result {
                        Ok(out) => out == image && sdxl::all_pass(self.finite, image@),
                        Err(error) => error is NonFinite && sdxl::some_fails(self.finite, image@),
                    },
                }
            }
    }

    /// All steps are done, and the decoder gives a result.
    pub open spec fn paints(
        self,
        request: GenerationRequest,
        result: Result<Tensor<T>, DecodeError>,
    ) -> bool {
        exists|
            contexts: ((Tensor<T>, Vec<T>), (Tensor<T>, Vec<T>)),
            trace: Seq<Between<T>>,
        |
            {
                &&& #[trigger] self.midway(request, contexts, trace)
                &&& trace.len() == request.steps + 1
                &&& self.decoded(trace.last().latents, result)
            }
    }

    /// The model refuses one of the steps.
    pub open spec fn fails_to_predict(self, request: GenerationRequest, error: UnetError) -> bool {
        exists|
            contexts: ((Tensor<T>, Vec<T>), (Tensor<T>, Vec<T>)),
            trace: Seq<Between<T>>,
            sample: Array<T>,
        |
            {
                &&& #[trigger] self.midway(request, contexts, trace)
                &&& trace.len() <= request.steps
                &&& #[trigger] self.scaled(trace.last(), sample)
                &&& {
                    ||| self.predicted(
                        request.resolution,
                        trace.last(),
                        sample,
                        contexts.0,
                        Err(error),
                    )
                    ||| self.predicted(
                        request.resolution,
                        trace.last(),
                        sample,
                        contexts.1,
                        Err(error),
                    )
                }
            }
    }

    /// The schedule refuses what the model predicts at one of the steps.
    pub open spec fn fails_to_advance(
        self,
        request: GenerationRequest,
        error: SchedulerError,
    ) -> bool {
        exists|
            contexts: ((Tensor<T>, Vec<T>), (Tensor<T>, Vec<T>)),
            trace: Seq<Between<T>>,
            without: Tensor<T>,
            with: Tensor<T>,
        |
            {
                &&& #[trigger] self.midway(request, contexts, trace)
                &&& trace.len() <= request.steps
                &&& #[trigger] self.predicted_both(
                    request.resolution,
                    trace.last(),
                    contexts,
                    without,
                    with,
                )
                &&& self.refuses(request.guidance_scale, trace.last(), without@, with@, error)
            }
    }

    /// Predictions of different lengths cannot be guided; others the schedule may refuse.
    pub open spec fn refuses(
        self,
        scale: u32,
        at: Between<T>,
        without: Seq<T>,
        with: Seq<T>,
        error: SchedulerError,
    ) -> bool {
        if without.len() != with.len() {
            error == SchedulerError::GuidanceLengths {
                unconditional: without.len() as usize,
                conditional: with.len() as usize,
            }
        } else {
            exists|guided: Seq<T>, after: SdxlScheduler<T>|
                {
                    &&& #[trigger] self.guided(scale, without, with, guided)
                    &&& #[trigger] self.advanced(at, guided, after, Err(error))
                }
        }
    }

    /// What encoders, model, schedule and decoder make of a request that is in order.
    pub open spec fn made(
        self,
        request: GenerationRequest,
        result: Result<Tensor<T>, GenerationError>,
    ) -> bool {
        match result {
            Ok(image) => self.paints(request, Ok(image)),
            Err(GenerationError::Request(_)) => false,
            Err(GenerationError::Cancelled) => false,
            Err(GenerationError::Encoder(error)) => {
                ||| self.encoded(request.negative_prompt@, Err(error))
                ||| self.encoded(request.prompt@, Err(error))
            },
            Err(GenerationError::Unet(error)) => self.fails_to_predict(request, error),
            Err(GenerationError::Schedule(error)) => self.fails_to_advance(request, error),
            Err(GenerationError::Decode(error)) => self.paints(request, Err(error)),
        }
    }

    /// What comes of a request: an image, if it is in order, nobody cancels, and encoders, model,
    /// schedule and decoder refuse nothing; else the first refusal.
    pub open spec fn outcome(
        self,
        request: GenerationRequest,
        result: Result<Tensor<T>, GenerationError>,
    ) -> bool {
        match sdxl_pipeline::request_refusal(request) {
            Some(error) => result == Err::<Tensor<T>, _>(GenerationError::Request(error)),
            None => {
                ||| result == Err::<Tensor<T>, _>(GenerationError::Cancelled)
                ||| self.made(request, result)
            },
        }
    }

    /// How many steps a request asks for.
    pub open spec fn steps(request: GenerationRequest) -> nat {
        request.steps as nat
    }

    /// The script ends at a place with a result: an image at its end, an error at the action that
    /// gives it.
    pub open spec fn ends_at(
        request: GenerationRequest,
        result: Result<Tensor<T>, GenerationError>,
        n: int,
    ) -> bool {
        let action = sd_pipeline::script(Self::steps(request))[n];
        &&& 0 <= n < sd_pipeline::script(Self::steps(request)).len()
        &&& match result {
            Ok(_) => action == Action::Finish,
            Err(GenerationError::Request(_)) => false,
            Err(GenerationError::Cancelled) => action == Action::Check,
            Err(GenerationError::Encoder(_)) => action is EncodeNegative || action is EncodePrompt,
            Err(GenerationError::Unet(_)) => action is PredictUnconditional
                || action is PredictConditional,
            Err(GenerationError::Schedule(_)) => action is Advance,
            Err(GenerationError::Decode(_)) => action == Action::Decode,
        }
    }

    /// A generation asks and tells what the script says, up to the place at which it ends with a
    /// result: every question before that place gets leave to go on, and the one at which it is
    /// cancelled does not.
    pub open spec fn follows<CC: Fn(usize) -> bool, DD: Fn(GenerationProgress)>(
        request: GenerationRequest,
        on_progress: DD,
        is_cancelled: CC,
        result: Result<Tensor<T>, GenerationError>,
    ) -> bool {
        exists|n: int|
            {
                &&& #[trigger] Self::ends_at(request, result, n)
                &&& sd_pipeline::asked(is_cancelled, Self::steps(request), n)
                &&& sd_pipeline::told(on_progress, Self::steps(request), n)
                &&& result matches Err(GenerationError::Cancelled) ==> call_ensures(
                    is_cancelled,
                    (n as usize,),
                    true,
                )
            }
    }

    /// Predicts the noise at the next timestep of a schedule.
    fn predict(
        &self,
        resolution: usize,
        scheduler: &SdxlScheduler<T>,
        timestep: usize,
        Ghost(latents): Ghost<Array<T>>,
        sample: &Tensor<T>,
        context: &(Tensor<T>, Vec<T>),
    ) -> (result: Result<Tensor<T>, UnetError>)
        requires
            self.usable(),
            sample.wf(),
            context.0.wf(),
            sample.dims() == latent_dims(resolution),
            0 <= scheduler.done() < scheduler.schedule().len(),
            timestep == scheduler.schedule()[scheduler.done()],
        ensures
            self.predicted(
                resolution,
                (Between { scheduler: *scheduler, latents }),
                sample.array(),
                *context,
                result,
            ),
            result is Ok ==> result->Ok_0.wf(),
    {
        let ghost at = Between { scheduler: *scheduler, latents };
        let bits: u32 = (self.single)(timestep);
        let sizes = time_ids(resolution);
        let ids: [u32; 6] = [
            (self.single)(sizes[0]),
            (self.single)(sizes[1]),
            (self.single)(sizes[2]),
            (self.single)(sizes[3]),
            (self.single)(sizes[4]),
            (self.single)(sizes[5]),
        ];
        proof {
            assert(self.told(resolution, ids@));
        }
        let result = self.pack.predict_noise(
            &self.kernels,
            sample,
            bits,
            &context.0,
            context.1.as_slice(),
            ids,
            self.cosine,
            self.sine,
        );
        proof {
            reveal(SdxlPainter::predicted);
            assert(at.timestep() == timestep);
            assert(call_ensures(self.single, (at.timestep(),), bits));
            assert(self.told(resolution, ids@));
        }
        result
    }

    /// Encodes a prompt.
    fn encode(&self, prompt: &str) -> (result: Result<(Tensor<T>, Vec<T>), EncoderError>)
        requires
            self.usable(),
        ensures
            self.encoded(prompt@, result),
            result is Ok ==> (result->Ok_0).0.wf(),
    {
        proof {
            reveal(SdxlPainter::encoded);
        }
        self.pack.encode_prompt(&self.kernels, prompt)
    }

    /// Decodes latents.
    fn decode(&self, resolution: usize, latents: &Tensor<T>) -> (result: Result<
        Tensor<T>,
        DecodeError,
    >)
        requires
            self.usable(),
            latents.wf(),
            latents.dims() == latent_dims(resolution),
            image_fits(resolution),
        ensures
            self.decoded(latents.array(), result),
            result is Ok ==> result->Ok_0.wf(),
    {
        proof {
            reveal(SdxlPainter::decoded);
        }
        self.pack.decode_latents(
            &self.kernels,
            &self.blend,
            latents,
            self.divide,
            self.finite,
        )
    }

    /// Scales latents for the model.
    fn rescale(&self, resolution: usize, scheduler: &SdxlScheduler<T>, latents: &Tensor<T>) -> (sample:
        Tensor<T>)
        requires
            self.usable(),
            scheduler.wf(),
            latents.wf(),
            latents.dims() == latent_dims(resolution),
            resolution >= 8,
            image_fits(resolution),
        ensures
            sample.wf(),
            sample.dims() == latent_dims(resolution),
            self.scaled(
                (Between { scheduler: *scheduler, latents: latents.array() }),
                sample.array(),
            ),
    {
        proof {
            lemma_latents(resolution);
        }
        let data = scheduler.scale_model_input(latents.data(), self.scale);
        Tensor::new(latent_shape(resolution), data).unwrap()
    }

    /// Guides a prediction and takes it away from the latents.
    fn advance(
        &self,
        request: &GenerationRequest,
        scheduler: &mut SdxlScheduler<T>,
        timestep: usize,
        latents: &Tensor<T>,
        without: &Tensor<T>,
        with: &Tensor<T>,
        Ghost(contexts): Ghost<((Tensor<T>, Vec<T>), (Tensor<T>, Vec<T>))>,
    ) -> (result: Result<Tensor<T>, SchedulerError>)
        requires
            self.usable(),
            sd_scheduler::usable_scale(request.guidance_scale),
            old(scheduler).wf(),
            0 <= old(scheduler).done() < old(scheduler).schedule().len(),
            timestep == old(scheduler).schedule()[old(scheduler).done()],
            latents.wf(),
            latents.dims() == latent_dims(request.resolution),
            request.resolution >= 8,
            image_fits(request.resolution),
            without.wf(),
            with.wf(),
            self.predicted_both(
                request.resolution,
                (Between { scheduler: *old(scheduler), latents: latents.array() }),
                contexts,
                *without,
                *with,
            ),
        ensures
            match result {
                Ok(next) => {
                    &&& next.wf()
                    &&& next.dims() == latent_dims(request.resolution)
                    &&& final(scheduler).wf()
                    &&& final(scheduler).schedule() == old(scheduler).schedule()
                    &&& final(scheduler).done() == old(scheduler).done() + 1
                    &&& self.moves(
                        *request,
                        contexts,
                        (Between { scheduler: *old(scheduler), latents: latents.array() }),
                        (Between { scheduler: *final(scheduler), latents: next.array() }),
                    )
                },
                Err(error) => self.refuses(
                    request.guidance_scale,
                    (Between { scheduler: *old(scheduler), latents: latents.array() }),
                    without@,
                    with@,
                    error,
                ),
            },
    {
        let ghost before = Between { scheduler: *scheduler, latents: latents.array() };
        proof {
            lemma_latents(request.resolution);
            assert(before.timestep() == timestep);
        }
        let guided = match classifier_free_guidance(
            without.data(),
            with.data(),
            request.guidance_scale,
            self.guide,
        ) {
            Err(error) => {
                return Err(error);
            },
            Ok(guided) => guided,
        };
        proof {
            assert(self.guided(request.guidance_scale, without@, with@, guided@));
        }
        let stepped = scheduler.step(guided.as_slice(), timestep, latents.data(), self.advance);
        proof {
            reveal(SdxlPainter::advanced);
            assert(self.advanced(before, guided@, *scheduler, stepped));
        }
        match stepped {
            Err(error) => Err(error),
            Ok(updated) => {
                let ghost data = updated;
                let next = Tensor::new(latent_shape(request.resolution), updated).unwrap();
                proof {
                    let after = Between { scheduler: *scheduler, latents: next.array() };
                    assert(after.latents == (Array {
                        dims: latent_dims(request.resolution),
                        data: data@,
                    }));
                    assert(self.advanced(before, guided@, after.scheduler, Ok(data)));
                }
                Ok(next)
            },
        }
    }

    /// The noise levels of the training schedule.
    fn training_levels(&self) -> (full: Vec<T>)
        requires
            self.usable(),
        ensures
            full@.len() == TRAIN_TIMESTEPS,
            self.levels(full@),
    {
        let alphas = alphas_cumprod(self.one, self.next);
        let mut full: Vec<T> = Vec::with_capacity(TRAIN_TIMESTEPS);
        while full.len() < TRAIN_TIMESTEPS
            invariant
                self.usable(),
                alphas@.len() == TRAIN_TIMESTEPS,
                full@.len() <= TRAIN_TIMESTEPS,
                forall|i: int|
                    0 <= i < full@.len() ==> call_ensures(
                        self.level,
                        (alphas@[i],),
                        #[trigger] full@[i],
                    ),
            decreases TRAIN_TIMESTEPS - full.len(),
        {
            let level = (self.level)(alphas[full.len()]);
            full.push(level);
        }
        proof {
            assert(sd_scheduler::running(self.next, self.one, alphas@));
        }
        full
    }

    /// The schedule and the latents before the first step.
    fn start(&self, request: &GenerationRequest) -> (start: (SdxlScheduler<T>, Tensor<T>))
        requires
            self.usable(),
            1 <= request.steps <= 100,
            request.resolution >= 8,
            image_fits(request.resolution),
        ensures
            start.0.wf(),
            start.0.schedule() == sdxl_scheduler::euler_timesteps(request.steps as nat),
            start.0.done() == 0,
            start.1.wf(),
            start.1.dims() == latent_dims(request.resolution),
            self.begins(
                *request,
                (Between { scheduler: start.0, latents: start.1.array() }),
            ),
    {
        proof {
            lemma_latents(request.resolution);
        }
        let side: usize = request.resolution / 8;
        proof {
            assert(4 * (side * side) == 4 * side * side) by (nonlinear_arith);
            assert(4 * side <= 4 * (side * side)) by (nonlinear_arith)
                requires
                    side >= 1,
            ;
        }
        let count: usize = 4 * side * side;
        let full = self.training_levels();
        let scheduler = SdxlScheduler::new(
            request.steps,
            full.as_slice(),
            self.kernels.zero,
        ).unwrap();
        let sigma = scheduler.init_noise_sigma();
        let noise = gaussian_noise(request.seed, count, self.noise_cosine, self.noise_sine);
        let mut data: Vec<T> = Vec::with_capacity(count);
        while data.len() < count
            invariant
                self.usable(),
                data@.len() <= count == noise@.len(),
                forall|i: int|
                    0 <= i < data@.len() ==> call_ensures(
                        self.amplify,
                        (noise@[i], sigma),
                        #[trigger] data@[i],
                    ),
            decreases count - data.len(),
        {
            let value = (self.amplify)(noise[data.len()], sigma);
            data.push(value);
        }
        let ghost amplified = data@;
        let latents = Tensor::new(latent_shape(request.resolution), data).unwrap();
        proof {
            let start = Between { scheduler, latents: latents.array() };
            assert(start.latents.data == amplified);
            assert(sd_scheduler::seeds_noise(
                self.noise_cosine,
                self.noise_sine,
                request.seed,
                noise@,
            ));
            assert(self.noisy(request.seed, start));
            reveal(SdxlPainter::begins);
            assert(self.levels(full@));
        }
        (scheduler, latents)
    }

    /// Makes an image. What happens in between is told, and asked for, as the script says; every
    /// question is put with its place in the script.
    pub fn generate_asking<CC: Fn(usize) -> bool, DD: Fn(GenerationProgress)>(
        &self,
        request: &GenerationRequest,
        on_progress: &DD,
        is_cancelled: &CC,
    ) -> (result: Result<Tensor<T>, GenerationError>)
        requires
            self.usable(),
            image_fits(request.resolution),
            forall|place: usize| #[trigger] call_requires(*is_cancelled, (place,)),
            forall|progress: GenerationProgress| #[trigger]
                call_requires(*on_progress, (progress,)),
        ensures
            self.outcome(*request, result),
            sdxl_pipeline::request_refusal(*request) is None ==> Self::follows(
                *request,
                *on_progress,
                *is_cancelled,
                result,
            ),
            result is Ok ==> result->Ok_0.wf(),
    {
        match validate_request(request) {
            Err(error) => {
                return Err(GenerationError::Request(error));
            },
            Ok(()) => {},
        }
        let (scheduler, latents) = self.start(request);
        let mut scheduler = scheduler;
        let mut latents = latents;
        let total: usize = scheduler.timesteps().len();
        let mut script = Generation::new(total);
        let ghost steps = Self::steps(*request);
        proof {
            sd_generate::lemma_start(total as nat);
        }
        if script.ask(is_cancelled).is_err() {
            proof {
                assert(Self::ends_at(
                    *request,
                    Err(GenerationError::Cancelled),
                    script.at as int,
                ));
            }
            return Err(GenerationError::Cancelled);
        }
        script.tell(on_progress);
        let without = match self.encode(request.negative_prompt.as_str()) {
            Err(error) => {
                proof {
                    assert(Self::ends_at(
                        *request,
                        Err(GenerationError::Encoder(error)),
                        script.at as int,
                    ));
                }
                return Err(GenerationError::Encoder(error));
            },
            Ok(context) => context,
        };
        let _ = script.proceed(false);
        if script.ask(is_cancelled).is_err() {
            proof {
                assert(Self::ends_at(
                    *request,
                    Err(GenerationError::Cancelled),
                    script.at as int,
                ));
            }
            return Err(GenerationError::Cancelled);
        }
        script.tell(on_progress);
        let with = match self.encode(request.prompt.as_str()) {
            Err(error) => {
                proof {
                    assert(Self::ends_at(
                        *request,
                        Err(GenerationError::Encoder(error)),
                        script.at as int,
                    ));
                }
                return Err(GenerationError::Encoder(error));
            },
            Ok(context) => context,
        };
        let _ = script.proceed(false);
        if script.ask(is_cancelled).is_err() {
            proof {
                assert(Self::ends_at(
                    *request,
                    Err(GenerationError::Cancelled),
                    script.at as int,
                ));
            }
            return Err(GenerationError::Cancelled);
        }
        script.tell(on_progress);
        let _ = script.proceed(false);
        script.tell(on_progress);
        let ghost contexts = (without, with);
        let ghost mut trace = seq![Between { scheduler, latents: latents.array() }];
        proof {
            assert(self.midway(*request, contexts, trace));
        }
        let mut index: usize = 0;
        while index < total
            invariant
                index <= total,
                total == request.steps,
                total <= 101,
                1 <= request.steps <= 100,
                sdxl_pipeline::request_refusal(*request) is None,
                request.resolution >= 8,
                image_fits(request.resolution),
                self.usable(),
                forall|place: usize| #[trigger] call_requires(*is_cancelled, (place,)),
                forall|progress: GenerationProgress| #[trigger]
                    call_requires(*on_progress, (progress,)),
                script.wf(),
                script.total == total,
                script.at == 10 + 7 * index,
                steps == total == Self::steps(*request),
                sd_pipeline::asked(*is_cancelled, steps, script.at as int),
                sd_pipeline::told(*on_progress, steps, script.at as int),
                contexts == (without, with),
                without.0.wf(),
                with.0.wf(),
                latents.wf(),
                latents.dims() == latent_dims(request.resolution),
                scheduler.wf(),
                scheduler.schedule() == sdxl_scheduler::euler_timesteps(request.steps as nat),
                scheduler.done() == index,
                trace.len() == index + 1,
                trace.last() == (Between { scheduler, latents: latents.array() }),
                self.midway(*request, contexts, trace),
            decreases total - index,
        {
            proof {
                sd_generate::lemma_step(total as nat, index as nat);
                lemma_latents(request.resolution);
            }
            let timestep: usize = scheduler.timesteps()[index];
            if script.ask(is_cancelled).is_err() {
                proof {
                    assert(Self::ends_at(
                        *request,
                        Err(GenerationError::Cancelled),
                        script.at as int,
                    ));
                }
                return Err(GenerationError::Cancelled);
            }
            let sample = self.rescale(request.resolution, &scheduler, &latents);
            let first = match self.predict(
                request.resolution,
                &scheduler,
                timestep,
                Ghost(latents.array()),
                &sample,
                &without,
            ) {
                Err(error) => {
                    proof {
                        assert(self.midway(*request, contexts, trace));
                        assert(self.scaled(trace.last(), sample.array()));
                        assert(Self::ends_at(
                            *request,
                            Err(GenerationError::Unet(error)),
                            script.at as int,
                        ));
                    }
                    return Err(GenerationError::Unet(error));
                },
                Ok(noise) => noise,
            };
            let _ = script.proceed(false);
            if script.ask(is_cancelled).is_err() {
                proof {
                    assert(Self::ends_at(
                        *request,
                        Err(GenerationError::Cancelled),
                        script.at as int,
                    ));
                }
                return Err(GenerationError::Cancelled);
            }
            let second = match self.predict(
                request.resolution,
                &scheduler,
                timestep,
                Ghost(latents.array()),
                &sample,
                &with,
            ) {
                Err(error) => {
                    proof {
                        assert(self.midway(*request, contexts, trace));
                        assert(self.scaled(trace.last(), sample.array()));
                        assert(Self::ends_at(
                            *request,
                            Err(GenerationError::Unet(error)),
                            script.at as int,
                        ));
                    }
                    return Err(GenerationError::Unet(error));
                },
                Ok(noise) => noise,
            };
            let _ = script.proceed(false);
            if script.ask(is_cancelled).is_err() {
                proof {
                    assert(Self::ends_at(
                        *request,
                        Err(GenerationError::Cancelled),
                        script.at as int,
                    ));
                }
                return Err(GenerationError::Cancelled);
            }
            proof {
                assert(self.scaled(trace.last(), sample.array()));
                assert(self.predicted_both(
                    request.resolution,
                    trace.last(),
                    contexts,
                    first,
                    second,
                ));
                sd_generate::lemma_scale(request.guidance_scale);
            }
            let next = match self.advance(
                request,
                &mut scheduler,
                timestep,
                &latents,
                &first,
                &second,
                Ghost(contexts),
            ) {
                Err(error) => {
                    proof {
                        assert(self.midway(*request, contexts, trace));
                        assert(self.predicted_both(
                            request.resolution,
                            trace.last(),
                            contexts,
                            first,
                            second,
                        ));
                        assert(Self::ends_at(
                            *request,
                            Err(GenerationError::Schedule(error)),
                            script.at as int,
                        ));
                    }
                    return Err(GenerationError::Schedule(error));
                },
                Ok(next) => next,
            };
            latents = next;
            let _ = script.proceed(false);
            script.tell(on_progress);
            proof {
                let after = Between { scheduler, latents: latents.array() };
                let longer = trace.push(after);
                assert forall|k: int| 0 <= k < longer.len() - 1 implies #[trigger] self.moves_at(
                    *request,
                    contexts,
                    longer,
                    k,
                ) by {
                    if k < trace.len() - 1 {
                        assert(self.moves_at(*request, contexts, trace, k));
                        assert(longer[k] == trace[k] && longer[k + 1] == trace[k + 1]);
                    } else {
                        assert(longer[k] == trace.last());
                    }
                }
                assert(longer[0] == trace[0]);
                trace = longer;
            }
            index = index + 1;
        }
        proof {
            sd_generate::lemma_end(total as nat);
        }
        script.tell(on_progress);
        if script.ask(is_cancelled).is_err() {
            proof {
                assert(Self::ends_at(
                    *request,
                    Err(GenerationError::Cancelled),
                    script.at as int,
                ));
            }
            return Err(GenerationError::Cancelled);
        }
        let image = match self.decode(request.resolution, &latents) {
            Err(error) => {
                proof {
                    assert(self.midway(*request, contexts, trace));
                    assert(self.paints(*request, Err(error)));
                    assert(Self::ends_at(
                        *request,
                        Err(GenerationError::Decode(error)),
                        script.at as int,
                    ));
                }
                return Err(GenerationError::Decode(error));
            },
            Ok(image) => image,
        };
        let _ = script.proceed(false);
        if script.ask(is_cancelled).is_err() {
            proof {
                assert(Self::ends_at(
                    *request,
                    Err(GenerationError::Cancelled),
                    script.at as int,
                ));
            }
            return Err(GenerationError::Cancelled);
        }
        script.tell(on_progress);
        proof {
            assert(self.midway(*request, contexts, trace));
            assert(self.paints(*request, Ok(image)));
            assert(Self::ends_at(*request, Ok(image), script.at as int));
        }
        Ok(image)
    }

    /// Makes an image. What happens in between is told, and asked for, as the script says.
    pub fn generate_with_control<CC: Fn() -> bool, DD: Fn(GenerationProgress)>(
        &self,
        request: &GenerationRequest,
        on_progress: &DD,
        is_cancelled: &CC,
    ) -> (result: Result<Tensor<T>, GenerationError>)
        requires
            self.usable(),
            image_fits(request.resolution),
            call_requires(*is_cancelled, ()),
            forall|progress: GenerationProgress| #[trigger]
                call_requires(*on_progress, (progress,)),
        ensures
            self.outcome(*request, result),
            sdxl_pipeline::request_refusal(*request) is None ==> exists|n: int|
                {
                    &&& #[trigger] Self::ends_at(*request, result, n)
                    &&& n > 0 ==> call_ensures(*is_cancelled, (), false)
                    &&& sd_pipeline::told(*on_progress, Self::steps(*request), n)
                },
            result is Ok ==> call_ensures(*is_cancelled, (), false),
            result matches Err(GenerationError::Cancelled) ==> call_ensures(
                *is_cancelled,
                (),
                true,
            ),
            result is Ok ==> sd_pipeline::told(
                *on_progress,
                Self::steps(*request),
                sd_pipeline::script(Self::steps(*request)).len() as int,
            ),
            result is Ok ==> result->Ok_0.wf(),
    {
        let anywhere = |place: usize| -> (cancelled: bool)
            requires
                sd_pipeline::answerable(is_cancelled),
            ensures
                sd_pipeline::answered(is_cancelled, cancelled),
            { is_cancelled() };
        let result = self.generate_asking(request, on_progress, &anywhere);
        proof {
            let steps = Self::steps(*request);
            sd_pipeline::lemma_first_question(steps);
            sd_pipeline::lemma_closing(steps, 5);
            sd_pipeline::lemma_finish(steps);
        }
        result
    }

    /// Makes an image.
    pub fn generate(&self, request: &GenerationRequest) -> (result: Result<
        Tensor<T>,
        GenerationError,
    >)
        requires
            self.usable(),
            image_fits(request.resolution),
        ensures
            result is Ok ==> result->Ok_0.wf(),
            match sdxl_pipeline::request_refusal(*request) {
                Some(error) => result == Err::<Tensor<T>, _>(GenerationError::Request(error)),
                None => self.made(*request, result),
            },
    {
        let silent = |progress: GenerationProgress| -> (told: ())
            requires
                true,
            {  };
        let never = || -> (cancelled: bool)
            requires
                true,
            ensures
                !cancelled,
            { false };
        self.generate_with_control(request, &silent, &never)
    }
}

} // verus!
