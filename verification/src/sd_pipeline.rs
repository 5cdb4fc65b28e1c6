//! The Stable Diffusion 1.5 denoising pipeline: what is asked for, in which order the work is done,
//! and how the result becomes an image file.

use vstd::prelude::*;
use crate::fields;
use crate::fields::trim;
use crate::float_order;
use crate::fold;
use crate::layout;
use crate::png::{encode_rgb, PngError};
use crate::png;
use crate::tensor::Tensor;
use crate::text::chars_of;

verus! {

broadcast use vstd::string::group_string_axioms;

/// What is to be generated. The guidance scale is a single-precision bit pattern.
#[derive(Clone, Debug)]
pub struct GenerationRequest {
    pub prompt: String,
    pub negative_prompt: String,
    pub steps: usize,
    pub guidance_scale: u32,
    pub seed: u64,
}

impl Default for GenerationRequest {
    /// No prompts, 20 steps, a guidance scale of 7.5, and seed 0.
    fn default() -> (request: Self)
        ensures
            request.prompt@ == Seq::<char>::empty(),
            request.negative_prompt@ == Seq::<char>::empty(),
            request.steps == 20,
            request.guidance_scale == 0x40f0_0000,
            request.seed == 0,
    {
        GenerationRequest {
            prompt: String::new(),
            negative_prompt: String::new(),
            steps: 20,
            guidance_scale: 0x40f0_0000,
            seed: 0,
        }
    }
}

/// Why a request is refused.
#[derive(Clone, Copy, Debug, PartialEq, Eq, Structural)]
pub enum RequestError {
    EmptyPrompt,
    Steps,
    Guidance,
    Resolution,
}

impl RequestError {
    /// The message for people.
    pub open spec fn text(self) -> Seq<char> {
        match self {
            RequestError::EmptyPrompt => "generation prompt cannot be empty"@,
            RequestError::Steps => "generation steps must be between 1 and 100"@,
            RequestError::Guidance => "guidance scale must be finite and between 0 and 30"@,
            RequestError::Resolution => "resolution must be a non-zero multiple of 8"@,
        }
    }

    /// The message for people.
    pub fn message(self) -> (message: &'static str)
        ensures
            message@ == self.text(),
    {
        match self {
            RequestError::EmptyPrompt => "generation prompt cannot be empty",
            RequestError::Steps => "generation steps must be between 1 and 100",
            RequestError::Guidance => "guidance scale must be finite and between 0 and 30",
            RequestError::Resolution => "resolution must be a non-zero multiple of 8",
        }
    }
}

/// The bit pattern of 30.
pub const THIRTY: u32 = 0x41f0_0000;

/// A guidance scale is a finite number between 0 and 30.
pub open spec fn valid_guidance(bits: u32) -> bool {
    &&& float_order::finite(bits)
    &&& 0 <= float_order::level(bits) <= float_order::level(THIRTY)
}

/// Why a request is refused, if it is.
pub open spec fn request_refusal(prompt: Seq<char>, steps: usize, guidance: u32) -> Option<
    RequestError,
> {
    if fields::trimmed(prompt).len() == 0 {
        Some(RequestError::EmptyPrompt)
    } else if steps == 0 || steps > 100 {
        Some(RequestError::Steps)
    } else if !valid_guidance(guidance) {
        Some(RequestError::Guidance)
    } else {
        None
    }
}

/// Checks the parts of a request that every pipeline has.
pub(crate) fn check_request(prompt: &str, steps: usize, guidance: u32) -> (result: Result<
    (),
    RequestError,
>)
    ensures
        result == match request_refusal(prompt@, steps, guidance) {
            Some(error) => Err::<(), RequestError>(error),
            None => Ok(()),
        },
{
    let trimmed = trim(&chars_of(prompt));
    if trimmed.as_str().unicode_len() == 0 {
        return Err(RequestError::EmptyPrompt);
    }
    if steps == 0 || steps > 100 {
        return Err(RequestError::Steps);
    }
    if guidance > THIRTY && guidance != 0x8000_0000 {
        return Err(RequestError::Guidance);
    }
    Ok(())
}

/// Checks a request.
pub fn validate_request(request: &GenerationRequest) -> (result: Result<(), RequestError>)
    ensures
        result == match request_refusal(
            request.prompt@,
            request.steps,
            request.guidance_scale,
        ) {
            Some(error) => Err::<(), RequestError>(error),
            None => Ok(()),
        },
{
    check_request(request.prompt.as_str(), request.steps, request.guidance_scale)
}

/// What a pipeline is doing.
#[derive(Clone, Copy, Debug, PartialEq, Eq, Structural)]
pub enum GenerationPhase {
    Encoding,
    Denoising,
    Decoding,
}

impl GenerationPhase {
    /// The name of the phase.
    pub open spec fn label(self) -> Seq<char> {
        match self {
            GenerationPhase::Encoding => "encoding"@,
            GenerationPhase::Denoising => "denoising"@,
            GenerationPhase::Decoding => "decoding"@,
        }
    }

    /// The name of the phase.
    pub fn as_str(self) -> (name: &'static str)
        ensures
            name@ == self.label(),
    {
        match self {
            GenerationPhase::Encoding => "encoding",
            GenerationPhase::Denoising => "denoising",
            GenerationPhase::Decoding => "decoding",
        }
    }
}

/// How far a phase has come.
#[derive(Clone, Copy, Debug, PartialEq, Eq, Structural)]
pub struct GenerationProgress {
    pub phase: GenerationPhase,
    pub completed: usize,
    pub total: usize,
}

/// How far a phase has come.
pub open spec fn reached(phase: GenerationPhase, completed: int, total: int) -> GenerationProgress {
    GenerationProgress { phase, completed: completed as usize, total: total as usize }
}

/// How far a phase has come.
pub fn progress(phase: GenerationPhase, completed: usize, total: usize) -> (progress:
    GenerationProgress)
    ensures
        progress == reached(phase, completed as int, total as int),
{
    GenerationProgress { phase, completed, total }
}

/// The generation was cancelled.
#[derive(Clone, Copy, Debug, PartialEq, Eq, Structural)]
pub struct Cancelled;

impl Cancelled {
    /// The message for people.
    pub fn message(self) -> (message: &'static str)
        ensures
            message@ == "generation cancelled"@,
    {
        "generation cancelled"
    }
}

/// Asks whether the generation was cancelled.
pub fn ensure_running<F: Fn() -> bool>(is_cancelled: &F) -> (result: Result<(), Cancelled>)
    requires
        call_requires(*is_cancelled, ()),
    ensures
        call_ensures(*is_cancelled, (), result is Err),
{
    if is_cancelled() {
        Err(Cancelled)
    } else {
        Ok(())
    }
}

/// The question at a place can be put.
pub open spec fn answerable_at<F: Fn(usize) -> bool>(is_cancelled: &F, place: usize) -> bool {
    call_requires(*is_cancelled, (place,))
}

/// The question at a place gets an answer.
pub open spec fn answered_at<F: Fn(usize) -> bool>(
    is_cancelled: &F,
    place: usize,
    cancelled: bool,
) -> bool {
    call_ensures(*is_cancelled, (place,), cancelled)
}

/// The question whether the generation was cancelled can be put.
pub open spec fn answerable<F: Fn() -> bool>(is_cancelled: &F) -> bool {
    call_requires(*is_cancelled, ())
}

/// The question whether the generation was cancelled gets an answer.
pub open spec fn answered<F: Fn() -> bool>(is_cancelled: &F, cancelled: bool) -> bool {
    call_ensures(*is_cancelled, (), cancelled)
}

/// One thing that a pipeline does.
#[derive(Clone, Copy, Debug, PartialEq, Eq, Structural)]
pub enum Action {
    /// Ask whether to go on.
    Check,
    /// Tell how far the work has come.
    Report(GenerationProgress),
    /// Encode the negative prompt.
    EncodeNegative,
    /// Encode the prompt.
    EncodePrompt,
    /// Make the scheduler and the first latents.
    Prepare,
    /// Predict the noise without the prompt, at the step of this index.
    PredictUnconditional(usize),
    /// Predict the noise with the prompt, at the step of this index.
    PredictConditional(usize),
    /// Guide the prediction and advance the latents, at the step of this index.
    Advance(usize),
    /// Decode the latents.
    Decode,
    /// The image is done.
    Finish,
}

/// What is done before the first step.
pub open spec fn opening(total: nat) -> Seq<Action> {
    seq![
        Action::Check,
        Action::Report(reached(GenerationPhase::Encoding, 0, 2)),
        Action::EncodeNegative,
        Action::Check,
        Action::Report(reached(GenerationPhase::Encoding, 1, 2)),
        Action::EncodePrompt,
        Action::Check,
        Action::Report(reached(GenerationPhase::Encoding, 2, 2)),
        Action::Prepare,
        Action::Report(reached(GenerationPhase::Denoising, 0, total as int)),
    ]
}

/// What is done at one step.
pub open spec fn round(index: nat, total: nat) -> Seq<Action> {
    seq![
        Action::Check,
        Action::PredictUnconditional(index as usize),
        Action::Check,
        Action::PredictConditional(index as usize),
        Action::Check,
        Action::Advance(index as usize),
        Action::Report(reached(GenerationPhase::Denoising, index as int + 1, total as int)),
    ]
}

/// What is done at the first `n` steps.
pub open spec fn rounds(n: nat, total: nat) -> Seq<Action>
    decreases n,
{
    if n == 0 {
        Seq::empty()
    } else {
        rounds((n - 1) as nat, total) + round((n - 1) as nat, total)
    }
}

/// What is done after the last step.
pub open spec fn closing() -> Seq<Action> {
    seq![
        Action::Report(reached(GenerationPhase::Decoding, 0, 1)),
        Action::Check,
        Action::Decode,
        Action::Check,
        Action::Report(reached(GenerationPhase::Decoding, 1, 1)),
        Action::Finish,
    ]
}

/// Everything that is done, in order, where the scheduler has `total` steps.
pub open spec fn script(total: nat) -> Seq<Action> {
    opening(total) + rounds(total, total) + closing()
}

/// The action at a place among the rounds.
proof fn lemma_rounds(n: nat, total: nat, k: int)
    requires
        0 <= k < 7 * n,
    ensures
        rounds(n, total).len() == 7 * n,
        rounds(n, total)[k] == round((k / 7) as nat, total)[k % 7],
    decreases n,
{
    lemma_rounds_len(n, total);
    lemma_rounds_len((n - 1) as nat, total);
    if k < 7 * (n - 1) {
        lemma_rounds((n - 1) as nat, total, k);
    } else {
        assert(k / 7 == n - 1);
    }
}

proof fn lemma_rounds_len(n: nat, total: nat)
    ensures
        rounds(n, total).len() == 7 * n,
    decreases n,
{
    if n > 0 {
        lemma_rounds_len((n - 1) as nat, total);
    }
}

/// The script has a place for every action.
pub proof fn lemma_script_len(total: nat)
    ensures
        script(total).len() == 16 + 7 * total,
{
    lemma_rounds_len(total, total);
}

/// The action is work that takes long.
pub open spec fn is_work(action: Action) -> bool {
    action is EncodeNegative || action is EncodePrompt || action is PredictUnconditional
        || action is PredictConditional || action is Decode
}

/// Right before every long piece of work, but for a report, and right after it, the pipeline asks
/// whether to go on.
pub proof fn work_is_checked(total: nat, k: int)
    requires
        0 <= k < script(total).len(),
        is_work(script(total)[k]),
    ensures
        1 <= k < script(total).len() - 1,
        script(total)[k - 1] == Action::Check || (script(total)[k - 1] is Report && k >= 2
            && script(total)[k - 2] == Action::Check),
        script(total)[k + 1] == Action::Check,
{
    let all = script(total);
    lemma_script_len(total);
    lemma_rounds_len(total, total);
    if 10 <= k < 10 + 7 * total {
        let p = k - 10;
        lemma_rounds(total, total, p);
        assert(all[k] == rounds(total, total)[p]);
        assert(p % 7 == 1 || p % 7 == 3);
        lemma_rounds(total, total, p - 1);
        lemma_rounds(total, total, p + 1);
        assert((p - 1) / 7 == p / 7 && (p + 1) / 7 == p / 7);
        assert(all[k - 1] == rounds(total, total)[p - 1]);
        assert(all[k + 1] == rounds(total, total)[p + 1]);
    } else if k >= 10 + 7 * total {
        assert(all[k] == closing()[k - 10 - 7 * total]);
        assert(all[k - 1] == closing()[k - 1 - 10 - 7 * total]);
        assert(all[k + 1] == closing()[k + 1 - 10 - 7 * total]);
    } else {
        assert(all[k] == opening(total)[k]);
        assert(all[k - 1] == opening(total)[k - 1]);
        assert(all[k - 2] == opening(total)[k - 2]);
        assert(all[k + 1] == opening(total)[k + 1]);
    }
}

/// Every step is predicted without the prompt, then with it, then advanced, then reported; and no
/// step is done twice.
pub proof fn steps_are_done_in_order(total: nat, index: nat)
    requires
        index < total <= usize::MAX,
    ensures
        script(total)[11 + 7 * index as int] == Action::PredictUnconditional(index as usize),
        script(total)[13 + 7 * index as int] == Action::PredictConditional(index as usize),
        script(total)[15 + 7 * index as int] == Action::Advance(index as usize),
        script(total)[16 + 7 * index as int] == Action::Report(
            reached(GenerationPhase::Denoising, index as int + 1, total as int),
        ),
        forall|k: int|
            0 <= k < script(total).len() && #[trigger] script(total)[k] == Action::Advance(
                index as usize,
            ) ==> k == 15 + 7 * index,
{
    let all = script(total);
    lemma_script_len(total);
    lemma_rounds_len(total, total);
    let p = 7 * index as int;
    lemma_rounds(total, total, p + 1);
    lemma_rounds(total, total, p + 3);
    lemma_rounds(total, total, p + 5);
    lemma_rounds(total, total, p + 6);
    assert(all[11 + p] == rounds(total, total)[p + 1]);
    assert(all[13 + p] == rounds(total, total)[p + 3]);
    assert(all[15 + p] == rounds(total, total)[p + 5]);
    assert(all[16 + p] == rounds(total, total)[p + 6]);
    assert forall|k: int|
        0 <= k < all.len() && #[trigger] all[k] == Action::Advance(index as usize) implies k == 15
        + 7 * index by {
        if 10 <= k < 10 + 7 * total {
            lemma_rounds(total, total, k - 10);
            assert(all[k] == rounds(total, total)[k - 10]);
            assert((k - 10) % 7 == 5);
            assert((k - 10) / 7 == index);
        } else if k >= 10 + 7 * total {
            assert(all[k] == closing()[k - 10 - 7 * total]);
        } else {
            assert(all[k] == opening(total)[k]);
        }
    }
}

/// What the script asks for before the first step.
pub proof fn lemma_opening(total: nat, k: int)
    requires
        0 <= k < 10,
    ensures
        script(total)[k] == opening(total)[k],
        k < script(total).len() - 1,
{
    lemma_script_len(total);
}

/// What the script asks for at a step.
pub proof fn lemma_round(total: nat, index: nat, k: int)
    requires
        index < total,
        0 <= k < 7,
    ensures
        script(total)[10 + 7 * index + k] == round(index, total)[k],
        10 + 7 * index + k < script(total).len() - 1,
{
    lemma_script_len(total);
    lemma_rounds_len(total, total);
    lemma_rounds(total, total, 7 * index + k);
    assert((7 * index + k) / 7 == index && (7 * index + k) % 7 == k);
    assert(script(total)[10 + 7 * index + k] == rounds(total, total)[7 * index + k]);
}

/// What the script asks for after the last step.
pub proof fn lemma_closing(total: nat, k: int)
    requires
        0 <= k < 6,
    ensures
        script(total)[10 + 7 * total + k] == closing()[k],
        10 + 7 * total + k < script(total).len(),
{
    lemma_script_len(total);
    lemma_rounds_len(total, total);
}

/// Every question before a place of the script was answered with leave to go on.
pub open spec fn asked<F: Fn(usize) -> bool>(is_cancelled: F, total: nat, n: int) -> bool {
    forall|k: int|
        0 <= k < n && #[trigger] script(total)[k] == Action::Check ==> call_ensures(
            is_cancelled,
            (k as usize,),
            false,
        )
}

/// Every report before a place of the script was given.
pub open spec fn told<W: Fn(GenerationProgress)>(on_progress: W, total: nat, n: int) -> bool {
    forall|k: int|
        0 <= k < n ==> (#[trigger] script(total)[k] matches Action::Report(progress)
            ==> call_ensures(on_progress, (progress,), ()))
}

/// The first action is a question.
pub proof fn lemma_first_question(total: nat)
    ensures
        script(total)[0] == Action::Check,
{
    lemma_opening(total, 0);
}

/// The script comes to its end only with its last action.
pub proof fn lemma_finish(total: nat)
    ensures
        script(total).len() == 16 + 7 * total,
        forall|k: int|
            0 <= k < script(total).len() && #[trigger] script(total)[k] == Action::Finish ==> k
                == script(total).len() - 1,
{
    let all = script(total);
    lemma_script_len(total);
    lemma_rounds_len(total, total);
    assert forall|k: int| 0 <= k < all.len() && #[trigger] all[k] == Action::Finish implies k
        == all.len() - 1 by {
        if 10 <= k < 10 + 7 * total {
            lemma_rounds(total, total, k - 10);
            assert(all[k] == rounds(total, total)[k - 10]);
        } else if k >= 10 + 7 * total {
            assert(all[k] == closing()[k - 10 - 7 * total]);
        } else {
            assert(all[k] == opening(total)[k]);
        }
    }
}

/// A generation that is under way.
#[derive(Clone, Copy, Debug, PartialEq, Eq, Structural)]
pub struct Generation {
    pub total: usize,
    pub at: usize,
}

impl Generation {
    /// The place is one of the script's.
    pub open spec fn wf(&self) -> bool {
        &&& 16 + 7 * self.total <= usize::MAX
        &&& self.at < script(self.total as nat).len()
    }

    /// A generation at its start, where the scheduler has `total` steps.
    pub fn new(total: usize) -> (generation: Self)
        requires
            16 + 7 * total <= usize::MAX,
        ensures
            generation.wf(),
            generation.total == total,
            generation.at == 0,
    {
        proof {
            lemma_script_len(total as nat);
        }
        Generation { total, at: 0 }
    }

    /// What is to be done now.
    pub fn action(&self) -> (action: Action)
        requires
            self.wf(),
        ensures
            action == script(self.total as nat)[self.at as int],
    {
        let at: usize = self.at;
        let total: usize = self.total;
        proof {
            lemma_script_len(total as nat);
            lemma_rounds_len(total as nat, total as nat);
        }
        if at < 10 {
            proof {
                assert(script(total as nat)[at as int] == opening(total as nat)[at as int]);
            }
            match at {
                0 | 3 | 6 => Action::Check,
                1 => Action::Report(progress(GenerationPhase::Encoding, 0, 2)),
                2 => Action::EncodeNegative,
                4 => Action::Report(progress(GenerationPhase::Encoding, 1, 2)),
                5 => Action::EncodePrompt,
                7 => Action::Report(progress(GenerationPhase::Encoding, 2, 2)),
                8 => Action::Prepare,
                _ => Action::Report(progress(GenerationPhase::Denoising, 0, total)),
            }
        } else if at - 10 < 7 * total {
            let index: usize = (at - 10) / 7;
            proof {
                lemma_rounds(total as nat, total as nat, at - 10);
                assert(script(total as nat)[at as int] == rounds(total as nat, total as nat)[at
                    - 10]);
            }
            match (at - 10) % 7 {
                0 | 2 | 4 => Action::Check,
                1 => Action::PredictUnconditional(index),
                3 => Action::PredictConditional(index),
                5 => Action::Advance(index),
                _ => Action::Report(progress(GenerationPhase::Denoising, index + 1, total)),
            }
        } else {
            proof {
                assert(script(total as nat)[at as int] == closing()[at - 10 - 7 * total]);
            }
            match at - 10 - 7 * total {
                0 => Action::Report(progress(GenerationPhase::Decoding, 0, 1)),
                1 | 3 => Action::Check,
                2 => Action::Decode,
                4 => Action::Report(progress(GenerationPhase::Decoding, 1, 1)),
                _ => Action::Finish,
            }
        }
    }

    /// Goes on to the next action, once the present one has been done. Where it was a check and the
    /// answer is that the generation was cancelled, the generation stays where it is.
    pub fn proceed(&mut self, cancelled: bool) -> (result: Result<(), Cancelled>)
        requires
            old(self).wf(),
            script(old(self).total as nat)[old(self).at as int] != Action::Finish,
        ensures
            final(self).wf(),
            final(self).total == old(self).total,
            ({
                let stops = cancelled && script(old(self).total as nat)[old(self).at as int]
                    == Action::Check;
                &&& result is Err <==> stops
                &&& final(self).at == if stops {
                    old(self).at as int
                } else {
                    old(self).at + 1
                }
            }),
    {
        proof {
            lemma_script_len(self.total as nat);
            lemma_rounds_len(self.total as nat, self.total as nat);
            if self.at == 15 + 7 * self.total {
                assert(script(self.total as nat)[self.at as int] == closing()[5]);
            }
        }
        match self.action() {
            Action::Check => {
                if cancelled {
                    return Err(Cancelled);
                }
            },
            _ => {},
        }
        self.at = self.at + 1;
        Ok(())
    }

    /// Asks whether to go on, where the script has a question. The question is put with its place.
    pub fn ask<F: Fn(usize) -> bool>(&mut self, is_cancelled: &F) -> (result: Result<
        (),
        Cancelled,
    >)
        requires
            old(self).wf(),
            script(old(self).total as nat)[old(self).at as int] == Action::Check,
            call_requires(*is_cancelled, (old(self).at,)),
        ensures
            final(self).wf(),
            final(self).total == old(self).total,
            call_ensures(*is_cancelled, (old(self).at,), result is Err),
            result is Ok ==> final(self).at == old(self).at + 1,
            result is Err ==> final(self).at == old(self).at,
    {
        let at: usize = self.at;
        let here = || -> (cancelled: bool)
            requires
                answerable_at(is_cancelled, at),
            ensures
                answered_at(is_cancelled, at, cancelled),
            { is_cancelled(at) };
        let cancelled = ensure_running(&here).is_err();
        self.proceed(cancelled)
    }

    /// Tells how far the work has come, where the script has a report.
    pub fn tell<W: Fn(GenerationProgress)>(&mut self, on_progress: &W)
        requires
            old(self).wf(),
            script(old(self).total as nat)[old(self).at as int] is Report,
            forall|progress: GenerationProgress| #[trigger]
                call_requires(*on_progress, (progress,)),
        ensures
            final(self).wf(),
            final(self).total == old(self).total,
            final(self).at == old(self).at + 1,
            script(old(self).total as nat)[old(self).at as int] matches Action::Report(progress)
                ==> call_ensures(*on_progress, (progress,), ()),
    {
        match self.action() {
            Action::Report(progress) => {
                on_progress(progress);
            },
            _ => {},
        }
        let _ = self.proceed(false);
    }
}

/// The samples of an image, interleaved: red, green and blue of each pixel in turn.
pub open spec fn interleaves<T, F: Fn(T) -> u8>(
    quantize: F,
    data: Seq<T>,
    plane: int,
    rgb: Seq<u8>,
) -> bool {
    &&& rgb.len() == plane * 3
    &&& forall|pixel: int, channel: int|
        #![trigger rgb[pixel * 3 + channel]]
        0 <= pixel < plane && 0 <= channel < 3 ==> call_ensures(
            quantize,
            (data[channel * plane + pixel],),
            rgb[pixel * 3 + channel],
        )
}

/// A shape is that of one RGB image.
pub open spec fn image_shape(dims: Seq<usize>) -> bool {
    dims.len() == 4 && dims[0] == 1 && dims[1] == 3
}

/// What is wrong with a shape that is not that of one RGB image.
pub open spec fn shape_error(dims: Seq<usize>) -> PngError {
    if dims.len() != 4 {
        PngError::Rank
    } else {
        PngError::Shape
    }
}

/// Turns a decoded image, one plane for each colour, into interleaved bytes.
pub fn rgb8<T: Copy, F: Fn(T) -> u8>(image: &Tensor<T>, quantize: F) -> (result: Result<
    Vec<u8>,
    PngError,
>)
    requires
        image.wf(),
        fold::total1(quantize),
    ensures
        image_shape(image.dims()) ==> result is Ok && interleaves(
            quantize,
            image@,
            image.dims()[2] * image.dims()[3],
            result->Ok_0@,
        ),
        !image_shape(image.dims()) ==> result == Err::<Vec<u8>, _>(shape_error(image.dims())),
{
    let shape = image.shape();
    if shape.len() != 4 {
        return Err(PngError::Rank);
    }
    if shape[0] != 1 || shape[1] != 3 {
        return Err(PngError::Shape);
    }
    let data = image.data();
    proof {
        layout::lemma_product_small(shape@);
        assert(data@.len() == data.len());
        let p = shape@[2] * shape@[3];
        assert(1 * 3 * shape@[2] * shape@[3] == 3 * p) by (nonlinear_arith)
            requires
                p == shape@[2] * shape@[3],
        ;
    }
    let plane: usize = shape[2] * shape[3];
    let len: usize = plane * 3;
    let mut output: Vec<u8> = Vec::with_capacity(len);
    let mut k: usize = 0;
    while k < len
        invariant
            k == output@.len() <= len,
            len == plane * 3,
            data@.len() == 3 * plane,
            fold::total1(quantize),
            forall|i: int|
                0 <= i < k ==> call_ensures(
                    quantize,
                    (data@[(i % 3) * plane + i / 3],),
                    #[trigger] output@[i],
                ),
        decreases len - k,
    {
        let channel: usize = k % 3;
        let pixel: usize = k / 3;
        proof {
            layout::lemma_cell(channel as int, 3, pixel as int, plane as int);
        }
        output.push(quantize(data[channel * plane + pixel]));
        k = k + 1;
    }
    proof {
        assert forall|pixel: int, channel: int|
            #![trigger output@[pixel * 3 + channel]]
            0 <= pixel < plane && 0 <= channel < 3 implies call_ensures(
            quantize,
            (data@[channel * plane + pixel],),
            output@[pixel * 3 + channel],
        ) by {
            let i = pixel * 3 + channel;
            assert(i % 3 == channel && i / 3 == pixel);
        }
    }
    Ok(output)
}

/// Writes a decoded image as a PNG file.
pub fn png<T: Copy, F: Fn(T) -> u8>(image: &Tensor<T>, quantize: F) -> (result: Result<
    Vec<u8>,
    PngError,
>)
    requires
        image.wf(),
        fold::total1(quantize),
    ensures
        !image_shape(image.dims()) ==> result == Err::<Vec<u8>, _>(shape_error(image.dims())),
        image_shape(image.dims()) ==> exists|rgb: Seq<u8>|
            {
                &&& #[trigger] interleaves(
                    quantize,
                    image@,
                    image.dims()[2] * image.dims()[3],
                    rgb,
                )
                &&& match png::refusal(image.dims()[3] as nat, image.dims()[2] as nat, rgb) {
                    Some(error) => result == Err::<Vec<u8>, _>(error),
                    None => result is Ok && result->Ok_0@ == png::file(
                        image.dims()[3] as nat,
                        image.dims()[2] as nat,
                        rgb,
                    ),
                }
            },
{
    let rgb = match rgb8(image, quantize) {
        Ok(rgb) => rgb,
        Err(error) => {
            return Err(error);
        },
    };
    let shape = image.shape();
    proof {
        let p = shape@[2] * shape@[3];
        assert(p * 3 == 3 * shape@[3] * shape@[2]) by (nonlinear_arith)
            requires
                p == shape@[2] * shape@[3],
        ;
        assert(interleaves(quantize, image@, p, rgb@));
    }
    encode_rgb(shape[3], shape[2], &rgb)
}

} // verus!
