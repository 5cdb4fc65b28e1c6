//! The SDXL denoising pipeline: what is asked for.
//!
//! The work is done in the same order as in [`crate::sd_pipeline`].

use vstd::prelude::*;
use crate::sd_pipeline;
use crate::sd_pipeline::{check_request, RequestError};

verus! {

broadcast use vstd::string::group_string_axioms;

/// What is to be generated. The guidance scale is a single-precision bit pattern; the resolution is
/// the side of the image in pixels.
#[derive(Clone, Debug)]
pub struct GenerationRequest {
    pub prompt: String,
    pub negative_prompt: String,
    pub steps: usize,
    pub guidance_scale: u32,
    pub seed: u64,
    pub resolution: usize,
}

impl Default for GenerationRequest {
    /// No prompts, 20 steps, a guidance scale of 5, seed 0, and 1024 pixels.
    fn default() -> (request: Self)
        ensures
            request.prompt@ == Seq::<char>::empty(),
            request.negative_prompt@ == Seq::<char>::empty(),
            request.steps == 20,
            request.guidance_scale == 0x40a0_0000,
            request.seed == 0,
            request.resolution == 1024,
    {
        GenerationRequest {
            prompt: String::new(),
            negative_prompt: String::new(),
            steps: 20,
            guidance_scale: 0x40a0_0000,
            seed: 0,
            resolution: 1024,
        }
    }
}

/// Why a request is refused, if it is.
pub open spec fn request_refusal(request: GenerationRequest) -> Option<RequestError> {
    match sd_pipeline::request_refusal(request.prompt@, request.steps, request.guidance_scale) {
        Some(error) => Some(error),
        None => if request.resolution == 0 || request.resolution % 8 != 0 {
            Some(RequestError::Resolution)
        } else {
            None
        },
    }
}

/// Checks a request.
pub fn validate_request(request: &GenerationRequest) -> (result: Result<(), RequestError>)
    ensures
        result == match request_refusal(*request) {
            Some(error) => Err::<(), RequestError>(error),
            None => Ok(()),
        },
{
    match check_request(request.prompt.as_str(), request.steps, request.guidance_scale) {
        Err(error) => {
            return Err(error);
        },
        Ok(()) => {},
    }
    if request.resolution == 0 || request.resolution % 8 != 0 {
        return Err(RequestError::Resolution);
    }
    Ok(())
}

/// The shape of the latents: one latent pixel for each eight by eight pixels of the image.
pub fn latent_shape(resolution: usize) -> (shape: Vec<usize>)
    ensures
        shape@ == seq![1usize, 4, (resolution / 8) as usize, (resolution / 8) as usize],
{
    let side: usize = resolution / 8;
    let shape: Vec<usize> = vec![1, 4, side, side];
    assert(shape@ =~= seq![1usize, 4, (resolution / 8) as usize, (resolution / 8) as usize]);
    shape
}

/// The sizes that the UNet is told: the image is not cropped, and its original size and its target
/// size are the resolution.
pub fn time_ids(resolution: usize) -> (ids: [usize; 6])
    ensures
        ids@ == seq![resolution, resolution, 0, 0, resolution, resolution],
{
    let ids: [usize; 6] = [resolution, resolution, 0, 0, resolution, resolution];
    assert(ids@ =~= seq![resolution, resolution, 0, 0, resolution, resolution]);
    ids
}

} // verus!
