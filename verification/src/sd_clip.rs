//! The text encoder of SD1.5.

use vstd::prelude::*;
use crate::graph::OpData;
use crate::layers::{Kernels, Weights};
use crate::reshape::Array;
use crate::safetensors::{SafeTensorFile, Scalar};
use crate::sd_unet;
use crate::sdxl_clip;
use crate::sdxl_clip::clip_l;
use crate::tensor::Tensor;
use crate::text_encoder;
use crate::text_encoder::{embed_tokens, finish, layers_program, run, EncoderError, EncoderFault};

verus! {

/// Why tokens are not embedded, if they are not.
pub open spec fn embedding_fault(weights: Weights, tokens: Seq<u32>) -> Option<EncoderFault> {
    match text_encoder::embedding_fault(weights, tokens, sdxl_clip::clip_l_spec()) {
        Some(EncoderFault::Token { token, .. }) => Some(EncoderFault::Sd15Token { token }),
        other => other,
    }
}

/// The steps of the encoder.
pub open spec fn encoder_steps() -> Seq<OpData> {
    text_encoder::layers_steps(sdxl_clip::clip_l_spec(), 0, 12) + text_encoder::final_steps(
        sdxl_clip::clip_l_spec(),
    )
}

/// What encoding tokens comes to.
pub open spec fn encodes<
    T: Copy,
    Z: Copy,
    M: Fn(T, T, T) -> T + Copy,
    P: Fn(T, T) -> T + Copy,
    G: Fn(T, T) -> T + Copy,
    L: Fn(T) -> T + Copy,
    E: Fn(T) -> T + Copy,
    Q: Fn(T) -> T + Copy,
    A: Fn(&[T], u32) -> Z + Copy,
    B: Fn(T, Z, T, T) -> T + Copy,
    C: Fn(T, usize) -> T + Copy,
    H: Fn(Vec<T>) -> Vec<T> + Copy,
    N: Fn(Scalar) -> T + Copy,
>(
    kernels: Kernels<T, M, P, G, L, E, Q, A, B, C, H, N>,
    weights: Weights,
    tokens: Seq<u32>,
    result: Result<Tensor<T>, EncoderError>,
) -> bool {
    match embedding_fault(weights, tokens) {
        Some(fault) => result is Err && result->Err_0@ == fault,
        None => exists|embedding: Array<T>|
            {
                &&& #[trigger] text_encoder::embeds(
                    kernels,
                    weights,
                    tokens,
                    768,
                    embedding,
                )
                &&& match result {
                    Ok(out) => out.wf() && kernels.computes(
                        weights,
                        sd_unet::nothing_given(),
                        encoder_steps(),
                        embedding,
                        out.array(),
                    ),
                    Err(error) => error@ matches EncoderFault::Graph(fault) && fault is Layer
                        && kernels.breaks(
                        weights,
                        sd_unet::nothing_given(),
                        encoder_steps(),
                        embedding,
                        fault,
                    ),
                }
            },
    }
}

/// Encodes tokens with all layers and the normalization after the last.
pub fn encode<
    T: Copy,
    Z: Copy,
    M: Fn(T, T, T) -> T + Copy,
    P: Fn(T, T) -> T + Copy,
    G: Fn(T, T) -> T + Copy,
    L: Fn(T) -> T + Copy,
    E: Fn(T) -> T + Copy,
    Q: Fn(T) -> T + Copy,
    A: Fn(&[T], u32) -> Z + Copy,
    B: Fn(T, Z, T, T) -> T + Copy,
    C: Fn(T, usize) -> T + Copy,
    H: Fn(Vec<T>) -> Vec<T> + Copy,
    N: Fn(Scalar) -> T + Copy,
>(
    kernels: &Kernels<T, M, P, G, L, E, Q, A, B, C, H, N>,
    weights: &SafeTensorFile,
    tokens: &[u32; 77],
) -> (result: Result<Tensor<T>, EncoderError>)
    requires
        kernels.usable(),
        weights.wf(),
    ensures
        encodes(*kernels, weights.weights(), tokens@, result),
{
    let spec = clip_l();
    let embedding = match embed_tokens(kernels, weights, tokens, &spec) {
        Ok(embedding) => embedding,
        Err(EncoderError::Token { token, vocab }) => {
            return Err(EncoderError::Sd15Token { token });
        },
        Err(error) => {
            return Err(error);
        },
    };
    assert(text_encoder::embeds(
        *kernels,
        weights.weights(),
        tokens@,
        768,
        embedding.array(),
    ));
    let mut program = layers_program(&spec, 0, spec.layers);
    finish(&mut program, &spec);
    proof {
        text_encoder::encoders_are_balanced(spec, 0, 12);
    }
    run(kernels, weights, &program, embedding)
}

} // verus!
