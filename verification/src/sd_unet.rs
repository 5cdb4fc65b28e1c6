//! Noise prediction with the U-Net of SD1.5.

use vstd::prelude::*;
use crate::blocks;
use crate::blocks::put;
use crate::fold;
use crate::graph;
use crate::graph::{GraphFault, Inputs, Op, OpData};
use crate::layers::{Kernels, Layer, LayerData, Weights};
use crate::reshape::Array;
use crate::safetensors::{SafeTensorFile, Scalar};
use crate::sd_scheduler;
use crate::sd_scheduler::timestep_embedding;
use crate::tensor::{extend, Tensor};
use crate::unet;
use crate::unet::{check_inputs, unet_program, UnetError, UnetFault, UnetModel};

verus! {

/// The two projections of a named embedding.
pub open spec fn embedding_steps(first: Seq<char>, second: Seq<char>) -> Seq<OpData> {
    seq![
        blocks::linear(first),
        OpData::Apply(LayerData::Silu),
        blocks::linear(second),
    ]
}

/// The two projections of a named embedding as a program.
pub fn embedding_program(first: &str, second: &str) -> (program: Vec<Op>)
    ensures
        graph::steps(program@) == embedding_steps(first@, second@),
{
    let mut program: Vec<Op> = Vec::new();
    put(&mut program, Op::Apply(Layer::Linear { prefix: first.to_owned() }));
    put(&mut program, Op::Apply(Layer::Silu));
    put(&mut program, Op::Apply(Layer::Linear { prefix: second.to_owned() }));
    proof {
        assert(graph::steps(program@) =~= embedding_steps(first@, second@));
    }
    program
}

/// The projections of the time embedding.
pub open spec fn time_steps() -> Seq<OpData> {
    embedding_steps("time_embedding.linear_1"@, "time_embedding.linear_2"@)
}

/// A program without text context and time embedding.
pub open spec fn nothing_given<T>() -> Inputs<T> {
    Inputs { context: None, time: None }
}

/// A row repeated.
pub open spec fn repeated<T>(row: Seq<T>, count: int) -> Seq<T>
    decreases count,
{
    if count <= 0 {
        Seq::empty()
    } else {
        repeated(row, count - 1) + row
    }
}

/// The length of a repeated row.
proof fn lemma_repeated_len<T>(row: Seq<T>, count: int)
    requires
        count >= 0,
    ensures
        repeated(row, count).len() == count * row.len(),
    decreases count,
{
    if count > 0 {
        lemma_repeated_len(row, count - 1);
        assert(count * row.len() == (count - 1) * row.len() + row.len()) by (nonlinear_arith);
    } else {
        assert(0 * row.len() == 0) by (nonlinear_arith);
    }
}

/// A row as often as there are samples.
pub open spec fn rows<T>(row: Seq<T>, batch: usize) -> Array<T> {
    Array { dims: seq![batch, row.len() as usize], data: repeated(row, batch as int) }
}

/// `time` is the time embedding of a timestep, for every sample.
pub open spec fn times<
    T: Copy,
    Z: Copy,
    M: Fn(T, T, T) -> T + Copy,
    P: Fn(T, T) -> T + Copy,
    G: Fn(T, T) -> T + Copy,
    L: Fn(T) -> T + Copy,
    E: Fn(T) -> T + Copy,
    Q: Fn(T) -> T + Copy,
    A: Fn(&[T], u32) -> Z + Copy,
    B: Fn(T, Z, T, T) -> T + Copy,
    C: Fn(T, usize) -> T + Copy,
    H: Fn(Vec<T>) -> Vec<T> + Copy,
    N: Fn(Scalar) -> T + Copy,
    U: Fn(u32, usize, usize) -> T + Copy,
    V: Fn(u32, usize, usize) -> T + Copy,
>(
    kernels: Kernels<T, M, P, G, L, E, Q, A, B, C, H, N>,
    weights: Weights,
    timestep: u32,
    batch: usize,
    cosine: U,
    sine: V,
    time: Array<T>,
) -> bool {
    exists|row: Seq<T>|
        {
            &&& #[trigger] sd_scheduler::embeds(timestep, 320, cosine, sine, row)
            &&& kernels.computes(
                weights,
                nothing_given(),
                time_steps(),
                rows(row, batch),
                time,
            )
        }
}

/// The projections of the time embedding fail.
pub open spec fn time_breaks<
    T: Copy,
    Z: Copy,
    M: Fn(T, T, T) -> T + Copy,
    P: Fn(T, T) -> T + Copy,
    G: Fn(T, T) -> T + Copy,
    L: Fn(T) -> T + Copy,
    E: Fn(T) -> T + Copy,
    Q: Fn(T) -> T + Copy,
    A: Fn(&[T], u32) -> Z + Copy,
    B: Fn(T, Z, T, T) -> T + Copy,
    C: Fn(T, usize) -> T + Copy,
    H: Fn(Vec<T>) -> Vec<T> + Copy,
    N: Fn(Scalar) -> T + Copy,
    U: Fn(u32, usize, usize) -> T + Copy,
    V: Fn(u32, usize, usize) -> T + Copy,
>(
    kernels: Kernels<T, M, P, G, L, E, Q, A, B, C, H, N>,
    weights: Weights,
    timestep: u32,
    batch: usize,
    cosine: U,
    sine: V,
    fault: GraphFault,
) -> bool {
    exists|row: Seq<T>|
        {
            &&& #[trigger] sd_scheduler::embeds(timestep, 320, cosine, sine, row)
            &&& kernels.breaks(
                weights,
                nothing_given(),
                time_steps(),
                rows(row, batch),
                fault,
            )
        }
}

/// The time embedding of a timestep, for every sample.
pub fn time_embedding<
    T: Copy,
    Z: Copy,
    M: Fn(T, T, T) -> T + Copy,
    P: Fn(T, T) -> T + Copy,
    G: Fn(T, T) -> T + Copy,
    L: Fn(T) -> T + Copy,
    E: Fn(T) -> T + Copy,
    Q: Fn(T) -> T + Copy,
    A: Fn(&[T], u32) -> Z + Copy,
    B: Fn(T, Z, T, T) -> T + Copy,
    C: Fn(T, usize) -> T + Copy,
    H: Fn(Vec<T>) -> Vec<T> + Copy,
    N: Fn(Scalar) -> T + Copy,
    U: Fn(u32, usize, usize) -> T + Copy,
    V: Fn(u32, usize, usize) -> T + Copy,
>(
    kernels: &Kernels<T, M, P, G, L, E, Q, A, B, C, H, N>,
    weights: &SafeTensorFile,
    timestep: u32,
    batch: usize,
    cosine: U,
    sine: V,
) -> (result: Result<Tensor<T>, UnetError>)
    requires
        kernels.usable(),
        weights.wf(),
        fold::accepts3(cosine),
        fold::accepts3(sine),
        0 < batch,
        batch * 320 <= usize::MAX,
    ensures
        match sd_scheduler::embedding_refusal(timestep, 320) {
            Some(error) => result is Err && result->Err_0@ == UnetFault::Schedule(error),
            None => match result {
                Ok(time) => time.wf() && times(
                    *kernels,
                    weights.weights(),
                    timestep,
                    batch,
                    cosine,
                    sine,
                    time.array(),
                ),
                Err(error) => error@ matches UnetFault::Graph(fault) && time_breaks(
                    *kernels,
                    weights.weights(),
                    timestep,
                    batch,
                    cosine,
                    sine,
                    fault,
                ),
            },
        },
{
    let row = match timestep_embedding(timestep, 320, cosine, sine) {
        Ok(row) => row,
        Err(error) => {
            return Err(UnetError::Schedule(error));
        },
    };
    let mut data: Vec<T> = Vec::new();
    let mut k: usize = 0;
    while k < batch
        invariant
            k <= batch,
            data@ == repeated(row@, k as int),
        decreases batch - k,
    {
        extend(&mut data, &row);
        proof {
            assert(data@ =~= repeated(row@, k + 1));
        }
        k = k + 1;
    }
    let shape: Vec<usize> = vec![batch, 320];
    proof {
        lemma_repeated_len(row@, batch as int);
        crate::layout::lemma_product_small(shape@);
        crate::layout::lemma_product_positive(shape@);
    }
    let embedding = Tensor::from_parts(shape, data);
    proof {
        assert(embedding.array().dims =~= rows(row@, batch).dims);
        assert(embedding.array() == rows(row@, batch));
    }
    let program = embedding_program("time_embedding.linear_1", "time_embedding.linear_2");
    match kernels.run(weights, None, None, &program, embedding) {
        Ok(time) => Ok(time),
        Err(error) => Err(UnetError::Graph(error)),
    }
}

/// What predicting noise comes to.
pub open spec fn predicts<
    T: Copy,
    Z: Copy,
    M: Fn(T, T, T) -> T + Copy,
    P: Fn(T, T) -> T + Copy,
    G: Fn(T, T) -> T + Copy,
    L: Fn(T) -> T + Copy,
    E: Fn(T) -> T + Copy,
    Q: Fn(T) -> T + Copy,
    A: Fn(&[T], u32) -> Z + Copy,
    B: Fn(T, Z, T, T) -> T + Copy,
    C: Fn(T, usize) -> T + Copy,
    H: Fn(Vec<T>) -> Vec<T> + Copy,
    N: Fn(Scalar) -> T + Copy,
    U: Fn(u32, usize, usize) -> T + Copy,
    V: Fn(u32, usize, usize) -> T + Copy,
>(
    kernels: Kernels<T, M, P, G, L, E, Q, A, B, C, H, N>,
    weights: Weights,
    sample: Array<T>,
    timestep: u32,
    context: Array<T>,
    cosine: U,
    sine: V,
    result: Result<Tensor<T>, UnetError>,
) -> bool {
    match unet::input_refusal(UnetModel::Sd15, sample.dims, context.dims, 0) {
        Some(fault) => result is Err && result->Err_0@ == fault,
        None => match sd_scheduler::embedding_refusal(timestep, 320) {
            Some(error) => result is Err && result->Err_0@ == UnetFault::Schedule(error),
            None => match result {
                Ok(out) => out.wf() && exists|time: Array<T>|
                    {
                        &&& #[trigger] times(
                            kernels,
                            weights,
                            timestep,
                            sample.dims[0],
                            cosine,
                            sine,
                            time,
                        )
                        &&& kernels.computes(
                            weights,
                            (Inputs { context: Some(context), time: Some(time) }),
                            unet::unet_steps(UnetModel::Sd15),
                            sample,
                            out.array(),
                        )
                    },
                Err(error) => {
                    &&& error@ matches UnetFault::Graph(fault)
                    &&& {
                        ||| time_breaks(
                            kernels,
                            weights,
                            timestep,
                            sample.dims[0],
                            cosine,
                            sine,
                            fault,
                        )
                        ||| fault is Layer && exists|time: Array<T>|
                            {
                                &&& #[trigger] times(
                                    kernels,
                                    weights,
                                    timestep,
                                    sample.dims[0],
                                    cosine,
                                    sine,
                                    time,
                                )
                                &&& kernels.breaks(
                                    weights,
                                    (Inputs {
                                        context: Some(context),
                                        time: Some(time),
                                    }),
                                    unet::unet_steps(UnetModel::Sd15),
                                    sample,
                                    fault,
                                )
                            }
                    }
                },
            },
        },
    }
}

/// Predicts the noise in a sample of latents.
pub fn predict_noise<
    T: Copy,
    Z: Copy,
    M: Fn(T, T, T) -> T + Copy,
    P: Fn(T, T) -> T + Copy,
    G: Fn(T, T) -> T + Copy,
    L: Fn(T) -> T + Copy,
    E: Fn(T) -> T + Copy,
    Q: Fn(T) -> T + Copy,
    A: Fn(&[T], u32) -> Z + Copy,
    B: Fn(T, Z, T, T) -> T + Copy,
    C: Fn(T, usize) -> T + Copy,
    H: Fn(Vec<T>) -> Vec<T> + Copy,
    N: Fn(Scalar) -> T + Copy,
    U: Fn(u32, usize, usize) -> T + Copy,
    V: Fn(u32, usize, usize) -> T + Copy,
>(
    kernels: &Kernels<T, M, P, G, L, E, Q, A, B, C, H, N>,
    weights: &SafeTensorFile,
    sample: &Tensor<T>,
    timestep: u32,
    context: &Tensor<T>,
    cosine: U,
    sine: V,
) -> (result: Result<Tensor<T>, UnetError>)
    requires
        kernels.usable(),
        weights.wf(),
        sample.wf(),
        context.wf(),
        fold::accepts3(cosine),
        fold::accepts3(sine),
        unet::input_refusal(UnetModel::Sd15, sample.dims(), context.dims(), 0) is None
            ==> sample.dims()[0] * 320 <= usize::MAX,
    ensures
        predicts(
            *kernels,
            weights.weights(),
            sample.array(),
            timestep,
            context.array(),
            cosine,
            sine,
            result,
        ),
{
    let batch: usize = match check_inputs(UnetModel::Sd15, sample.shape(), context.shape(), 0) {
        Ok(batch) => batch,
        Err(error) => {
            return Err(error);
        },
    };
    proof {
        crate::layout::lemma_product_positive(sample.dims());
    }
    let time = match time_embedding(kernels, weights, timestep, batch, cosine, sine) {
        Ok(time) => time,
        Err(error) => {
            return Err(error);
        },
    };
    let program = unet_program(UnetModel::Sd15);
    match kernels.run(weights, Some(context), Some(&time), &program, sample.duplicate()) {
        Ok(out) => {
            proof {
                assert(times(
                    *kernels,
                    weights.weights(),
                    timestep,
                    batch,
                    cosine,
                    sine,
                    time.array(),
                ));
            }
            Ok(out)
        },
        Err(error) => {
            proof {
                unet::skips_are_used_up(UnetModel::Sd15);
                kernels.balanced_programs_do_not_run_dry(
                    weights.weights(),
                    Inputs { context: Some(context.array()), time: Some(time.array()) },
                    unet::unet_steps(UnetModel::Sd15),
                    sample.array(),
                    error@,
                );
            }
            Err(UnetError::Graph(error))
        },
    }
}

} // verus!
