//! Noise prediction with the U-Net of SDXL.

use vstd::prelude::*;
use crate::fold;
use crate::graph::{GraphFault, Inputs, OpData};
use crate::layers::{Kernels, Weights};
use crate::reshape::Array;
use crate::safetensors::{SafeTensorFile, Scalar};
use crate::sd_scheduler;
use crate::sd_scheduler::timestep_embedding;
use crate::sd_unet;
use crate::sd_unet::{embedding_program, time_embedding};
use crate::tensor;
use crate::tensor::{extend, Tensor};
use crate::unet;
use crate::unet::{check_inputs, unet_program, UnetError, UnetFault, UnetModel};

verus! {

/// The width of the embedding of one number.
pub const ADDITION_TIME_EMBED_DIM: usize = 256;

/// The projections of the additional embedding.
pub open spec fn addition_steps() -> Seq<OpData> {
    sd_unet::embedding_steps("add_embedding.linear_1"@, "add_embedding.linear_2"@)
}

/// `out` is the text embedding followed by the embeddings of the first `count` numbers.
pub open spec fn appended<
    T,
    U: Fn(u32, usize, usize) -> T,
    V: Fn(u32, usize, usize) -> T,
>(cosine: U, sine: V, pooled: Seq<T>, ids: Seq<u32>, count: int, out: Seq<T>) -> bool
    decreases count,
{
    if count <= 0 {
        out == pooled
    } else {
        exists|row: Seq<T>|
            {
                &&& #[trigger] sd_scheduler::embeds(
                    ids[count - 1],
                    ADDITION_TIME_EMBED_DIM,
                    cosine,
                    sine,
                    row,
                )
                &&& out.len() >= row.len()
                &&& out.skip(out.len() - row.len()) == row
                &&& appended(
                    cosine,
                    sine,
                    pooled,
                    ids,
                    count - 1,
                    out.take(out.len() - row.len()),
                )
            }
    }
}

/// `out` is the additional embedding before its projections.
pub open spec fn additions<
    T,
    U: Fn(u32, usize, usize) -> T,
    V: Fn(u32, usize, usize) -> T,
>(cosine: U, sine: V, pooled: Seq<T>, ids: Seq<u32>, out: Array<T>) -> bool {
    &&& out.dims == seq![1usize, 2816usize]
    &&& appended(cosine, sine, pooled, ids, 6, out.data)
}

/// `out` is the additional embedding of a text and six numbers.
pub open spec fn adds_embedding<
    T: Copy,
    Z: Copy,
    M: Fn(T, T, T) -> T + Copy,
    P: Fn(T, T) -> T + Copy,
    G: Fn(T, T) -> T + Copy,
    L: Fn(T) -> T + Copy,
    E: Fn(T) -> T + Copy,
    Q: Fn(T) -> T + Copy,
    A: Fn(&[T], u32) -> Z + Copy,
    B: Fn(T, Z, T, T) -> T + Copy,
    C: Fn(T, usize) -> T + Copy,
    H: Fn(Vec<T>) -> Vec<T> + Copy,
    N: Fn(Scalar) -> T + Copy,
    U: Fn(u32, usize, usize) -> T + Copy,
    V: Fn(u32, usize, usize) -> T + Copy,
>(
    kernels: Kernels<T, M, P, G, L, E, Q, A, B, C, H, N>,
    weights: Weights,
    pooled: Seq<T>,
    ids: Seq<u32>,
    cosine: U,
    sine: V,
    out: Array<T>,
) -> bool {
    exists|input: Array<T>|
        {
            &&& #[trigger] additions(cosine, sine, pooled, ids, input)
            &&& kernels.computes(
                weights,
                sd_unet::nothing_given(),
                addition_steps(),
                input,
                out,
            )
        }
}

/// The projections of the additional embedding fail.
pub open spec fn addition_breaks<
    T: Copy,
    Z: Copy,
    M: Fn(T, T, T) -> T + Copy,
    P: Fn(T, T) -> T + Copy,
    G: Fn(T, T) -> T + Copy,
    L: Fn(T) -> T + Copy,
    E: Fn(T) -> T + Copy,
    Q: Fn(T) -> T + Copy,
    A: Fn(&[T], u32) -> Z + Copy,
    B: Fn(T, Z, T, T) -> T + Copy,
    C: Fn(T, usize) -> T + Copy,
    H: Fn(Vec<T>) -> Vec<T> + Copy,
    N: Fn(Scalar) -> T + Copy,
    U: Fn(u32, usize, usize) -> T + Copy,
    V: Fn(u32, usize, usize) -> T + Copy,
>(
    kernels: Kernels<T, M, P, G, L, E, Q, A, B, C, H, N>,
    weights: Weights,
    pooled: Seq<T>,
    ids: Seq<u32>,
    cosine: U,
    sine: V,
    fault: GraphFault,
) -> bool {
    exists|input: Array<T>|
        {
            &&& #[trigger] additions(cosine, sine, pooled, ids, input)
            &&& kernels.breaks(
                weights,
                sd_unet::nothing_given(),
                addition_steps(),
                input,
                fault,
            )
        }
}

/// Every number can be embedded.
pub open spec fn all_finite(ids: Seq<u32>) -> bool {
    forall|i: int| 0 <= i < ids.len() ==> crate::float_order::finite(#[trigger] ids[i])
}

/// One embedding more.
proof fn lemma_appended<
    T,
    U: Fn(u32, usize, usize) -> T,
    V: Fn(u32, usize, usize) -> T,
>(cosine: U, sine: V, pooled: Seq<T>, ids: Seq<u32>, count: int, out: Seq<T>, row: Seq<T>)
    requires
        count >= 0,
        appended(cosine, sine, pooled, ids, count, out),
        sd_scheduler::embeds(ids[count], ADDITION_TIME_EMBED_DIM, cosine, sine, row),
    ensures
        appended(cosine, sine, pooled, ids, count + 1, out + row),
{
    let longer = out + row;
    assert(longer.skip(longer.len() - row.len()) =~= row);
    assert(longer.take(longer.len() - row.len()) =~= out);
    let last = ids[count + 1 - 1];
    assert(sd_scheduler::embeds(last, ADDITION_TIME_EMBED_DIM, cosine, sine, row));
}

/// The additional embedding of a text and six numbers.
pub fn add_embedding<
    T: Copy,
    Z: Copy,
    M: Fn(T, T, T) -> T + Copy,
    P: Fn(T, T) -> T + Copy,
    G: Fn(T, T) -> T + Copy,
    L: Fn(T) -> T + Copy,
    E: Fn(T) -> T + Copy,
    Q: Fn(T) -> T + Copy,
    A: Fn(&[T], u32) -> Z + Copy,
    B: Fn(T, Z, T, T) -> T + Copy,
    C: Fn(T, usize) -> T + Copy,
    H: Fn(Vec<T>) -> Vec<T> + Copy,
    N: Fn(Scalar) -> T + Copy,
    U: Fn(u32, usize, usize) -> T + Copy,
    V: Fn(u32, usize, usize) -> T + Copy,
>(
    kernels: &Kernels<T, M, P, G, L, E, Q, A, B, C, H, N>,
    weights: &SafeTensorFile,
    pooled: &[T],
    ids: [u32; 6],
    cosine: U,
    sine: V,
) -> (result: Result<Tensor<T>, UnetError>)
    requires
        kernels.usable(),
        weights.wf(),
        fold::accepts3(cosine),
        fold::accepts3(sine),
        pooled@.len() == 1280,
    ensures
        if all_finite(ids@) {
            match result {
                Ok(out) => out.wf() && adds_embedding(
                    *kernels,
                    weights.weights(),
                    pooled@,
                    ids@,
                    cosine,
                    sine,
                    out.array(),
                ),
                Err(error) => error@ matches UnetFault::Graph(fault) && addition_breaks(
                    *kernels,
                    weights.weights(),
                    pooled@,
                    ids@,
                    cosine,
                    sine,
                    fault,
                ),
            }
        } else {
            result is Err && result->Err_0@ == UnetFault::Schedule(
                sd_scheduler::SchedulerError::EmbeddingTimestep,
            )
        },
{
    let mut data: Vec<T> = Vec::with_capacity(2816);
    extend(&mut data, pooled);
    assert(data@ =~= pooled@);
    let mut k: usize = 0;
    while k < 6
        invariant
            k <= 6,
            fold::accepts3(cosine),
            fold::accepts3(sine),
            data@.len() == 1280 + k * 256,
            appended(cosine, sine, pooled@, ids@, k as int, data@),
            forall|i: int| 0 <= i < k ==> crate::float_order::finite(#[trigger] ids@[i]),
        decreases 6 - k,
    {
        let row = match timestep_embedding(ids[k], ADDITION_TIME_EMBED_DIM, cosine, sine) {
            Ok(row) => row,
            Err(error) => {
                return Err(UnetError::Schedule(error));
            },
        };
        let ghost before = data@;
        extend(&mut data, &row);
        proof {
            lemma_appended(cosine, sine, pooled@, ids@, k as int, before, row@);
            assert(data@ =~= before + row@);
        }
        k = k + 1;
    }
    let shape: Vec<usize> = vec![1, 2816];
    proof {
        assert(all_finite(ids@));
        crate::layout::lemma_product_small(shape@);
        crate::layout::lemma_product_positive(shape@);
    }
    let embedding = Tensor::from_parts(shape, data);
    proof {
        assert(embedding.array().dims =~= seq![1usize, 2816usize]);
        assert(additions(cosine, sine, pooled@, ids@, embedding.array()));
    }
    let program = embedding_program("add_embedding.linear_1", "add_embedding.linear_2");
    match kernels.run(weights, None, None, &program, embedding) {
        Ok(out) => Ok(out),
        Err(error) => Err(UnetError::Graph(error)),
    }
}

/// `time` is the time embedding of a timestep with the additional embedding.
pub open spec fn times<
    T: Copy,
    Z: Copy,
    M: Fn(T, T, T) -> T + Copy,
    P: Fn(T, T) -> T + Copy,
    G: Fn(T, T) -> T + Copy,
    L: Fn(T) -> T + Copy,
    E: Fn(T) -> T + Copy,
    Q: Fn(T) -> T + Copy,
    A: Fn(&[T], u32) -> Z + Copy,
    B: Fn(T, Z, T, T) -> T + Copy,
    C: Fn(T, usize) -> T + Copy,
    H: Fn(Vec<T>) -> Vec<T> + Copy,
    N: Fn(Scalar) -> T + Copy,
    U: Fn(u32, usize, usize) -> T + Copy,
    V: Fn(u32, usize, usize) -> T + Copy,
>(
    kernels: Kernels<T, M, P, G, L, E, Q, A, B, C, H, N>,
    weights: Weights,
    timestep: u32,
    batch: usize,
    pooled: Seq<T>,
    ids: Seq<u32>,
    cosine: U,
    sine: V,
    time: Array<T>,
) -> bool {
    exists|base: Array<T>, addition: Array<T>|
        {
            &&& #[trigger] sd_unet::times(kernels, weights, timestep, batch, cosine, sine, base)
            &&& #[trigger] adds_embedding(kernels, weights, pooled, ids, cosine, sine, addition)
            &&& tensor::add_refusal(base.dims, addition.dims) is None
            &&& kernels.adds(base, addition, time)
        }
}

/// The time embedding fails: at the projections of the timestep, at a number that cannot be
/// embedded, at the projections of the additional embedding, or when the two are added.
pub open spec fn time_breaks<
    T: Copy,
    Z: Copy,
    M: Fn(T, T, T) -> T + Copy,
    P: Fn(T, T) -> T + Copy,
    G: Fn(T, T) -> T + Copy,
    L: Fn(T) -> T + Copy,
    E: Fn(T) -> T + Copy,
    Q: Fn(T) -> T + Copy,
    A: Fn(&[T], u32) -> Z + Copy,
    B: Fn(T, Z, T, T) -> T + Copy,
    C: Fn(T, usize) -> T + Copy,
    H: Fn(Vec<T>) -> Vec<T> + Copy,
    N: Fn(Scalar) -> T + Copy,
    U: Fn(u32, usize, usize) -> T + Copy,
    V: Fn(u32, usize, usize) -> T + Copy,
>(
    kernels: Kernels<T, M, P, G, L, E, Q, A, B, C, H, N>,
    weights: Weights,
    timestep: u32,
    batch: usize,
    pooled: Seq<T>,
    ids: Seq<u32>,
    cosine: U,
    sine: V,
    fault: UnetFault,
) -> bool {
    ||| fault matches UnetFault::Graph(own) && sd_unet::time_breaks(
        kernels,
        weights,
        timestep,
        batch,
        cosine,
        sine,
        own,
    )
    ||| exists|base: Array<T>|
        {
            &&& #[trigger] sd_unet::times(kernels, weights, timestep, batch, cosine, sine, base)
            &&& if !all_finite(ids) {
                fault == UnetFault::Schedule(sd_scheduler::SchedulerError::EmbeddingTimestep)
            } else {
                ||| fault matches UnetFault::Graph(own) && addition_breaks(
                    kernels,
                    weights,
                    pooled,
                    ids,
                    cosine,
                    sine,
                    own,
                )
                ||| exists|addition: Array<T>|
                    {
                        &&& #[trigger] adds_embedding(
                            kernels,
                            weights,
                            pooled,
                            ids,
                            cosine,
                            sine,
                            addition,
                        )
                        &&& fault matches UnetFault::Tensor(own) && tensor::add_refusal(
                            base.dims,
                            addition.dims,
                        ) == Some(own)
                    }
            }
        }
}

/// The time embedding of a timestep with the additional embedding.
fn conditioning<
    T: Copy,
    Z: Copy,
    M: Fn(T, T, T) -> T + Copy,
    P: Fn(T, T) -> T + Copy,
    G: Fn(T, T) -> T + Copy,
    L: Fn(T) -> T + Copy,
    E: Fn(T) -> T + Copy,
    Q: Fn(T) -> T + Copy,
    A: Fn(&[T], u32) -> Z + Copy,
    B: Fn(T, Z, T, T) -> T + Copy,
    C: Fn(T, usize) -> T + Copy,
    H: Fn(Vec<T>) -> Vec<T> + Copy,
    N: Fn(Scalar) -> T + Copy,
    U: Fn(u32, usize, usize) -> T + Copy,
    V: Fn(u32, usize, usize) -> T + Copy,
>(
    kernels: &Kernels<T, M, P, G, L, E, Q, A, B, C, H, N>,
    weights: &SafeTensorFile,
    timestep: u32,
    batch: usize,
    pooled: &[T],
    ids: [u32; 6],
    cosine: U,
    sine: V,
) -> (result: Result<Tensor<T>, UnetError>)
    requires
        kernels.usable(),
        weights.wf(),
        fold::accepts3(cosine),
        fold::accepts3(sine),
        pooled@.len() == 1280,
        0 < batch,
        batch * 320 <= usize::MAX,
    ensures
        match sd_scheduler::embedding_refusal(timestep, 320) {
            Some(error) => result is Err && result->Err_0@ == UnetFault::Schedule(error),
            None => match result {
                Ok(time) => time.wf() && all_finite(ids@) && times(
                    *kernels,
                    weights.weights(),
                    timestep,
                    batch,
                    pooled@,
                    ids@,
                    cosine,
                    sine,
                    time.array(),
                ),
                Err(error) => time_breaks(
                    *kernels,
                    weights.weights(),
                    timestep,
                    batch,
                    pooled@,
                    ids@,
                    cosine,
                    sine,
                    error@,
                ),
            },
        },
{
    let base = match time_embedding(kernels, weights, timestep, batch, cosine, sine) {
        Ok(base) => base,
        Err(error) => {
            return Err(error);
        },
    };
    proof {
        assert(sd_unet::times(
            *kernels,
            weights.weights(),
            timestep,
            batch,
            cosine,
            sine,
            base.array(),
        ));
    }
    let addition = match add_embedding(kernels, weights, pooled, ids, cosine, sine) {
        Ok(addition) => addition,
        Err(error) => {
            return Err(error);
        },
    };
    proof {
        assert(adds_embedding(
            *kernels,
            weights.weights(),
            pooled@,
            ids@,
            cosine,
            sine,
            addition.array(),
        ));
    }
    match base.add(&addition, kernels.plus) {
        Ok(time) => {
            proof {
                assert(kernels.adds(base.array(), addition.array(), time.array()));
            }
            Ok(time)
        },
        Err(error) => Err(UnetError::Tensor(error)),
    }
}

/// What predicting noise comes to.
pub open spec fn predicts<
    T: Copy,
    Z: Copy,
    M: Fn(T, T, T) -> T + Copy,
    P: Fn(T, T) -> T + Copy,
    G: Fn(T, T) -> T + Copy,
    L: Fn(T) -> T + Copy,
    E: Fn(T) -> T + Copy,
    Q: Fn(T) -> T + Copy,
    A: Fn(&[T], u32) -> Z + Copy,
    B: Fn(T, Z, T, T) -> T + Copy,
    C: Fn(T, usize) -> T + Copy,
    H: Fn(Vec<T>) -> Vec<T> + Copy,
    N: Fn(Scalar) -> T + Copy,
    U: Fn(u32, usize, usize) -> T + Copy,
    V: Fn(u32, usize, usize) -> T + Copy,
>(
    kernels: Kernels<T, M, P, G, L, E, Q, A, B, C, H, N>,
    weights: Weights,
    sample: Array<T>,
    timestep: u32,
    context: Array<T>,
    pooled: Seq<T>,
    time_ids: Seq<u32>,
    cosine: U,
    sine: V,
    result: Result<Tensor<T>, UnetError>,
) -> bool {
    match unet::input_refusal(
        UnetModel::Sdxl,
        sample.dims,
        context.dims,
        pooled.len(),
    ) {
        Some(fault) => result is Err && result->Err_0@ == fault,
        None => match sd_scheduler::embedding_refusal(timestep, 320) {
            Some(error) => result is Err && result->Err_0@ == UnetFault::Schedule(error),
            None => match result {
                Ok(out) => out.wf() && all_finite(time_ids) && exists|time: Array<T>|
                    {
                        &&& #[trigger] times(
                            kernels,
                            weights,
                            timestep,
                            sample.dims[0],
                            pooled,
                            time_ids,
                            cosine,
                            sine,
                            time,
                        )
                        &&& kernels.computes(
                            weights,
                            (Inputs { context: Some(context), time: Some(time) }),
                            unet::unet_steps(UnetModel::Sdxl),
                            sample,
                            out.array(),
                        )
                    },
                Err(error) => {
                    ||| time_breaks(
                        kernels,
                        weights,
                        timestep,
                        sample.dims[0],
                        pooled,
                        time_ids,
                        cosine,
                        sine,
                        error@,
                    )
                    ||| exists|time: Array<T>|
                        {
                            &&& #[trigger] times(
                                kernels,
                                weights,
                                timestep,
                                sample.dims[0],
                                pooled,
                                time_ids,
                                cosine,
                                sine,
                                time,
                            )
                            &&& error@ matches UnetFault::Graph(fault) && fault is Layer
                                && kernels.breaks(
                                weights,
                                (Inputs { context: Some(context), time: Some(time) }),
                                unet::unet_steps(UnetModel::Sdxl),
                                sample,
                                fault,
                            )
                        }
                },
            },
        },
    }
}

/// Predicts the noise in a sample of latents.
pub fn predict_noise<
    T: Copy,
    Z: Copy,
    M: Fn(T, T, T) -> T + Copy,
    P: Fn(T, T) -> T + Copy,
    G: Fn(T, T) -> T + Copy,
    L: Fn(T) -> T + Copy,
    E: Fn(T) -> T + Copy,
    Q: Fn(T) -> T + Copy,
    A: Fn(&[T], u32) -> Z + Copy,
    B: Fn(T, Z, T, T) -> T + Copy,
    C: Fn(T, usize) -> T + Copy,
    H: Fn(Vec<T>) -> Vec<T> + Copy,
    N: Fn(Scalar) -> T + Copy,
    U: Fn(u32, usize, usize) -> T + Copy,
    V: Fn(u32, usize, usize) -> T + Copy,
>(
    kernels: &Kernels<T, M, P, G, L, E, Q, A, B, C, H, N>,
    weights: &SafeTensorFile,
    sample: &Tensor<T>,
    timestep: u32,
    context: &Tensor<T>,
    pooled_text_embed: &[T],
    time_ids: [u32; 6],
    cosine: U,
    sine: V,
) -> (result: Result<Tensor<T>, UnetError>)
    requires
        kernels.usable(),
        weights.wf(),
        sample.wf(),
        context.wf(),
        fold::accepts3(cosine),
        fold::accepts3(sine),
        unet::input_refusal(
            UnetModel::Sdxl,
            sample.dims(),
            context.dims(),
            pooled_text_embed@.len(),
        ) is None ==> sample.dims()[0] * 320 <= usize::MAX,
    ensures
        predicts(
            *kernels,
            weights.weights(),
            sample.array(),
            timestep,
            context.array(),
            pooled_text_embed@,
            time_ids@,
            cosine,
            sine,
            result,
        ),
{
    assert(pooled_text_embed@.len() == pooled_text_embed.len());
    let batch: usize = match check_inputs(
        UnetModel::Sdxl,
        sample.shape(),
        context.shape(),
        pooled_text_embed.len(),
    ) {
        Ok(batch) => batch,
        Err(error) => {
            return Err(error);
        },
    };
    proof {
        crate::layout::lemma_product_positive(sample.dims());
    }
    let time = match conditioning(
        kernels,
        weights,
        timestep,
        batch,
        pooled_text_embed,
        time_ids,
        cosine,
        sine,
    ) {
        Ok(time) => time,
        Err(error) => {
            return Err(error);
        },
    };
    proof {
        assert(times(
            *kernels,
            weights.weights(),
            timestep,
            batch,
            pooled_text_embed@,
            time_ids@,
            cosine,
            sine,
            time.array(),
        ));
    }
    let program = unet_program(UnetModel::Sdxl);
    match kernels.run(weights, Some(context), Some(&time), &program, sample.duplicate()) {
        Ok(out) => Ok(out),
        Err(error) => {
            proof {
                unet::skips_are_used_up(UnetModel::Sdxl);
                kernels.balanced_programs_do_not_run_dry(
                    weights.weights(),
                    Inputs { context: Some(context.array()), time: Some(time.array()) },
                    unet::unet_steps(UnetModel::Sdxl),
                    sample.array(),
                    error@,
                );
            }
            Err(UnetError::Graph(error))
        },
    }
}

} // verus!
