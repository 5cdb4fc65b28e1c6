//! The two text encoders of SDXL.

use vstd::prelude::*;
use crate::graph::{Memory, OpData};
use crate::layers::{Kernels, LayerData, LayerError, Weights};
use crate::layout;
use crate::pack;
use crate::reshape::Array;
use crate::safetensors::{SafeTensorFile, Scalar};
use crate::sd_unet;
use crate::tensor;
use crate::tensor::Tensor;
use crate::text_encoder;
use crate::text_encoder::{
    check, embed_tokens, finish, layers_program, run, EncoderError, EncoderFault, SEQUENCE,
};

verus! {

/// The size and the activation of a text encoder.
#[derive(Clone, Copy, Debug, PartialEq, Eq, Structural)]
pub struct ClipEncoderSpec {
    pub hidden: usize,
    pub heads: usize,
    pub layers: usize,
    pub vocab: usize,
    pub gelu_exact: bool,
}

/// The first encoder, CLIP-L.
pub open spec fn clip_l_spec() -> ClipEncoderSpec {
    ClipEncoderSpec { hidden: 768, heads: 12, layers: 12, vocab: 49408, gelu_exact: false }
}

/// The second encoder, OpenCLIP-bigG.
pub open spec fn clip_bigg_spec() -> ClipEncoderSpec {
    ClipEncoderSpec { hidden: 1280, heads: 20, layers: 32, vocab: 49408, gelu_exact: true }
}

/// The first encoder, CLIP-L.
pub fn clip_l() -> (spec: ClipEncoderSpec)
    ensures
        spec == clip_l_spec(),
{
    ClipEncoderSpec { hidden: 768, heads: 12, layers: 12, vocab: 49408, gelu_exact: false }
}

/// The second encoder, OpenCLIP-bigG.
pub fn clip_bigg() -> (spec: ClipEncoderSpec)
    ensures
        spec == clip_bigg_spec(),
{
    ClipEncoderSpec { hidden: 1280, heads: 20, layers: 32, vocab: 49408, gelu_exact: true }
}

impl ClipEncoderSpec {
    /// What configurations call the activation.
    pub open spec fn activation(self) -> Seq<char> {
        if self.gelu_exact {
            "gelu"@
        } else {
            "quick_gelu"@
        }
    }
}

/// What configurations call the activation.
pub fn activation_name(spec: &ClipEncoderSpec) -> (name: &'static str)
    ensures
        name@ == spec.activation(),
{
    if spec.gelu_exact {
        "gelu"
    } else {
        "quick_gelu"
    }
}

/// The token that ends every text.
pub const END_TOKEN: u32 = 49407;

/// The place of the first end token, or the last place.
pub open spec fn end_position(tokens: Seq<u32>, from: int) -> int
    decreases tokens.len() - from,
{
    if from < 0 || from >= tokens.len() {
        tokens.len() - 1
    } else if tokens[from] == END_TOKEN {
        from
    } else {
        end_position(tokens, from + 1)
    }
}

/// Why tokens are not encoded with this encoder at all, if they are not.
pub open spec fn start_fault(
    weights: Weights,
    tokens: Seq<u32>,
    spec: ClipEncoderSpec,
) -> Option<EncoderFault> {
    pack::either(
        text_encoder::embedding_fault(weights, tokens, spec),
        if spec.layers == 0 {
            Some(EncoderFault::NoLayers)
        } else {
            None
        },
    )
}

/// The layers but the last, and the check of the text's shape.
pub open spec fn penultimate_steps(spec: ClipEncoderSpec) -> Seq<OpData> {
    text_encoder::layers_steps(spec, 0, spec.layers - 1) + text_encoder::check_steps(spec)
}

/// `out` is the text after all layers but the last.
pub open spec fn penultimate<
    T: Copy,
    Z: Copy,
    M: Fn(T, T, T) -> T + Copy,
    P: Fn(T, T) -> T + Copy,
    G: Fn(T, T) -> T + Copy,
    L: Fn(T) -> T + Copy,
    E: Fn(T) -> T + Copy,
    Q: Fn(T) -> T + Copy,
    A: Fn(&[T], u32) -> Z + Copy,
    B: Fn(T, Z, T, T) -> T + Copy,
    C: Fn(T, usize) -> T + Copy,
    H: Fn(Vec<T>) -> Vec<T> + Copy,
    N: Fn(Scalar) -> T + Copy,
>(
    kernels: Kernels<T, M, P, G, L, E, Q, A, B, C, H, N>,
    weights: Weights,
    tokens: Seq<u32>,
    spec: ClipEncoderSpec,
    out: Array<T>,
) -> bool {
    exists|embedding: Array<T>|
        {
            &&& #[trigger] text_encoder::embeds(kernels, weights, tokens, spec.hidden, embedding)
            &&& kernels.computes(
                weights,
                sd_unet::nothing_given(),
                penultimate_steps(spec),
                embedding,
                out,
            )
        }
}

/// The layers but the last fail.
pub open spec fn penultimate_breaks<
    T: Copy,
    Z: Copy,
    M: Fn(T, T, T) -> T + Copy,
    P: Fn(T, T) -> T + Copy,
    G: Fn(T, T) -> T + Copy,
    L: Fn(T) -> T + Copy,
    E: Fn(T) -> T + Copy,
    Q: Fn(T) -> T + Copy,
    A: Fn(&[T], u32) -> Z + Copy,
    B: Fn(T, Z, T, T) -> T + Copy,
    C: Fn(T, usize) -> T + Copy,
    H: Fn(Vec<T>) -> Vec<T> + Copy,
    N: Fn(Scalar) -> T + Copy,
>(
    kernels: Kernels<T, M, P, G, L, E, Q, A, B, C, H, N>,
    weights: Weights,
    tokens: Seq<u32>,
    spec: ClipEncoderSpec,
    fault: EncoderFault,
) -> bool {
    exists|embedding: Array<T>|
        {
            &&& #[trigger] text_encoder::embeds(kernels, weights, tokens, spec.hidden, embedding)
            &&& fault matches EncoderFault::Graph(own) && own is Layer && kernels.breaks(
                weights,
                sd_unet::nothing_given(),
                penultimate_steps(spec),
                embedding,
                own,
            )
        }
}

/// What encoding tokens comes to.
pub open spec fn encodes<
    T: Copy,
    Z: Copy,
    M: Fn(T, T, T) -> T + Copy,
    P: Fn(T, T) -> T + Copy,
    G: Fn(T, T) -> T + Copy,
    L: Fn(T) -> T + Copy,
    E: Fn(T) -> T + Copy,
    Q: Fn(T) -> T + Copy,
    A: Fn(&[T], u32) -> Z + Copy,
    B: Fn(T, Z, T, T) -> T + Copy,
    C: Fn(T, usize) -> T + Copy,
    H: Fn(Vec<T>) -> Vec<T> + Copy,
    N: Fn(Scalar) -> T + Copy,
>(
    kernels: Kernels<T, M, P, G, L, E, Q, A, B, C, H, N>,
    weights: Weights,
    tokens: Seq<u32>,
    spec: ClipEncoderSpec,
    result: Result<Tensor<T>, EncoderError>,
) -> bool {
    match start_fault(weights, tokens, spec) {
        Some(fault) => result is Err && result->Err_0@ == fault,
        None => match result {
            Ok(out) => out.wf() && out.dims() == seq![1usize, 77usize, spec.hidden]
                && penultimate(
                kernels,
                weights,
                tokens,
                spec,
                out.array(),
            ),
            Err(error) => penultimate_breaks(
                kernels,
                weights,
                tokens,
                spec,
                error@,
            ),
        },
    }
}

/// Encodes tokens with all layers but the last.
pub fn encode_penultimate<
    T: Copy,
    Z: Copy,
    M: Fn(T, T, T) -> T + Copy,
    P: Fn(T, T) -> T + Copy,
    G: Fn(T, T) -> T + Copy,
    L: Fn(T) -> T + Copy,
    E: Fn(T) -> T + Copy,
    Q: Fn(T) -> T + Copy,
    A: Fn(&[T], u32) -> Z + Copy,
    B: Fn(T, Z, T, T) -> T + Copy,
    C: Fn(T, usize) -> T + Copy,
    H: Fn(Vec<T>) -> Vec<T> + Copy,
    N: Fn(Scalar) -> T + Copy,
>(
    kernels: &Kernels<T, M, P, G, L, E, Q, A, B, C, H, N>,
    weights: &SafeTensorFile,
    tokens: &[u32; 77],
    spec: &ClipEncoderSpec,
) -> (result: Result<Tensor<T>, EncoderError>)
    requires
        kernels.usable(),
        weights.wf(),
        spec.heads > 0,
    ensures
        encodes(*kernels, weights.weights(), tokens@, *spec, result),
{
    let embedding = match embed_tokens(kernels, weights, tokens, spec) {
        Ok(embedding) => embedding,
        Err(error) => {
            return Err(error);
        },
    };
    assert(text_encoder::embeds(
        *kernels,
        weights.weights(),
        tokens@,
        spec.hidden,
        embedding.array(),
    ));
    if spec.layers == 0 {
        return Err(EncoderError::NoLayers);
    }
    let mut program = layers_program(spec, 0, spec.layers - 1);
    check(&mut program, spec);
    let ghost input = embedding.array();
    proof {
        text_encoder::encoders_are_balanced(*spec, 0, spec.layers - 1);
        assert(penultimate_steps(*spec).last() == OpData::Apply(
            LayerData::TextRows { hidden: spec.hidden },
        ));
    }
    match run(kernels, weights, &program, embedding) {
        Ok(out) => {
            proof {
                lemma_checked(
                    *kernels,
                    weights.weights(),
                    penultimate_steps(*spec),
                    spec.hidden,
                    input,
                    out.array(),
                );
            }
            Ok(out)
        },
        Err(error) => Err(error),
    }
}

/// The steps after the layers but the last.
pub open spec fn last_steps(spec: ClipEncoderSpec) -> Seq<OpData> {
    text_encoder::layers_steps(spec, spec.layers - 1, spec.layers as int)
        + text_encoder::final_steps(spec)
}

/// A row of a text as a tensor.
pub open spec fn row_of<T>(input: Array<T>, row: int, hidden: usize) -> Array<T> {
    Array {
        dims: seq![1usize, hidden],
        data: input.data.subrange(row * hidden, row * hidden + hidden),
    }
}

/// `pooled` is the projection of the row of the end token after all layers.
pub open spec fn pools<
    T: Copy,
    Z: Copy,
    M: Fn(T, T, T) -> T + Copy,
    P: Fn(T, T) -> T + Copy,
    G: Fn(T, T) -> T + Copy,
    L: Fn(T) -> T + Copy,
    E: Fn(T) -> T + Copy,
    Q: Fn(T) -> T + Copy,
    A: Fn(&[T], u32) -> Z + Copy,
    B: Fn(T, Z, T, T) -> T + Copy,
    C: Fn(T, usize) -> T + Copy,
    H: Fn(Vec<T>) -> Vec<T> + Copy,
    N: Fn(Scalar) -> T + Copy,
>(
    kernels: Kernels<T, M, P, G, L, E, Q, A, B, C, H, N>,
    weights: Weights,
    tokens: Seq<u32>,
    spec: ClipEncoderSpec,
    text: Array<T>,
    pooled: Seq<T>,
) -> bool {
    exists|state: Array<T>, projection: Array<T>, out: Array<T>|
        {
            &&& #[trigger] kernels.computes(
                weights,
                sd_unet::nothing_given(),
                last_steps(spec),
                text,
                state,
            )
            &&& #[trigger] kernels.loads(weights, "text_projection.weight"@, projection)
            &&& #[trigger] kernels.projects(
                row_of(state, end_position(tokens, 0), spec.hidden),
                projection,
                None,
                out,
            )
            &&& pooled == out.data
        }
}

/// Pooling fails: the last layer fails, the file has no projection, or its shape does not fit.
pub open spec fn pooling_breaks<
    T: Copy,
    Z: Copy,
    M: Fn(T, T, T) -> T + Copy,
    P: Fn(T, T) -> T + Copy,
    G: Fn(T, T) -> T + Copy,
    L: Fn(T) -> T + Copy,
    E: Fn(T) -> T + Copy,
    Q: Fn(T) -> T + Copy,
    A: Fn(&[T], u32) -> Z + Copy,
    B: Fn(T, Z, T, T) -> T + Copy,
    C: Fn(T, usize) -> T + Copy,
    H: Fn(Vec<T>) -> Vec<T> + Copy,
    N: Fn(Scalar) -> T + Copy,
>(
    kernels: Kernels<T, M, P, G, L, E, Q, A, B, C, H, N>,
    weights: Weights,
    spec: ClipEncoderSpec,
    text: Array<T>,
    fault: EncoderFault,
) -> bool {
    ||| fault matches EncoderFault::Graph(own) && own is Layer && kernels.breaks(
        weights,
        sd_unet::nothing_given(),
        last_steps(spec),
        text,
        own,
    )
    ||| fault matches EncoderFault::Layer(own) && pack::either(
        weights.absence("text_projection.weight"@),
        crate::layers::tensor_fault(
            tensor::linear_refusal(
                seq![1usize, spec.hidden],
                weights.shape("text_projection.weight"@),
                None,
            ),
        ),
    ) == Some(own)
}

/// A program that ends with a check of the text's shape gives a text of that shape.
proof fn lemma_checked<
    T: Copy,
    Z: Copy,
    M: Fn(T, T, T) -> T + Copy,
    P: Fn(T, T) -> T + Copy,
    G: Fn(T, T) -> T + Copy,
    L: Fn(T) -> T + Copy,
    E: Fn(T) -> T + Copy,
    Q: Fn(T) -> T + Copy,
    A: Fn(&[T], u32) -> Z + Copy,
    B: Fn(T, Z, T, T) -> T + Copy,
    C: Fn(T, usize) -> T + Copy,
    H: Fn(Vec<T>) -> Vec<T> + Copy,
    N: Fn(Scalar) -> T + Copy,
>(
    kernels: Kernels<T, M, P, G, L, E, Q, A, B, C, H, N>,
    weights: Weights,
    program: Seq<OpData>,
    hidden: usize,
    input: Array<T>,
    out: Array<T>,
)
    requires
        program.len() > 0,
        program.last() == OpData::Apply(LayerData::TextRows { hidden }),
        kernels.computes(weights, sd_unet::nothing_given(), program, input, out),
    ensures
        out.dims == seq![1usize, 77usize, hidden],
{
    let after = Memory { stack: seq![out], skips: Seq::empty() };
    let before = Memory { stack: seq![input], skips: Seq::<Array<T>>::empty() };
    let middle = choose|middle: Memory<T>|
        {
            &&& kernels.runs(
                weights,
                sd_unet::nothing_given(),
                program.drop_last(),
                before,
                middle,
            )
            &&& crate::graph::step_fault(
                weights,
                sd_unet::nothing_given(),
                program.last(),
                middle,
            ) is None
            &&& #[trigger] kernels.performs(
                weights,
                sd_unet::nothing_given(),
                program.last(),
                middle,
                after,
            )
        };
    let top = choose|top: Array<T>|
        {
            &&& #[trigger] kernels.applies(
                weights,
                LayerData::TextRows { hidden },
                middle.peek(0),
                top,
            )
            &&& after == middle.replace(1, top)
        };
    assert(after.stack.last() == top);
    assert(after.stack.last() == out);
}

/// The row of the end token.
fn end_row<T: Copy>(state: &Tensor<T>, tokens: &[u32; 77], hidden: usize) -> (row: Tensor<T>)
    requires
        state.wf(),
        state.dims() == seq![1usize, 77usize, hidden],
    ensures
        row.wf(),
        row.array() == row_of(state.array(), end_position(tokens@, 0), hidden),
{
    let mut position: usize = 0;
    while position < SEQUENCE && tokens[position] != END_TOKEN
        invariant
            position <= 77,
            end_position(tokens@, 0) == end_position(tokens@, position as int),
        decreases 77 - position,
    {
        position = position + 1;
    }
    if position == SEQUENCE {
        position = SEQUENCE - 1;
    }
    proof {
        layout::lemma_product_small(state.dims());
        layout::lemma_product_positive(state.dims());
        assert(position * hidden + hidden <= 77 * hidden && 0 <= position * hidden)
            by (nonlinear_arith)
            requires
                0 <= position <= 76,
                0 < hidden,
        ;
        assert(1 * 77 * hidden == 77 * hidden) by (nonlinear_arith);
    }
    let start: usize = position * hidden;
    let data = vstd::slice::slice_to_vec(
        vstd::slice::slice_subrange(state.data(), start, start + hidden),
    );
    let shape: Vec<usize> = vec![1, hidden];
    proof {
        assert(shape@ =~= seq![1usize, hidden]);
        layout::lemma_product_small(shape@);
        assert(1 * hidden == hidden) by (nonlinear_arith);
    }
    Tensor::from_parts(shape, data)
}

/// What encoding and pooling tokens comes to.
pub open spec fn encodes_and_pools<
    T: Copy,
    Z: Copy,
    M: Fn(T, T, T) -> T + Copy,
    P: Fn(T, T) -> T + Copy,
    G: Fn(T, T) -> T + Copy,
    L: Fn(T) -> T + Copy,
    E: Fn(T) -> T + Copy,
    Q: Fn(T) -> T + Copy,
    A: Fn(&[T], u32) -> Z + Copy,
    B: Fn(T, Z, T, T) -> T + Copy,
    C: Fn(T, usize) -> T + Copy,
    H: Fn(Vec<T>) -> Vec<T> + Copy,
    N: Fn(Scalar) -> T + Copy,
>(
    kernels: Kernels<T, M, P, G, L, E, Q, A, B, C, H, N>,
    weights: Weights,
    tokens: Seq<u32>,
    spec: ClipEncoderSpec,
    result: Result<(Tensor<T>, Vec<T>), EncoderError>,
) -> bool {
    match start_fault(weights, tokens, spec) {
        Some(fault) => result is Err && result->Err_0@ == fault,
        None => match result {
            Ok((text, pooled)) => {
                &&& text.wf()
                &&& text.dims() == seq![1usize, 77usize, spec.hidden]
                &&& penultimate(
                    kernels,
                    weights,
                    tokens,
                    spec,
                    text.array(),
                )
                &&& pools(
                    kernels,
                    weights,
                    tokens,
                    spec,
                    text.array(),
                    pooled@,
                )
            },
            Err(error) => {
                ||| penultimate_breaks(
                    kernels,
                    weights,
                    tokens,
                    spec,
                    error@,
                )
                ||| exists|text: Array<T>|
                    {
                        &&& #[trigger] penultimate(
                            kernels,
                            weights,
                            tokens,
                            spec,
                            text,
                        )
                        &&& pooling_breaks(
                            kernels,
                            weights,
                            spec,
                            text,
                            error@,
                        )
                    }
            },
        },
    }
}

/// Encodes tokens with all layers but the last, and pools the text after all layers.
pub fn encode_with_pool<
    T: Copy,
    Z: Copy,
    M: Fn(T, T, T) -> T + Copy,
    P: Fn(T, T) -> T + Copy,
    G: Fn(T, T) -> T + Copy,
    L: Fn(T) -> T + Copy,
    E: Fn(T) -> T + Copy,
    Q: Fn(T) -> T + Copy,
    A: Fn(&[T], u32) -> Z + Copy,
    B: Fn(T, Z, T, T) -> T + Copy,
    C: Fn(T, usize) -> T + Copy,
    H: Fn(Vec<T>) -> Vec<T> + Copy,
    N: Fn(Scalar) -> T + Copy,
>(
    kernels: &Kernels<T, M, P, G, L, E, Q, A, B, C, H, N>,
    weights: &SafeTensorFile,
    tokens: &[u32; 77],
    spec: &ClipEncoderSpec,
) -> (result: Result<(Tensor<T>, Vec<T>), EncoderError>)
    requires
        kernels.usable(),
        weights.wf(),
        spec.heads > 0,
    ensures
        encodes_and_pools(*kernels, weights.weights(), tokens@, *spec, result),
{
    let text = match encode_penultimate(kernels, weights, tokens, spec) {
        Ok(text) => text,
        Err(error) => {
            return Err(error);
        },
    };
    assert(penultimate(*kernels, weights.weights(), tokens@, *spec, text.array()));
    let mut program = layers_program(spec, spec.layers - 1, spec.layers);
    finish(&mut program, spec);
    proof {
        text_encoder::encoders_are_balanced(*spec, spec.layers - 1, spec.layers as int);
        assert(last_steps(*spec).last() == OpData::Apply(
            LayerData::TextRows { hidden: spec.hidden },
        ));
    }
    let state = match run(kernels, weights, &program, text.duplicate()) {
        Ok(state) => state,
        Err(error) => {
            return Err(error);
        },
    };
    proof {
        lemma_checked(
            *kernels,
            weights.weights(),
            last_steps(*spec),
            spec.hidden,
            text.array(),
            state.array(),
        );
    }
    let row = end_row(&state, tokens, spec.hidden);
    let projection = match kernels.load_any(weights, "text_projection.weight") {
        Ok(projection) => projection,
        Err(error) => {
            return Err(EncoderError::Layer(error));
        },
    };
    match row.linear(&projection, None, kernels.zero, kernels.mac) {
        Ok(out) => {
            proof {
                assert(kernels.projects(row.array(), projection.array(), None, out.array()));
            }
            let pooled = vstd::slice::slice_to_vec(out.data());
            Ok((text, pooled))
        },
        Err(error) => Err(EncoderError::Layer(LayerError::Tensor(error))),
    }
}

} // verus!
