//! The decoder that turns latents into images.

use vstd::prelude::*;
use crate::blocks;
use crate::blocks::{image_attention, named, numbered, put, resnet};
use crate::fold;
use crate::graph;
use crate::graph::{GraphError, GraphFault, Level, Op, OpData};
use crate::layers;
use crate::layers::{Kernels, Layer, LayerData, Weights};
use crate::reshape;
use crate::reshape::{extract_tile, Array};
use crate::safetensors::{SafeTensorFile, Scalar};
use crate::sd_unet;
use crate::tensor::{same_dims, Tensor};
use crate::text;
use crate::text::{push_bracketed, push_usize};
use crate::tiles;
use crate::tiles::{blend_tiles, tile_windows, Blend, Window, TILE_CONTEXT, TILE_CORE};
use crate::unet;
use crate::unet::part_name;

verus! {

broadcast use vstd::string::group_string_axioms;

/// The bit pattern of 0.18215, by which latents are divided.
pub const LATENT_SCALE: u32 = 0x3e3a_8588;

/// Why latents are not decoded.
#[derive(Clone, Debug, PartialEq, Eq)]
#[allow(inconsistent_fields)]
pub enum VaeError {
    Latents { shape: Vec<usize> },
    TileShape { shape: Vec<usize>, height: usize, width: usize },
    Uncovered { pixel: usize },
    Graph(GraphError),
}

/// What a [`VaeError`] says, with shapes as sequences.
#[allow(inconsistent_fields)]
pub enum VaeFault {
    Latents { shape: Seq<usize> },
    TileShape { shape: Seq<usize>, height: usize, width: usize },
    Uncovered { pixel: usize },
    Graph(GraphFault),
}

impl View for VaeError {
    type V = VaeFault;

    open spec fn view(&self) -> VaeFault {
        match *self {
            VaeError::Latents { shape } => VaeFault::Latents { shape: shape@ },
            VaeError::TileShape { shape, height, width } => VaeFault::TileShape {
                shape: shape@,
                height,
                width,
            },
            VaeError::Uncovered { pixel } => VaeFault::Uncovered { pixel },
            VaeError::Graph(error) => VaeFault::Graph(error@),
        }
    }
}

impl VaeFault {
    /// The message for people.
    pub open spec fn text(self) -> Seq<char> {
        match self {
            VaeFault::Latents { shape } =>
                "Stable Diffusion VAE latents must have shape [1, 4, H, W], got "@
                + text::bracketed(shape),
            VaeFault::TileShape { shape, height, width } => "VAE tile decoded to "@
                + text::bracketed(shape) + ", expected [1, 3, "@ + text::decimal(height as nat)
                + ", "@ + text::decimal(width as nat) + "]"@,
            VaeFault::Uncovered { pixel } => "VAE tile blending left output pixel "@
                + text::decimal(pixel as nat) + " uncovered"@,
            VaeFault::Graph(fault) => fault.text(),
        }
    }
}

impl VaeError {
    /// The message for people.
    pub fn message(&self) -> (message: String)
        ensures
            message@ == self@.text(),
    {
        let mut out = String::new();
        match self {
            VaeError::Latents { shape } => {
                out.append("Stable Diffusion VAE latents must have shape [1, 4, H, W], got ");
                push_bracketed(&mut out, shape);
            },
            VaeError::TileShape { shape, height, width } => {
                out.append("VAE tile decoded to ");
                push_bracketed(&mut out, shape);
                out.append(", expected [1, 3, ");
                push_usize(&mut out, *height);
                out.append(", ");
                push_usize(&mut out, *width);
                out.append("]");
            },
            VaeError::Uncovered { pixel } => {
                out.append("VAE tile blending left output pixel ");
                push_usize(&mut out, *pixel);
                out.append(" uncovered");
            },
            VaeError::Graph(error) => {
                return error.message();
            },
        }
        out
    }
}

/// A shape of latents: one sample of four channels.
pub open spec fn latents_fit(dims: Seq<usize>) -> bool {
    dims.len() == 4 && dims[0] == 1 && dims[1] == 4
}

/// Refuses a tensor that holds no latents.
pub fn require_latents<T: Copy>(latents: &Tensor<T>) -> (result: Result<(), VaeError>)
    ensures
        result is Ok <==> latents_fit(latents.dims()),
        result matches Err(error) ==> error@ == (VaeFault::Latents { shape: latents.dims() }),
{
    let shape = latents.shape();
    assert(shape@.len() == shape.len());
    if shape.len() != 4 || shape[0] != 1 || shape[1] != 4 {
        return Err(VaeError::Latents { shape: vstd::slice::slice_to_vec(shape) });
    }
    Ok(())
}

/// The first convolutions, and the blocks of the lowest resolution.
pub open spec fn entry_steps() -> Seq<OpData> {
    seq![blocks::conv("post_quant_conv"@, 1, 0), blocks::conv("decoder.conv_in"@, 1, 1)]
        + blocks::resnet_steps("decoder.mid_block.resnets.0"@, layers::EPSILON_6)
        + blocks::image_attention_steps("decoder.mid_block.attentions.0"@)
        + blocks::resnet_steps("decoder.mid_block.resnets.1"@, layers::EPSILON_6)
}

/// A residual block of a resolution.
pub open spec fn layer_steps(block: int, index: int) -> Seq<OpData> {
    blocks::resnet_steps(
        unet::part("decoder.up_blocks."@, block, ".resnets."@, index),
        layers::EPSILON_6,
    )
}

/// The way from one resolution to the next higher one.
pub open spec fn grow_steps(block: int) -> Seq<OpData> {
    if block < 3 {
        seq![
            OpData::Apply(LayerData::Upsample),
            blocks::conv(
                unet::sampler("decoder.up_blocks."@, block, ".upsamplers.0.conv"@),
                1,
                1,
            ),
        ]
    } else {
        Seq::empty()
    }
}

/// The blocks of one resolution.
pub open spec fn level_steps(block: int) -> Seq<OpData> {
    layer_steps(block, 0) + layer_steps(block, 1) + layer_steps(block, 2) + grow_steps(block)
}

/// The first `count` resolutions.
pub open spec fn levels_steps(count: int) -> Seq<OpData>
    decreases count,
{
    if count <= 0 {
        Seq::empty()
    } else {
        levels_steps(count - 1) + level_steps(count - 1)
    }
}

/// The normalization and the convolution at the end.
pub open spec fn exit_steps() -> Seq<OpData> {
    seq![
        blocks::group_norm("decoder.conv_norm_out"@, layers::EPSILON_6),
        OpData::Apply(LayerData::Silu),
        blocks::conv("decoder.conv_out"@, 1, 1),
    ]
}

/// The whole decoder.
pub open spec fn decoder_steps() -> Seq<OpData> {
    entry_steps() + levels_steps(4) + exit_steps()
}

/// Adds the first convolutions, and the blocks of the lowest resolution.
fn entry(program: &mut Vec<Op>)
    ensures
        graph::steps(final(program)@) == graph::steps(old(program)@) + entry_steps(),
{
    put(
        program,
        Op::Apply(Layer::Conv { prefix: "post_quant_conv".to_owned(), stride: 1, padding: 0 }),
    );
    put(
        program,
        Op::Apply(Layer::Conv { prefix: "decoder.conv_in".to_owned(), stride: 1, padding: 1 }),
    );
    resnet(program, "decoder.mid_block.resnets.0", layers::EPSILON_6);
    image_attention(program, "decoder.mid_block.attentions.0");
    resnet(program, "decoder.mid_block.resnets.1", layers::EPSILON_6);
    proof {
        let start = graph::steps(old(program)@);
        let a = seq![
            blocks::conv("post_quant_conv"@, 1, 0),
            blocks::conv("decoder.conv_in"@, 1, 1),
        ];
        let b = blocks::resnet_steps("decoder.mid_block.resnets.0"@, layers::EPSILON_6);
        let c = blocks::image_attention_steps("decoder.mid_block.attentions.0"@);
        let d = blocks::resnet_steps("decoder.mid_block.resnets.1"@, layers::EPSILON_6);
        assert(start.push(a[0]).push(a[1]) =~= start + a);
        graph::lemma_joined(start, a, b);
        graph::lemma_joined(start, a + b, c);
        graph::lemma_joined(start, a + b + c, d);
    }
}

/// Adds the blocks of one resolution.
fn level(program: &mut Vec<Op>, block: usize)
    ensures
        graph::steps(final(program)@) == graph::steps(old(program)@) + level_steps(block as int),
{
    resnet(
        program,
        part_name("decoder.up_blocks.", block, ".resnets.", 0).as_str(),
        layers::EPSILON_6,
    );
    resnet(
        program,
        part_name("decoder.up_blocks.", block, ".resnets.", 1).as_str(),
        layers::EPSILON_6,
    );
    resnet(
        program,
        part_name("decoder.up_blocks.", block, ".resnets.", 2).as_str(),
        layers::EPSILON_6,
    );
    let ghost before = graph::steps(program@);
    if block < 3 {
        let base = numbered("decoder.up_blocks.", block);
        let prefix = named(base.as_str(), ".upsamplers.0.conv");
        put(program, Op::Apply(Layer::Upsample));
        put(program, Op::Apply(Layer::Conv { prefix, stride: 1, padding: 1 }));
    }
    proof {
        let start = graph::steps(old(program)@);
        let a = layer_steps(block as int, 0);
        let b = layer_steps(block as int, 1);
        let c = layer_steps(block as int, 2);
        assert(graph::steps(program@) =~= before + grow_steps(block as int));
        graph::lemma_joined(start, a, b);
        graph::lemma_joined(start, a + b, c);
        graph::lemma_joined(start, a + b + c, grow_steps(block as int));
    }
}

/// Adds the normalization and the convolution at the end.
fn exit(program: &mut Vec<Op>)
    ensures
        graph::steps(final(program)@) == graph::steps(old(program)@) + exit_steps(),
{
    put(
        program,
        Op::Apply(
            Layer::GroupNorm {
                prefix: "decoder.conv_norm_out".to_owned(),
                epsilon: layers::EPSILON_6,
            },
        ),
    );
    put(program, Op::Apply(Layer::Silu));
    put(
        program,
        Op::Apply(Layer::Conv { prefix: "decoder.conv_out".to_owned(), stride: 1, padding: 1 }),
    );
    proof {
        assert(graph::steps(program@) =~= graph::steps(old(program)@) + exit_steps());
    }
}

/// The whole decoder as a program.
pub fn decoder_program() -> (program: Vec<Op>)
    ensures
        graph::steps(program@) == decoder_steps(),
{
    let mut program: Vec<Op> = Vec::new();
    let ghost none = graph::steps(program@);
    entry(&mut program);
    proof {
        assert(none + entry_steps() =~= entry_steps());
        assert(entry_steps() + levels_steps(0) =~= entry_steps());
    }
    let mut block: usize = 0;
    while block < 4
        invariant
            block <= 4,
            graph::steps(program@) == entry_steps() + levels_steps(block as int),
        decreases 4 - block,
    {
        level(&mut program, block);
        proof {
            graph::lemma_joined(
                entry_steps(),
                levels_steps(block as int),
                level_steps(block as int),
            );
        }
        block = block + 1;
    }
    exit(&mut program);
    program
}

/// The blocks of the first `count` resolutions change no number of tensors.
proof fn lemma_levels(count: int, numbers: Level)
    requires
        numbers.stack >= 1,
    ensures
        graph::leads(false, levels_steps(count), numbers, numbers),
    decreases count,
{
    if count > 0 {
        let block = count - 1;
        let a = layer_steps(block, 0);
        let b = layer_steps(block, 1);
        let c = layer_steps(block, 2);
        let d = grow_steps(block);
        lemma_levels(block, numbers);
        blocks::lemma_resnet(
            false,
            unet::part("decoder.up_blocks."@, block, ".resnets."@, 0),
            layers::EPSILON_6,
            numbers,
        );
        blocks::lemma_resnet(
            false,
            unet::part("decoder.up_blocks."@, block, ".resnets."@, 1),
            layers::EPSILON_6,
            numbers,
        );
        blocks::lemma_resnet(
            false,
            unet::part("decoder.up_blocks."@, block, ".resnets."@, 2),
            layers::EPSILON_6,
            numbers,
        );
        assert(graph::leads(false, d, numbers, numbers)) by {
            reveal_with_fuel(graph::levels, 3);
        }
        graph::lemma_leads(false, a, b, numbers, numbers, numbers);
        graph::lemma_leads(false, a + b, c, numbers, numbers, numbers);
        graph::lemma_leads(false, a + b + c, d, numbers, numbers, numbers);
        graph::lemma_leads(
            false,
            levels_steps(block),
            level_steps(block),
            numbers,
            numbers,
            numbers,
        );
    }
}

/// The decoder turns one tensor into one, without text or time, and never lacks one.
pub proof fn decoder_is_balanced()
    ensures
        graph::balanced(false, decoder_steps()),
{
    let one = Level { stack: 1, skips: 0 };
    let a = seq![blocks::conv("post_quant_conv"@, 1, 0), blocks::conv("decoder.conv_in"@, 1, 1)];
    let b = blocks::resnet_steps("decoder.mid_block.resnets.0"@, layers::EPSILON_6);
    let c = blocks::image_attention_steps("decoder.mid_block.attentions.0"@);
    let d = blocks::resnet_steps("decoder.mid_block.resnets.1"@, layers::EPSILON_6);
    assert(graph::leads(false, a, one, one)) by {
        reveal_with_fuel(graph::levels, 3);
    }
    blocks::lemma_resnet(false, "decoder.mid_block.resnets.0"@, layers::EPSILON_6, one);
    blocks::lemma_image_attention(false, "decoder.mid_block.attentions.0"@, one);
    blocks::lemma_resnet(false, "decoder.mid_block.resnets.1"@, layers::EPSILON_6, one);
    graph::lemma_leads(false, a, b, one, one, one);
    graph::lemma_leads(false, a + b, c, one, one, one);
    graph::lemma_leads(false, a + b + c, d, one, one, one);
    lemma_levels(4, one);
    assert(graph::leads(false, exit_steps(), one, one)) by {
        reveal_with_fuel(graph::levels, 4);
    }
    graph::lemma_leads(false, entry_steps(), levels_steps(4), one, one, one);
    graph::lemma_leads(
        false,
        entry_steps() + levels_steps(4),
        exit_steps(),
        one,
        one,
        one,
    );
}

/// The decoder turns latents into an image.
pub open spec fn decodes<
    T: Copy,
    Z: Copy,
    M: Fn(T, T, T) -> T + Copy,
    P: Fn(T, T) -> T + Copy,
    G: Fn(T, T) -> T + Copy,
    L: Fn(T) -> T + Copy,
    E: Fn(T) -> T + Copy,
    Q: Fn(T) -> T + Copy,
    A: Fn(&[T], u32) -> Z + Copy,
    B: Fn(T, Z, T, T) -> T + Copy,
    C: Fn(T, usize) -> T + Copy,
    H: Fn(Vec<T>) -> Vec<T> + Copy,
    N: Fn(Scalar) -> T + Copy,
>(
    kernels: Kernels<T, M, P, G, L, E, Q, A, B, C, H, N>,
    weights: Weights,
    latents: Array<T>,
    out: Array<T>,
) -> bool {
    kernels.computes(weights, sd_unet::nothing_given(), decoder_steps(), latents, out)
}

/// The decoder fails on latents: a layer refuses its tensor or its weights.
pub open spec fn decoding_breaks<
    T: Copy,
    Z: Copy,
    M: Fn(T, T, T) -> T + Copy,
    P: Fn(T, T) -> T + Copy,
    G: Fn(T, T) -> T + Copy,
    L: Fn(T) -> T + Copy,
    E: Fn(T) -> T + Copy,
    Q: Fn(T) -> T + Copy,
    A: Fn(&[T], u32) -> Z + Copy,
    B: Fn(T, Z, T, T) -> T + Copy,
    C: Fn(T, usize) -> T + Copy,
    H: Fn(Vec<T>) -> Vec<T> + Copy,
    N: Fn(Scalar) -> T + Copy,
>(
    kernels: Kernels<T, M, P, G, L, E, Q, A, B, C, H, N>,
    weights: Weights,
    latents: Array<T>,
    fault: GraphFault,
) -> bool {
    &&& fault is Layer
    &&& kernels.breaks(weights, sd_unet::nothing_given(), decoder_steps(), latents, fault)
}

/// Decodes latents in one piece.
pub fn decode_unscaled_full<
    T: Copy,
    Z: Copy,
    M: Fn(T, T, T) -> T + Copy,
    P: Fn(T, T) -> T + Copy,
    G: Fn(T, T) -> T + Copy,
    L: Fn(T) -> T + Copy,
    E: Fn(T) -> T + Copy,
    Q: Fn(T) -> T + Copy,
    A: Fn(&[T], u32) -> Z + Copy,
    B: Fn(T, Z, T, T) -> T + Copy,
    C: Fn(T, usize) -> T + Copy,
    H: Fn(Vec<T>) -> Vec<T> + Copy,
    N: Fn(Scalar) -> T + Copy,
>(
    kernels: &Kernels<T, M, P, G, L, E, Q, A, B, C, H, N>,
    weights: &SafeTensorFile,
    latents: Tensor<T>,
) -> (result: Result<Tensor<T>, GraphError>)
    requires
        kernels.usable(),
        weights.wf(),
        latents.wf(),
    ensures
        match result {
            Ok(out) => out.wf() && decodes(
                *kernels,
                weights.weights(),
                latents.array(),
                out.array(),
            ),
            Err(error) => decoding_breaks(
                *kernels,
                weights.weights(),
                latents.array(),
                error@,
            ),
        },
{
    let ghost array = latents.array();
    let program = decoder_program();
    match kernels.run(weights, None, None, &program, latents) {
        Ok(out) => Ok(out),
        Err(error) => {
            proof {
                decoder_is_balanced();
                kernels.balanced_programs_do_not_run_dry(
                    weights.weights(),
                    sd_unet::nothing_given(),
                    decoder_steps(),
                    array,
                    error@,
                );
            }
            Err(error)
        },
    }
}

/// The latents under tile `t`.
pub open spec fn tile_of<T>(latents: Array<T>, t: int) -> Array<T> {
    let across = tiles::windows(latents.dims[3] as int);
    let v = tiles::windows(latents.dims[2] as int)[t / across.len() as int];
    let h = across[t % across.len() as int];
    reshape::window(latents, v.2 as int, v.3 as int, h.2 as int, h.3 as int)
}

/// The number of tiles.
pub open spec fn tile_count<T>(latents: Array<T>) -> int {
    tiles::window_count(latents.dims[2] as int) * tiles::window_count(latents.dims[3] as int)
}

/// The decoded tiles of latents.
pub open spec fn mosaic<T>(latents: Array<T>, decoded: Seq<Array<T>>) -> tiles::Mosaic<T> {
    tiles::Mosaic {
        vertical: tiles::windows(latents.dims[2] as int),
        horizontal: tiles::windows(latents.dims[3] as int),
        tiles: decoded,
    }
}

/// `decoded` are the images of all tiles.
pub open spec fn tiles_decoded<
    T: Copy,
    Z: Copy,
    M: Fn(T, T, T) -> T + Copy,
    P: Fn(T, T) -> T + Copy,
    G: Fn(T, T) -> T + Copy,
    L: Fn(T) -> T + Copy,
    E: Fn(T) -> T + Copy,
    Q: Fn(T) -> T + Copy,
    A: Fn(&[T], u32) -> Z + Copy,
    B: Fn(T, Z, T, T) -> T + Copy,
    C: Fn(T, usize) -> T + Copy,
    H: Fn(Vec<T>) -> Vec<T> + Copy,
    N: Fn(Scalar) -> T + Copy,
>(
    kernels: Kernels<T, M, P, G, L, E, Q, A, B, C, H, N>,
    weights: Weights,
    latents: Array<T>,
    decoded: Seq<Array<T>>,
) -> bool {
    &&& decoded.len() == tile_count(latents)
    &&& forall|t: int|
        0 <= t < decoded.len() ==> decodes(
            kernels,
            weights,
            tile_of(latents, t),
            #[trigger] decoded[t],
        ) && decoded[t].dims == mosaic(latents, decoded).tile_dims(t)
}

/// `out` is the image blended from the images of all tiles.
pub open spec fn decodes_in_tiles<
    T: Copy,
    Z: Copy,
    M: Fn(T, T, T) -> T + Copy,
    P: Fn(T, T) -> T + Copy,
    G: Fn(T, T) -> T + Copy,
    L: Fn(T) -> T + Copy,
    E: Fn(T) -> T + Copy,
    Q: Fn(T) -> T + Copy,
    A: Fn(&[T], u32) -> Z + Copy,
    B: Fn(T, Z, T, T) -> T + Copy,
    C: Fn(T, usize) -> T + Copy,
    H: Fn(Vec<T>) -> Vec<T> + Copy,
    N: Fn(Scalar) -> T + Copy,
    F: Fn(usize, usize) -> T + Copy,
    W: Fn(T, T) -> T + Copy,
    O: Fn(T) -> bool + Copy,
    D: Fn(T, T) -> T + Copy,
>(
    kernels: Kernels<T, M, P, G, L, E, Q, A, B, C, H, N>,
    blend: Blend<F, W, O, D>,
    weights: Weights,
    latents: Array<T>,
    out: Array<T>,
) -> bool {
    &&& out.dims == tiles::image_dims(latents.dims[2] as int, latents.dims[3] as int)
    &&& exists|decoded: Seq<Array<T>>|
        {
            &&& #[trigger] tiles_decoded(kernels, weights, latents, decoded)
            &&& forall|c: int, y: int, x: int|
                #![trigger crate::layout::offset4(out.dims, 0, c, y, x)]
                crate::layout::inside4(out.dims, 0, c, y, x) ==> blend.blends(
                    mosaic(latents, decoded),
                    kernels.zero,
                    kernels.mac,
                    kernels.plus,
                    c,
                    y,
                    x,
                    out.data[crate::layout::offset4(out.dims, 0, c, y, x)],
                )
        }
}

/// Decoding in tiles fails: the decoder fails on a tile, the image of a tile has another shape
/// than its windows ask for, or a pixel's weights cannot be divided by.
pub open spec fn tiling_breaks<
    T: Copy,
    Z: Copy,
    M: Fn(T, T, T) -> T + Copy,
    P: Fn(T, T) -> T + Copy,
    G: Fn(T, T) -> T + Copy,
    L: Fn(T) -> T + Copy,
    E: Fn(T) -> T + Copy,
    Q: Fn(T) -> T + Copy,
    A: Fn(&[T], u32) -> Z + Copy,
    B: Fn(T, Z, T, T) -> T + Copy,
    C: Fn(T, usize) -> T + Copy,
    H: Fn(Vec<T>) -> Vec<T> + Copy,
    N: Fn(Scalar) -> T + Copy,
    F: Fn(usize, usize) -> T + Copy,
    W: Fn(T, T) -> T + Copy,
    O: Fn(T) -> bool + Copy,
    D: Fn(T, T) -> T + Copy,
>(
    kernels: Kernels<T, M, P, G, L, E, Q, A, B, C, H, N>,
    blend: Blend<F, W, O, D>,
    weights: Weights,
    latents: Array<T>,
    fault: VaeFault,
) -> bool {
    ||| fault matches VaeFault::Graph(own) && exists|t: int|
        0 <= t < tile_count(latents) && decoding_breaks(
            kernels,
            weights,
            #[trigger] tile_of(latents, t),
            own,
        )
    ||| fault matches VaeFault::TileShape { shape, height, width } && exists|
        t: int,
        decoded: Array<T>,
    |
        {
            &&& 0 <= t < tile_count(latents)
            &&& #[trigger] decodes(kernels, weights, tile_of(latents, t), decoded)
            &&& decoded.dims == shape
            &&& seq![1usize, 3usize, height, width] == mosaic(latents, seq![]).tile_dims(t)
            &&& shape != seq![1usize, 3usize, height, width]
        }
    ||| fault matches VaeFault::Uncovered { pixel } && exists|decoded: Seq<Array<T>>|
        {
            &&& #[trigger] tiles_decoded(kernels, weights, latents, decoded)
            &&& blend.misses(
                mosaic(latents, decoded),
                kernels.zero,
                kernels.plus,
                pixel as int / (latents.dims[3] * 8),
                pixel as int % (latents.dims[3] * 8),
            )
        }
}

/// Decodes all tiles.
#[verifier::spinoff_prover]
#[verifier::rlimit(80)]
fn decode_tiles<
    T: Copy,
    Z: Copy,
    M: Fn(T, T, T) -> T + Copy,
    P: Fn(T, T) -> T + Copy,
    G: Fn(T, T) -> T + Copy,
    L: Fn(T) -> T + Copy,
    E: Fn(T) -> T + Copy,
    Q: Fn(T) -> T + Copy,
    A: Fn(&[T], u32) -> Z + Copy,
    B: Fn(T, Z, T, T) -> T + Copy,
    C: Fn(T, usize) -> T + Copy,
    H: Fn(Vec<T>) -> Vec<T> + Copy,
    N: Fn(Scalar) -> T + Copy,
    F: Fn(usize, usize) -> T + Copy,
    W: Fn(T, T) -> T + Copy,
    O: Fn(T) -> bool + Copy,
    D: Fn(T, T) -> T + Copy,
>(
    kernels: &Kernels<T, M, P, G, L, E, Q, A, B, C, H, N>,
    blend: &Blend<F, W, O, D>,
    weights: &SafeTensorFile,
    latents: &Tensor<T>,
) -> (result: Result<Vec<Tensor<T>>, VaeError>)
    requires
        kernels.usable(),
        weights.wf(),
        latents.wf(),
        latents_fit(latents.dims()),
        192 * (latents.dims()[2] * latents.dims()[3]) <= usize::MAX,
    ensures
        match result {
            Ok(decoded) => {
                &&& tiles_decoded(
                    *kernels,
                    weights.weights(),
                    latents.array(),
                    tiles::tile_arrays(decoded@),
                )
                &&& forall|t: int| 0 <= t < decoded@.len() ==> (#[trigger] decoded@[t]).wf()
            },
            Err(error) => tiling_breaks(
                *kernels,
                *blend,
                weights.weights(),
                latents.array(),
                error@,
            ),
        },
{
    let shape = latents.shape();
    let height: usize = shape[2];
    let width: usize = shape[3];
    let vertical = tile_windows(height);
    let horizontal = tile_windows(width);
    let ghost array = latents.array();
    proof {
        crate::layout::lemma_product_positive(latents.dims());
        lemma_sizes(height, width);
    }
    let count: usize = vertical.len() * horizontal.len();
    let mut decoded: Vec<Tensor<T>> = Vec::new();
    let mut t: usize = 0;
    while t < count
        invariant
            t == decoded@.len() <= count,
            kernels.usable(),
            weights.wf(),
            latents.wf(),
            latents_fit(latents.dims()),
            array == latents.array(),
            height == array.dims[2],
            width == array.dims[3],
            0 < height,
            0 < width,
            height * 8 <= usize::MAX,
            width * 8 <= usize::MAX,
            vertical@ == tiles::windows(height as int),
            horizontal@ == tiles::windows(width as int),
            count == vertical@.len() * horizontal@.len(),
            horizontal@.len() > 0,
            forall|j: int|
                0 <= j < t ==> (#[trigger] decoded@[j]).wf() && decodes(
                    *kernels,
                    weights.weights(),
                    tile_of(array, j),
                    decoded@[j].array(),
                ) && decoded@[j].dims() == mosaic(array, seq![]).tile_dims(j),
        decreases count - t,
    {
        proof {
            vstd::arithmetic::div_mod::lemma_fundamental_div_mod(
                t as int,
                horizontal@.len() as int,
            );
            crate::layout::lemma_divide(
                t as int,
                vertical@.len() as int,
                horizontal@.len() as int,
            );
            tiles::cores_fill_the_axis(height, t as int / horizontal@.len() as int);
            tiles::cores_fill_the_axis(width, t as int % horizontal@.len() as int);
        }
        let down: Window = vertical[t / horizontal.len()];
        let across: Window = horizontal[t % horizontal.len()];
        let tile = extract_tile(latents, down.2, down.3, across.2, across.3);
        assert(tile.array() == tile_of(array, t as int));
        let image = match decode_unscaled_full(kernels, weights, tile) {
            Ok(image) => image,
            Err(error) => {
                proof {
                    assert(decoding_breaks(
                        *kernels,
                        weights.weights(),
                        tile_of(array, t as int),
                        error@,
                    ));
                }
                return Err(VaeError::Graph(error));
            },
        };
        let tile_height: usize = (down.3 - down.2) * 8;
        let tile_width: usize = (across.3 - across.2) * 8;
        let expected: [usize; 4] = [1, 3, tile_height, tile_width];
        assert(expected@ =~= seq![1usize, 3usize, tile_height, tile_width]);
        assert(expected@ =~= mosaic(array, seq![]).tile_dims(t as int));
        if !same_dims(image.shape(), &expected) {
            proof {
                assert(decodes(
                    *kernels,
                    weights.weights(),
                    tile_of(array, t as int),
                    image.array(),
                ));
            }
            return Err(
                VaeError::TileShape {
                    shape: vstd::slice::slice_to_vec(image.shape()),
                    height: tile_height,
                    width: tile_width,
                },
            );
        }
        decoded.push(image);
        t = t + 1;
    }
    proof {
        let arrays = tiles::tile_arrays(decoded@);
        assert forall|j: int| 0 <= j < arrays.len() implies decodes(
            *kernels,
            weights.weights(),
            tile_of(array, j),
            #[trigger] arrays[j],
        ) && arrays[j].dims == mosaic(array, arrays).tile_dims(j) by {
            assert(decoded@[j].wf());
            assert(mosaic(array, arrays).tile_dims(j) =~= mosaic(array, seq![]).tile_dims(j));
        }
    }
    Ok(decoded)
}

/// The sizes of images made of latents.
proof fn lemma_sizes(height: usize, width: usize)
    requires
        0 < height,
        0 < width,
        192 * (height * width) <= usize::MAX,
    ensures
        height * 8 <= usize::MAX,
        width * 8 <= usize::MAX,
        0 < tiles::window_count(height as int) <= height,
        0 < tiles::window_count(width as int) <= width,
        tiles::window_count(height as int) * tiles::window_count(width as int) <= usize::MAX,
{
    let v = tiles::window_count(height as int);
    let h = tiles::window_count(width as int);
    assert(height * 8 <= 192 * (height * width) && width * 8 <= 192 * (height * width))
        by (nonlinear_arith)
        requires
            0 < height,
            0 < width,
    ;
    assert(v * h <= height * width) by (nonlinear_arith)
        requires
            0 <= v <= height,
            0 <= h <= width,
    ;
}

/// Decodes latents in tiles.
pub fn decode_unscaled_tiled<
    T: Copy,
    Z: Copy,
    M: Fn(T, T, T) -> T + Copy,
    P: Fn(T, T) -> T + Copy,
    G: Fn(T, T) -> T + Copy,
    L: Fn(T) -> T + Copy,
    E: Fn(T) -> T + Copy,
    Q: Fn(T) -> T + Copy,
    A: Fn(&[T], u32) -> Z + Copy,
    B: Fn(T, Z, T, T) -> T + Copy,
    C: Fn(T, usize) -> T + Copy,
    H: Fn(Vec<T>) -> Vec<T> + Copy,
    N: Fn(Scalar) -> T + Copy,
    F: Fn(usize, usize) -> T + Copy,
    W: Fn(T, T) -> T + Copy,
    O: Fn(T) -> bool + Copy,
    D: Fn(T, T) -> T + Copy,
>(
    kernels: &Kernels<T, M, P, G, L, E, Q, A, B, C, H, N>,
    blend: &Blend<F, W, O, D>,
    weights: &SafeTensorFile,
    latents: &Tensor<T>,
) -> (result: Result<Tensor<T>, VaeError>)
    requires
        kernels.usable(),
        blend.usable(),
        weights.wf(),
        latents.wf(),
        latents_fit(latents.dims()),
        192 * (latents.dims()[2] * latents.dims()[3]) <= usize::MAX,
    ensures
        match result {
            Ok(out) => out.wf() && decodes_in_tiles(
                *kernels,
                *blend,
                weights.weights(),
                latents.array(),
                out.array(),
            ),
            Err(error) => tiling_breaks(
                *kernels,
                *blend,
                weights.weights(),
                latents.array(),
                error@,
            ),
        },
{
    let decoded = match decode_tiles(kernels, blend, weights, latents) {
        Ok(decoded) => decoded,
        Err(error) => {
            return Err(error);
        },
    };
    let shape = latents.shape();
    let height: usize = shape[2];
    let width: usize = shape[3];
    proof {
        crate::layout::lemma_product_positive(latents.dims());
        lemma_sizes(height, width);
        let all = tiles::mosaic_of(
            tiles::windows(height as int),
            tiles::windows(width as int),
            decoded@,
        );
        assert(all == mosaic(latents.array(), tiles::tile_arrays(decoded@)));
        assert forall|t: int| 0 <= t < all.tiles.len() implies (#[trigger] all.tiles[t]).wf()
            && all.tiles[t].dims == all.tile_dims(t) by {
            assert(decoded@[t].wf());
        }
    }
    match blend_tiles(blend, kernels.zero, kernels.mac, kernels.plus, height, width, &decoded) {
        Ok(out) => Ok(out),
        Err(pixel) => Err(VaeError::Uncovered { pixel }),
    }
}

/// Latents are small enough to be decoded in one piece.
pub open spec fn small(dims: Seq<usize>) -> bool {
    dims[2] <= 40 && dims[3] <= 40
}

/// What decoding latents comes to.
pub open spec fn decodes_unscaled<
    T: Copy,
    Z: Copy,
    M: Fn(T, T, T) -> T + Copy,
    P: Fn(T, T) -> T + Copy,
    G: Fn(T, T) -> T + Copy,
    L: Fn(T) -> T + Copy,
    E: Fn(T) -> T + Copy,
    Q: Fn(T) -> T + Copy,
    A: Fn(&[T], u32) -> Z + Copy,
    B: Fn(T, Z, T, T) -> T + Copy,
    C: Fn(T, usize) -> T + Copy,
    H: Fn(Vec<T>) -> Vec<T> + Copy,
    N: Fn(Scalar) -> T + Copy,
    F: Fn(usize, usize) -> T + Copy,
    W: Fn(T, T) -> T + Copy,
    O: Fn(T) -> bool + Copy,
    D: Fn(T, T) -> T + Copy,
>(
    kernels: Kernels<T, M, P, G, L, E, Q, A, B, C, H, N>,
    blend: Blend<F, W, O, D>,
    weights: Weights,
    latents: Array<T>,
    result: Result<Tensor<T>, VaeError>,
) -> bool {
    if !latents_fit(latents.dims) {
        result is Err && result->Err_0@ == (VaeFault::Latents { shape: latents.dims })
    } else if small(latents.dims) {
        match result {
            Ok(out) => out.wf() && decodes(
                kernels,
                weights,
                latents,
                out.array(),
            ),
            Err(error) => error@ matches VaeFault::Graph(fault) && decoding_breaks(
                kernels,
                weights,
                latents,
                fault,
            ),
        }
    } else {
        match result {
            Ok(out) => out.wf() && decodes_in_tiles(
                kernels,
                blend,
                weights,
                latents,
                out.array(),
            ),
            Err(error) => tiling_breaks(
                kernels,
                blend,
                weights,
                latents,
                error@,
            ),
        }
    }
}

/// Decodes latents: in one piece where they are small, else in tiles.
pub fn decode_unscaled<
    T: Copy,
    Z: Copy,
    M: Fn(T, T, T) -> T + Copy,
    P: Fn(T, T) -> T + Copy,
    G: Fn(T, T) -> T + Copy,
    L: Fn(T) -> T + Copy,
    E: Fn(T) -> T + Copy,
    Q: Fn(T) -> T + Copy,
    A: Fn(&[T], u32) -> Z + Copy,
    B: Fn(T, Z, T, T) -> T + Copy,
    C: Fn(T, usize) -> T + Copy,
    H: Fn(Vec<T>) -> Vec<T> + Copy,
    N: Fn(Scalar) -> T + Copy,
    F: Fn(usize, usize) -> T + Copy,
    W: Fn(T, T) -> T + Copy,
    O: Fn(T) -> bool + Copy,
    D: Fn(T, T) -> T + Copy,
>(
    kernels: &Kernels<T, M, P, G, L, E, Q, A, B, C, H, N>,
    blend: &Blend<F, W, O, D>,
    weights: &SafeTensorFile,
    latents: &Tensor<T>,
) -> (result: Result<Tensor<T>, VaeError>)
    requires
        kernels.usable(),
        blend.usable(),
        weights.wf(),
        latents.wf(),
        latents_fit(latents.dims()) ==> 192 * (latents.dims()[2] * latents.dims()[3])
            <= usize::MAX,
    ensures
        decodes_unscaled(*kernels, *blend, weights.weights(), latents.array(), result),
{
    match require_latents(latents) {
        Ok(_) => {},
        Err(error) => {
            return Err(error);
        },
    }
    let shape = latents.shape();
    if shape[2] > TILE_CORE + TILE_CONTEXT * 2 || shape[3] > TILE_CORE + TILE_CONTEXT * 2 {
        return decode_unscaled_tiled(kernels, blend, weights, latents);
    }
    match decode_unscaled_full(kernels, weights, latents.duplicate()) {
        Ok(out) => Ok(out),
        Err(error) => Err(VaeError::Graph(error)),
    }
}

/// `out` is latents with every element divided by a scale.
pub open spec fn unscaled<T, X: Fn(T, u32) -> T>(
    divide: X,
    scale: u32,
    latents: Array<T>,
    out: Array<T>,
) -> bool {
    &&& out.wf()
    &&& out.dims == latents.dims
    &&& out.data.len() == latents.data.len()
    &&& forall|i: int|
        0 <= i < latents.data.len() ==> call_ensures(
            divide,
            (latents.data[i], scale),
            #[trigger] out.data[i],
        )
}

/// Divides every element of latents by a scale.
pub fn unscale<T: Copy, X: Fn(T, u32) -> T>(latents: &Tensor<T>, scale: u32, divide: &X) -> (out:
    Tensor<T>)
    requires
        latents.wf(),
        fold::total2(*divide),
    ensures
        out.wf(),
        unscaled(*divide, scale, latents.array(), out.array()),
{
    let data = latents.data();
    let mut out: Vec<T> = Vec::with_capacity(data.len());
    let mut i: usize = 0;
    assert(data@.len() == data.len());
    while i < data.len()
        invariant
            i == out@.len() <= data@.len(),
            data@ == latents@,
            data@.len() == data.len(),
            fold::total2(*divide),
            forall|j: int|
                0 <= j < i ==> call_ensures(*divide, (data@[j], scale), #[trigger] out@[j]),
        decreases data@.len() - i,
    {
        out.push(divide(data[i], scale));
        i = i + 1;
    }
    Tensor::from_parts(vstd::slice::slice_to_vec(latents.shape()), out)
}

/// What dividing latents by a scale and decoding them comes to.
pub open spec fn decodes_scaled<
    T: Copy,
    Z: Copy,
    M: Fn(T, T, T) -> T + Copy,
    P: Fn(T, T) -> T + Copy,
    G: Fn(T, T) -> T + Copy,
    L: Fn(T) -> T + Copy,
    E: Fn(T) -> T + Copy,
    Q: Fn(T) -> T + Copy,
    A: Fn(&[T], u32) -> Z + Copy,
    B: Fn(T, Z, T, T) -> T + Copy,
    C: Fn(T, usize) -> T + Copy,
    H: Fn(Vec<T>) -> Vec<T> + Copy,
    N: Fn(Scalar) -> T + Copy,
    F: Fn(usize, usize) -> T + Copy,
    W: Fn(T, T) -> T + Copy,
    O: Fn(T) -> bool + Copy,
    D: Fn(T, T) -> T + Copy,
    X: Fn(T, u32) -> T + Copy,
>(
    kernels: Kernels<T, M, P, G, L, E, Q, A, B, C, H, N>,
    blend: Blend<F, W, O, D>,
    weights: Weights,
    latents: Array<T>,
    scale: u32,
    divide: X,
    result: Result<Tensor<T>, VaeError>,
) -> bool {
    exists|scaled: Array<T>|
        {
            &&& #[trigger] unscaled(divide, scale, latents, scaled)
            &&& decodes_unscaled(kernels, blend, weights, scaled, result)
        }
}

/// Decodes latents that still have to be divided by their scale.
pub fn decode<
    T: Copy,
    Z: Copy,
    M: Fn(T, T, T) -> T + Copy,
    P: Fn(T, T) -> T + Copy,
    G: Fn(T, T) -> T + Copy,
    L: Fn(T) -> T + Copy,
    E: Fn(T) -> T + Copy,
    Q: Fn(T) -> T + Copy,
    A: Fn(&[T], u32) -> Z + Copy,
    B: Fn(T, Z, T, T) -> T + Copy,
    C: Fn(T, usize) -> T + Copy,
    H: Fn(Vec<T>) -> Vec<T> + Copy,
    N: Fn(Scalar) -> T + Copy,
    F: Fn(usize, usize) -> T + Copy,
    W: Fn(T, T) -> T + Copy,
    O: Fn(T) -> bool + Copy,
    D: Fn(T, T) -> T + Copy,
    X: Fn(T, u32) -> T + Copy,
>(
    kernels: &Kernels<T, M, P, G, L, E, Q, A, B, C, H, N>,
    blend: &Blend<F, W, O, D>,
    weights: &SafeTensorFile,
    latents: &Tensor<T>,
    divide: X,
) -> (result: Result<Tensor<T>, VaeError>)
    requires
        kernels.usable(),
        blend.usable(),
        weights.wf(),
        latents.wf(),
        fold::total2(divide),
        latents_fit(latents.dims()) ==> 192 * (latents.dims()[2] * latents.dims()[3])
            <= usize::MAX,
    ensures
        decodes_scaled(
            *kernels,
            *blend,
            weights.weights(),
            latents.array(),
            LATENT_SCALE,
            divide,
            result,
        ),
{
    let scaled = unscale(latents, LATENT_SCALE, &divide);
    assert(unscaled(divide, LATENT_SCALE, latents.array(), scaled.array()));
    decode_unscaled(kernels, blend, weights, &scaled)
}

} // verus!
