//! Why the tensor operations of a backend fail.

use vstd::prelude::*;
use crate::tensor_error::{TensorError, TensorFault};
use crate::text;
use crate::text::{push_bracketed, push_usize};

verus! {

broadcast use vstd::string::group_string_axioms;

/// Who owns a tensor.
#[derive(Clone, Copy, Debug, PartialEq, Eq, Structural)]
pub enum BackendKind {
    ScalarCpu,
    Vulkan,
}

/// What a backend can own.
#[derive(Clone, Copy, Debug, PartialEq, Eq, Structural)]
pub enum Owned {
    Tensor,
    Weights,
    Conv3dWeights,
    Vector,
}

/// The name of a backend.
pub open spec fn kind_text(kind: BackendKind) -> Seq<char> {
    match kind {
        BackendKind::ScalarCpu => "ScalarCpu"@,
        BackendKind::Vulkan => "Vulkan"@,
    }
}

/// The name of a backend.
fn kind_name(kind: BackendKind) -> (name: &'static str)
    ensures
        name@ == kind_text(kind),
{
    match kind {
        BackendKind::ScalarCpu => "ScalarCpu",
        BackendKind::Vulkan => "Vulkan",
    }
}

/// What messages call a thing that a backend owns.
pub open spec fn owned_text(owned: Owned) -> Seq<char> {
    match owned {
        Owned::Tensor => "tensor"@,
        Owned::Weights => "weights"@,
        Owned::Conv3dWeights => "Conv3D weights"@,
        Owned::Vector => "vector"@,
    }
}

/// What messages call a thing that a backend owns.
fn owned_name(owned: Owned) -> (name: &'static str)
    ensures
        name@ == owned_text(owned),
{
    match owned {
        Owned::Tensor => "tensor",
        Owned::Weights => "weights",
        Owned::Conv3dWeights => "Conv3D weights",
        Owned::Vector => "vector",
    }
}

/// Why an operation fails.
#[derive(Clone, Debug, PartialEq, Eq)]
#[allow(inconsistent_fields)]
pub enum BackendError {
    Owner { owned: Owned, owner: BackendKind },
    SliceRank,
    SliceNothing,
    SliceOverflow,
    SliceRange { start: usize, end: usize, time: usize },
    ConcatNothing,
    ConcatRank,
    ConcatDims { first: Vec<usize>, other: Vec<usize> },
    ConcatOverflow,
    PrependRank,
    PrependOverflow,
    ShuffleRank,
    ShuffleChannels,
    ShuffleOverflow,
    LinearRank,
    LinearBias { shape: Vec<usize>, width: usize },
    LinearInput { shape: Vec<usize>, width: usize },
    Conv3dRank,
    Conv3dBias { shape: Vec<usize>, channels: usize },
    Conv3dInputRank,
    Conv3dChannels,
    Conv3dOverflow,
    Conv3dKernel,
    AddShapes { left: Vec<usize>, right: Vec<usize> },
    MultiplyShapes { left: Vec<usize>, right: Vec<usize> },
    ScaleFinite,
    ClampBounds,
    VectorRank,
    VectorLength { len: usize, shape: Vec<usize> },
    NormEpsilon,
    NormAffine,
    NormLengths { weight: usize, bias: usize, width: usize },
    RmsEpsilon,
    RmsLength { len: usize, width: usize },
    ChannelRank,
    ChannelLength { len: usize, channels: usize },
    ChannelEpsilon,
    RopeHeads,
    RopeWidth,
    RopeInput { shape: Vec<usize>, width: usize },
    RopeOverflow,
    RopePositions { len: usize, expected: usize },
    ScoresValid,
    ScoresOverflow,
    ScoresQueryRank,
    ScoresKeyRank,
    ScoresShapes,
    ValuesProbabilityRank,
    ValuesRank,
    ValuesOverflow,
    ValuesShapes,
    ModulationOverflow,
    ModulationLength { len: usize, required: usize },
    HeadModulation,
    PatchRank,
    PatchDims,
    UnpatchRank,
    UnpatchDims,
    UnpatchShape,
    ChunkOverflow,
    ChunkMissing,
    Tensor(TensorError),
}

/// What a [`BackendError`] says, with shapes as sequences.
#[allow(inconsistent_fields)]
pub enum BackendFault {
    Owner { owned: Owned, owner: BackendKind },
    SliceRank,
    SliceNothing,
    SliceOverflow,
    SliceRange { start: usize, end: usize, time: usize },
    ConcatNothing,
    ConcatRank,
    ConcatDims { first: Seq<usize>, other: Seq<usize> },
    ConcatOverflow,
    PrependRank,
    PrependOverflow,
    ShuffleRank,
    ShuffleChannels,
    ShuffleOverflow,
    LinearRank,
    LinearBias { shape: Seq<usize>, width: usize },
    LinearInput { shape: Seq<usize>, width: usize },
    Conv3dRank,
    Conv3dBias { shape: Seq<usize>, channels: usize },
    Conv3dInputRank,
    Conv3dChannels,
    Conv3dOverflow,
    Conv3dKernel,
    AddShapes { left: Seq<usize>, right: Seq<usize> },
    MultiplyShapes { left: Seq<usize>, right: Seq<usize> },
    ScaleFinite,
    ClampBounds,
    VectorRank,
    VectorLength { len: usize, shape: Seq<usize> },
    NormEpsilon,
    NormAffine,
    NormLengths { weight: usize, bias: usize, width: usize },
    RmsEpsilon,
    RmsLength { len: usize, width: usize },
    ChannelRank,
    ChannelLength { len: usize, channels: usize },
    ChannelEpsilon,
    RopeHeads,
    RopeWidth,
    RopeInput { shape: Seq<usize>, width: usize },
    RopeOverflow,
    RopePositions { len: usize, expected: usize },
    ScoresValid,
    ScoresOverflow,
    ScoresQueryRank,
    ScoresKeyRank,
    ScoresShapes,
    ValuesProbabilityRank,
    ValuesRank,
    ValuesOverflow,
    ValuesShapes,
    ModulationOverflow,
    ModulationLength { len: usize, required: usize },
    HeadModulation,
    PatchRank,
    PatchDims,
    UnpatchRank,
    UnpatchDims,
    UnpatchShape,
    ChunkOverflow,
    ChunkMissing,
    Tensor(TensorFault),
}

impl View for BackendError {
    type V = BackendFault;

    open spec fn view(&self) -> BackendFault {
        match *self {
            BackendError::Owner { owned, owner } => BackendFault::Owner {
                owned,
                owner,
            },
            BackendError::SliceRank => BackendFault::SliceRank,
            BackendError::SliceNothing => BackendFault::SliceNothing,
            BackendError::SliceOverflow => BackendFault::SliceOverflow,
            BackendError::SliceRange { start, end, time } => BackendFault::SliceRange {
                start,
                end,
                time,
            },
            BackendError::ConcatNothing => BackendFault::ConcatNothing,
            BackendError::ConcatRank => BackendFault::ConcatRank,
            BackendError::ConcatDims { first, other } => BackendFault::ConcatDims {
                first: first@,
                other: other@,
            },
            BackendError::ConcatOverflow => BackendFault::ConcatOverflow,
            BackendError::PrependRank => BackendFault::PrependRank,
            BackendError::PrependOverflow => BackendFault::PrependOverflow,
            BackendError::ShuffleRank => BackendFault::ShuffleRank,
            BackendError::ShuffleChannels => BackendFault::ShuffleChannels,
            BackendError::ShuffleOverflow => BackendFault::ShuffleOverflow,
            BackendError::LinearRank => BackendFault::LinearRank,
            BackendError::LinearBias { shape, width } => BackendFault::LinearBias {
                shape: shape@,
                width,
            },
            BackendError::LinearInput { shape, width } => BackendFault::LinearInput {
                shape: shape@,
                width,
            },
            BackendError::Conv3dRank => BackendFault::Conv3dRank,
            BackendError::Conv3dBias { shape, channels } => BackendFault::Conv3dBias {
                shape: shape@,
                channels,
            },
            BackendError::Conv3dInputRank => BackendFault::Conv3dInputRank,
            BackendError::Conv3dChannels => BackendFault::Conv3dChannels,
            BackendError::Conv3dOverflow => BackendFault::Conv3dOverflow,
            BackendError::Conv3dKernel => BackendFault::Conv3dKernel,
            BackendError::AddShapes { left, right } => BackendFault::AddShapes {
                left: left@,
                right: right@,
            },
            BackendError::MultiplyShapes { left, right } => BackendFault::MultiplyShapes {
                left: left@,
                right: right@,
            },
            BackendError::ScaleFinite => BackendFault::ScaleFinite,
            BackendError::ClampBounds => BackendFault::ClampBounds,
            BackendError::VectorRank => BackendFault::VectorRank,
            BackendError::VectorLength { len, shape } => BackendFault::VectorLength {
                len,
                shape: shape@,
            },
            BackendError::NormEpsilon => BackendFault::NormEpsilon,
            BackendError::NormAffine => BackendFault::NormAffine,
            BackendError::NormLengths { weight, bias, width } => BackendFault::NormLengths {
                weight,
                bias,
                width,
            },
            BackendError::RmsEpsilon => BackendFault::RmsEpsilon,
            BackendError::RmsLength { len, width } => BackendFault::RmsLength {
                len,
                width,
            },
            BackendError::ChannelRank => BackendFault::ChannelRank,
            BackendError::ChannelLength { len, channels } => BackendFault::ChannelLength {
                len,
                channels,
            },
            BackendError::ChannelEpsilon => BackendFault::ChannelEpsilon,
            BackendError::RopeHeads => BackendFault::RopeHeads,
            BackendError::RopeWidth => BackendFault::RopeWidth,
            BackendError::RopeInput { shape, width } => BackendFault::RopeInput {
                shape: shape@,
                width,
            },
            BackendError::RopeOverflow => BackendFault::RopeOverflow,
            BackendError::RopePositions { len, expected } => BackendFault::RopePositions {
                len,
                expected,
            },
            BackendError::ScoresValid => BackendFault::ScoresValid,
            BackendError::ScoresOverflow => BackendFault::ScoresOverflow,
            BackendError::ScoresQueryRank => BackendFault::ScoresQueryRank,
            BackendError::ScoresKeyRank => BackendFault::ScoresKeyRank,
            BackendError::ScoresShapes => BackendFault::ScoresShapes,
            BackendError::ValuesProbabilityRank => BackendFault::ValuesProbabilityRank,
            BackendError::ValuesRank => BackendFault::ValuesRank,
            BackendError::ValuesOverflow => BackendFault::ValuesOverflow,
            BackendError::ValuesShapes => BackendFault::ValuesShapes,
            BackendError::ModulationOverflow => BackendFault::ModulationOverflow,
            BackendError::ModulationLength { len, required } => BackendFault::ModulationLength {
                len,
                required,
            },
            BackendError::HeadModulation => BackendFault::HeadModulation,
            BackendError::PatchRank => BackendFault::PatchRank,
            BackendError::PatchDims => BackendFault::PatchDims,
            BackendError::UnpatchRank => BackendFault::UnpatchRank,
            BackendError::UnpatchDims => BackendFault::UnpatchDims,
            BackendError::UnpatchShape => BackendFault::UnpatchShape,
            BackendError::ChunkOverflow => BackendFault::ChunkOverflow,
            BackendError::ChunkMissing => BackendFault::ChunkMissing,
            BackendError::Tensor(error) => BackendFault::Tensor(error@),
        }
    }
}

impl BackendFault {
    /// The message for people.
    pub open spec fn text(self) -> Seq<char> {
        match self {
            BackendFault::Owner { owned, owner } => "backend ScalarCpu cannot consume "@
                + owned_text(owned)
                + " owned by "@
                + kind_text(owner),
            BackendFault::SliceRank => "temporal slice input must be NCTHW"@,
            BackendFault::SliceNothing => "temporal slice cannot select zero frames"@,
            BackendFault::SliceOverflow => "temporal slice range overflow"@,
            BackendFault::SliceRange { start, end, time } => "temporal slice "@
                + text::decimal(start as nat)
                + ".."@
                + text::decimal(end as nat)
                + " exceeds input time "@
                + text::decimal(time as nat),
            BackendFault::ConcatNothing => "temporal concat requires at least one tensor"@,
            BackendFault::ConcatRank => "temporal concat input must be NCTHW"@,
            BackendFault::ConcatDims {
                first,
                other,
            } => "temporal concat non-time dimensions differ: "@
                + text::bracketed(first)
                + " vs "@
                + text::bracketed(other),
            BackendFault::ConcatOverflow => "temporal concat length overflow"@,
            BackendFault::PrependRank => "zero-time prepend input must be NCTHW"@,
            BackendFault::PrependOverflow => "zero-time prepend length overflow"@,
            BackendFault::ShuffleRank => "channel-to-time input must be NCTHW"@,
            BackendFault::ShuffleChannels => "Wan channel-to-time shuffle needs an even channel count"@,
            BackendFault::ShuffleOverflow => "channel-to-time length overflow"@,
            BackendFault::LinearRank => "linear weight must be rank two"@,
            BackendFault::LinearBias { shape, width } => "linear bias shape "@
                + text::bracketed(shape)
                + " must be ["@
                + text::decimal(width as nat)
                + "]"@,
            BackendFault::LinearInput { shape, width } => "prepared linear input shape "@
                + text::bracketed(shape)
                + " does not end in "@
                + text::decimal(width as nat),
            BackendFault::Conv3dRank => "Conv3D weight must be [out,in,time,height,width]"@,
            BackendFault::Conv3dBias { shape, channels } => "Conv3D bias shape "@
                + text::bracketed(shape)
                + " must be ["@
                + text::decimal(channels as nat)
                + "]"@,
            BackendFault::Conv3dInputRank => "Conv3D input must be [batch,channels,time,height,width]"@,
            BackendFault::Conv3dChannels => "Conv3D input batch/channels do not match prepared weights"@,
            BackendFault::Conv3dOverflow => "Conv3D padded dimension overflow"@,
            BackendFault::Conv3dKernel => "Conv3D kernel is larger than the padded input"@,
            BackendFault::AddShapes { left, right } => "resident add shape mismatch: "@
                + text::bracketed(left)
                + " vs "@
                + text::bracketed(right),
            BackendFault::MultiplyShapes { left, right } => "multiply shape mismatch: "@
                + text::bracketed(left)
                + " vs "@
                + text::bracketed(right),
            BackendFault::ScaleFinite => "resident scale must be finite"@,
            BackendFault::ClampBounds => "clamp bounds must be finite and ordered"@,
            BackendFault::VectorRank => "prepared vector must be rank one"@,
            BackendFault::VectorLength { len, shape } => "prepared vector length "@
                + text::decimal(len as nat)
                + " does not match tensor shape "@
                + text::bracketed(shape),
            BackendFault::NormEpsilon => "LayerNorm epsilon must be finite and positive"@,
            BackendFault::NormAffine => "affine LayerNorm requires both weight and bias"@,
            BackendFault::NormLengths { weight, bias, width } => "LayerNorm weight/bias lengths "@
                + text::decimal(weight as nat)
                + "/"@
                + text::decimal(bias as nat)
                + " do not match width "@
                + text::decimal(width as nat),
            BackendFault::RmsEpsilon => "RMSNorm epsilon must be finite and positive"@,
            BackendFault::RmsLength { len, width } => "RMSNorm weight length "@
                + text::decimal(len as nat)
                + " does not match input width "@
                + text::decimal(width as nat),
            BackendFault::ChannelRank => "channel RMSNorm input must be NCTHW"@,
            BackendFault::ChannelLength { len, channels } => "channel RMSNorm weight length "@
                + text::decimal(len as nat)
                + " does not match "@
                + text::decimal(channels as nat)
                + " channels"@,
            BackendFault::ChannelEpsilon => "channel RMSNorm epsilon must be finite and positive"@,
            BackendFault::RopeHeads => "RoPE heads and even head dimension must be non-zero"@,
            BackendFault::RopeWidth => "RoPE width overflow"@,
            BackendFault::RopeInput { shape, width } => "RoPE input shape "@
                + text::bracketed(shape)
                + " does not end in width "@
                + text::decimal(width as nat),
            BackendFault::RopeOverflow => "RoPE position size overflow"@,
            BackendFault::RopePositions { len, expected } => "RoPE positions contain "@
                + text::decimal(len as nat)
                + " values, expected "@
                + text::decimal(expected as nat),
            BackendFault::ScoresValid => "attention score dimensions and scale must be valid"@,
            BackendFault::ScoresOverflow => "attention score width overflow"@,
            BackendFault::ScoresQueryRank => "attention query must be rank two"@,
            BackendFault::ScoresKeyRank => "attention key must be rank two"@,
            BackendFault::ScoresShapes => "attention Q/K shapes do not match the requested head layout"@,
            BackendFault::ValuesProbabilityRank => "attention probabilities must be rank three"@,
            BackendFault::ValuesRank => "attention value must be rank two"@,
            BackendFault::ValuesOverflow => "attention value width overflow"@,
            BackendFault::ValuesShapes => "attention probability/value shapes do not match the head layout"@,
            BackendFault::ModulationOverflow => "Wan modulation size overflow"@,
            BackendFault::ModulationLength { len, required } => "Wan modulation has "@
                + text::decimal(len as nat)
                + " values, requires at least "@
                + text::decimal(required as nat),
            BackendFault::HeadModulation => "Wan head timestep or modulation shape is invalid"@,
            BackendFault::PatchRank => "patchify input must be [channels,time,height,width]"@,
            BackendFault::PatchDims => "patchify input dimensions must be non-zero and divisible by the patch"@,
            BackendFault::UnpatchRank => "unpatchify input must be [tokens,features]"@,
            BackendFault::UnpatchDims => "unpatchify output dimensions must be non-zero and divisible by the patch"@,
            BackendFault::UnpatchShape => "unpatchify token shape does not match the requested output"@,
            BackendFault::ChunkOverflow => "vector multiply size overflow"@,
            BackendFault::ChunkMissing => "vector multiply tensor does not contain the requested chunk"@,
            BackendFault::Tensor(fault) => fault.text(),
        }
    }
}

impl BackendError {
    /// The message for people.
    pub fn message(&self) -> (message: String)
        ensures
            message@ == self@.text(),
    {
        let mut out = String::new();
        match self {
            BackendError::Owner { owned, owner } => {
                out.append("backend ScalarCpu cannot consume ");
                out.append(owned_name(*owned));
                out.append(" owned by ");
                out.append(kind_name(*owner));
            },
            BackendError::SliceRank => {
                out.append("temporal slice input must be NCTHW");
            },
            BackendError::SliceNothing => {
                out.append("temporal slice cannot select zero frames");
            },
            BackendError::SliceOverflow => {
                out.append("temporal slice range overflow");
            },
            BackendError::SliceRange { start, end, time } => {
                out.append("temporal slice ");
                push_usize(&mut out, *start);
                out.append("..");
                push_usize(&mut out, *end);
                out.append(" exceeds input time ");
                push_usize(&mut out, *time);
            },
            BackendError::ConcatNothing => {
                out.append("temporal concat requires at least one tensor");
            },
            BackendError::ConcatRank => {
                out.append("temporal concat input must be NCTHW");
            },
            BackendError::ConcatDims { first, other } => {
                out.append("temporal concat non-time dimensions differ: ");
                push_bracketed(&mut out, first);
                out.append(" vs ");
                push_bracketed(&mut out, other);
            },
            BackendError::ConcatOverflow => {
                out.append("temporal concat length overflow");
            },
            BackendError::PrependRank => {
                out.append("zero-time prepend input must be NCTHW");
            },
            BackendError::PrependOverflow => {
                out.append("zero-time prepend length overflow");
            },
            BackendError::ShuffleRank => {
                out.append("channel-to-time input must be NCTHW");
            },
            BackendError::ShuffleChannels => {
                out.append("Wan channel-to-time shuffle needs an even channel count");
            },
            BackendError::ShuffleOverflow => {
                out.append("channel-to-time length overflow");
            },
            BackendError::LinearRank => {
                out.append("linear weight must be rank two");
            },
            BackendError::LinearBias { shape, width } => {
                out.append("linear bias shape ");
                push_bracketed(&mut out, shape);
                out.append(" must be [");
                push_usize(&mut out, *width);
                out.append("]");
            },
            BackendError::LinearInput { shape, width } => {
                out.append("prepared linear input shape ");
                push_bracketed(&mut out, shape);
                out.append(" does not end in ");
                push_usize(&mut out, *width);
            },
            BackendError::Conv3dRank => {
                out.append("Conv3D weight must be [out,in,time,height,width]");
            },
            BackendError::Conv3dBias { shape, channels } => {
                out.append("Conv3D bias shape ");
                push_bracketed(&mut out, shape);
                out.append(" must be [");
                push_usize(&mut out, *channels);
                out.append("]");
            },
            BackendError::Conv3dInputRank => {
                out.append("Conv3D input must be [batch,channels,time,height,width]");
            },
            BackendError::Conv3dChannels => {
                out.append("Conv3D input batch/channels do not match prepared weights");
            },
            BackendError::Conv3dOverflow => {
                out.append("Conv3D padded dimension overflow");
            },
            BackendError::Conv3dKernel => {
                out.append("Conv3D kernel is larger than the padded input");
            },
            BackendError::AddShapes { left, right } => {
                out.append("resident add shape mismatch: ");
                push_bracketed(&mut out, left);
                out.append(" vs ");
                push_bracketed(&mut out, right);
            },
            BackendError::MultiplyShapes { left, right } => {
                out.append("multiply shape mismatch: ");
                push_bracketed(&mut out, left);
                out.append(" vs ");
                push_bracketed(&mut out, right);
            },
            BackendError::ScaleFinite => {
                out.append("resident scale must be finite");
            },
            BackendError::ClampBounds => {
                out.append("clamp bounds must be finite and ordered");
            },
            BackendError::VectorRank => {
                out.append("prepared vector must be rank one");
            },
            BackendError::VectorLength { len, shape } => {
                out.append("prepared vector length ");
                push_usize(&mut out, *len);
                out.append(" does not match tensor shape ");
                push_bracketed(&mut out, shape);
            },
            BackendError::NormEpsilon => {
                out.append("LayerNorm epsilon must be finite and positive");
            },
            BackendError::NormAffine => {
                out.append("affine LayerNorm requires both weight and bias");
            },
            BackendError::NormLengths { weight, bias, width } => {
                out.append("LayerNorm weight/bias lengths ");
                push_usize(&mut out, *weight);
                out.append("/");
                push_usize(&mut out, *bias);
                out.append(" do not match width ");
                push_usize(&mut out, *width);
            },
            BackendError::RmsEpsilon => {
                out.append("RMSNorm epsilon must be finite and positive");
            },
            BackendError::RmsLength { len, width } => {
                out.append("RMSNorm weight length ");
                push_usize(&mut out, *len);
                out.append(" does not match input width ");
                push_usize(&mut out, *width);
            },
            BackendError::ChannelRank => {
                out.append("channel RMSNorm input must be NCTHW");
            },
            BackendError::ChannelLength { len, channels } => {
                out.append("channel RMSNorm weight length ");
                push_usize(&mut out, *len);
                out.append(" does not match ");
                push_usize(&mut out, *channels);
                out.append(" channels");
            },
            BackendError::ChannelEpsilon => {
                out.append("channel RMSNorm epsilon must be finite and positive");
            },
            BackendError::RopeHeads => {
                out.append("RoPE heads and even head dimension must be non-zero");
            },
            BackendError::RopeWidth => {
                out.append("RoPE width overflow");
            },
            BackendError::RopeInput { shape, width } => {
                out.append("RoPE input shape ");
                push_bracketed(&mut out, shape);
                out.append(" does not end in width ");
                push_usize(&mut out, *width);
            },
            BackendError::RopeOverflow => {
                out.append("RoPE position size overflow");
            },
            BackendError::RopePositions { len, expected } => {
                out.append("RoPE positions contain ");
                push_usize(&mut out, *len);
                out.append(" values, expected ");
                push_usize(&mut out, *expected);
            },
            BackendError::ScoresValid => {
                out.append("attention score dimensions and scale must be valid");
            },
            BackendError::ScoresOverflow => {
                out.append("attention score width overflow");
            },
            BackendError::ScoresQueryRank => {
                out.append("attention query must be rank two");
            },
            BackendError::ScoresKeyRank => {
                out.append("attention key must be rank two");
            },
            BackendError::ScoresShapes => {
                out.append("attention Q/K shapes do not match the requested head layout");
            },
            BackendError::ValuesProbabilityRank => {
                out.append("attention probabilities must be rank three");
            },
            BackendError::ValuesRank => {
                out.append("attention value must be rank two");
            },
            BackendError::ValuesOverflow => {
                out.append("attention value width overflow");
            },
            BackendError::ValuesShapes => {
                out.append("attention probability/value shapes do not match the head layout");
            },
            BackendError::ModulationOverflow => {
                out.append("Wan modulation size overflow");
            },
            BackendError::ModulationLength { len, required } => {
                out.append("Wan modulation has ");
                push_usize(&mut out, *len);
                out.append(" values, requires at least ");
                push_usize(&mut out, *required);
            },
            BackendError::HeadModulation => {
                out.append("Wan head timestep or modulation shape is invalid");
            },
            BackendError::PatchRank => {
                out.append("patchify input must be [channels,time,height,width]");
            },
            BackendError::PatchDims => {
                out.append("patchify input dimensions must be non-zero and divisible by the patch");
            },
            BackendError::UnpatchRank => {
                out.append("unpatchify input must be [tokens,features]");
            },
            BackendError::UnpatchDims => {
                out.append(
                    "unpatchify output dimensions must be non-zero and divisible by the patch",
                );
            },
            BackendError::UnpatchShape => {
                out.append("unpatchify token shape does not match the requested output");
            },
            BackendError::ChunkOverflow => {
                out.append("vector multiply size overflow");
            },
            BackendError::ChunkMissing => {
                out.append("vector multiply tensor does not contain the requested chunk");
            },
            BackendError::Tensor(error) => {
                return error.message();
            },
        }
        out
    }
}

} // verus!
