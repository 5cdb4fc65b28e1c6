//! Why a tensor operator refuses its arguments.

use vstd::prelude::*;
use crate::text;
use crate::text::{push_bracketed, push_usize};

verus! {

broadcast use vstd::string::group_string_axioms;

/// A size that does not fit in a machine word.
#[derive(Clone, Copy, Debug, PartialEq, Eq, Structural)]
pub enum Quantity {
    ElementCount,
    KernelHeight,
    KernelWidth,
    PaddedHeight,
    PaddedWidth,
    ConvPlane,
    ConvOutput,
    UpsampleHeight,
    UpsampleWidth,
    UpsamplePlane,
    UpsampleOutput,
    ConcatChannels,
    ConcatOutput,
}

/// The refusal of an operator.
#[derive(Clone, Debug, PartialEq, Eq)]
pub enum TensorError {
    EmptyShape,
    ZeroDimension,
    Overflow(Quantity),
    LengthMismatch { shape: Vec<usize>, expected: usize, actual: usize },
    NotNchw { shape: Vec<usize> },
    AddShapes { left: Vec<usize>, right: Vec<usize> },
    LinearWeightRank { shape: Vec<usize> },
    LinearWidth { input: usize, weight: usize },
    LinearBias { shape: Vec<usize>, out_features: usize },
    LayerNormParameters { width: usize },
    LayerNormEpsilon,
    GroupCount { groups: usize, channels: usize },
    GroupNormParameters { channels: usize },
    GroupNormEpsilon,
    ConvWeightRank { shape: Vec<usize> },
    ConvGroups { groups: usize, in_channels: usize, out_channels: usize },
    ConvWeightChannels { actual: usize, expected: usize },
    ConvZeroStep,
    ConvBias { shape: Vec<usize>, out_channels: usize },
    ConvKernelTooLarge,
    UpsampleScale,
    ConcatNothing,
    ConcatMismatch { first: Vec<usize>, other: Vec<usize> },
    AttentionRank,
    AttentionShapes { query: Vec<usize>, key: Vec<usize>, value: Vec<usize> },
    AttentionCausalLengths,
}

/// What a [`TensorError`] says, with shapes as sequences.
pub enum TensorFault {
    EmptyShape,
    ZeroDimension,
    Overflow(Quantity),
    LengthMismatch { shape: Seq<usize>, expected: usize, actual: usize },
    NotNchw { shape: Seq<usize> },
    AddShapes { left: Seq<usize>, right: Seq<usize> },
    LinearWeightRank { shape: Seq<usize> },
    LinearWidth { input: usize, weight: usize },
    LinearBias { shape: Seq<usize>, out_features: usize },
    LayerNormParameters { width: usize },
    LayerNormEpsilon,
    GroupCount { groups: usize, channels: usize },
    GroupNormParameters { channels: usize },
    GroupNormEpsilon,
    ConvWeightRank { shape: Seq<usize> },
    ConvGroups { groups: usize, in_channels: usize, out_channels: usize },
    ConvWeightChannels { actual: usize, expected: usize },
    ConvZeroStep,
    ConvBias { shape: Seq<usize>, out_channels: usize },
    ConvKernelTooLarge,
    UpsampleScale,
    ConcatNothing,
    ConcatMismatch { first: Seq<usize>, other: Seq<usize> },
    AttentionRank,
    AttentionShapes { query: Seq<usize>, key: Seq<usize>, value: Seq<usize> },
    AttentionCausalLengths,
}

impl View for TensorError {
    type V = TensorFault;

    open spec fn view(&self) -> TensorFault {
        match *self {
            TensorError::EmptyShape => TensorFault::EmptyShape,
            TensorError::ZeroDimension => TensorFault::ZeroDimension,
            TensorError::Overflow(quantity) => TensorFault::Overflow(quantity),
            TensorError::LengthMismatch { shape, expected, actual } => TensorFault::LengthMismatch {
                shape: shape@,
                expected,
                actual,
            },
            TensorError::NotNchw { shape } => TensorFault::NotNchw { shape: shape@ },
            TensorError::AddShapes { left, right } => TensorFault::AddShapes {
                left: left@,
                right: right@,
            },
            TensorError::LinearWeightRank { shape } => TensorFault::LinearWeightRank {
                shape: shape@,
            },
            TensorError::LinearWidth { input, weight } => TensorFault::LinearWidth {
                input,
                weight,
            },
            TensorError::LinearBias { shape, out_features } => TensorFault::LinearBias {
                shape: shape@,
                out_features,
            },
            TensorError::LayerNormParameters { width } => TensorFault::LayerNormParameters {
                width,
            },
            TensorError::LayerNormEpsilon => TensorFault::LayerNormEpsilon,
            TensorError::GroupCount { groups, channels } => TensorFault::GroupCount {
                groups,
                channels,
            },
            TensorError::GroupNormParameters { channels } => TensorFault::GroupNormParameters {
                channels,
            },
            TensorError::GroupNormEpsilon => TensorFault::GroupNormEpsilon,
            TensorError::ConvWeightRank { shape } => TensorFault::ConvWeightRank { shape: shape@ },
            TensorError::ConvGroups { groups, in_channels, out_channels } =>
                TensorFault::ConvGroups { groups, in_channels, out_channels },
            TensorError::ConvWeightChannels { actual, expected } =>
                TensorFault::ConvWeightChannels { actual, expected },
            TensorError::ConvZeroStep => TensorFault::ConvZeroStep,
            TensorError::ConvBias { shape, out_channels } => TensorFault::ConvBias {
                shape: shape@,
                out_channels,
            },
            TensorError::ConvKernelTooLarge => TensorFault::ConvKernelTooLarge,
            TensorError::UpsampleScale => TensorFault::UpsampleScale,
            TensorError::ConcatNothing => TensorFault::ConcatNothing,
            TensorError::ConcatMismatch { first, other } => TensorFault::ConcatMismatch {
                first: first@,
                other: other@,
            },
            TensorError::AttentionRank => TensorFault::AttentionRank,
            TensorError::AttentionShapes { query, key, value } => TensorFault::AttentionShapes {
                query: query@,
                key: key@,
                value: value@,
            },
            TensorError::AttentionCausalLengths => TensorFault::AttentionCausalLengths,
        }
    }
}

impl Quantity {
    /// How messages name the quantity.
    pub open spec fn label(self) -> Seq<char> {
        match self {
            Quantity::ElementCount => "tensor element count"@,
            Quantity::KernelHeight => "conv2d effective kernel height"@,
            Quantity::KernelWidth => "conv2d effective kernel width"@,
            Quantity::PaddedHeight => "conv2d padded height"@,
            Quantity::PaddedWidth => "conv2d padded width"@,
            Quantity::ConvPlane => "conv2d output plane"@,
            Quantity::ConvOutput => "conv2d output size"@,
            Quantity::UpsampleHeight => "upsample height"@,
            Quantity::UpsampleWidth => "upsample width"@,
            Quantity::UpsamplePlane => "upsample output plane"@,
            Quantity::UpsampleOutput => "upsample output size"@,
            Quantity::ConcatChannels => "concat channel count"@,
            Quantity::ConcatOutput => "concat output size"@,
        }
    }

    /// How messages name the quantity.
    pub fn name(self) -> (name: &'static str)
        ensures
            name@ == self.label(),
    {
        match self {
            Quantity::ElementCount => "tensor element count",
            Quantity::KernelHeight => "conv2d effective kernel height",
            Quantity::KernelWidth => "conv2d effective kernel width",
            Quantity::PaddedHeight => "conv2d padded height",
            Quantity::PaddedWidth => "conv2d padded width",
            Quantity::ConvPlane => "conv2d output plane",
            Quantity::ConvOutput => "conv2d output size",
            Quantity::UpsampleHeight => "upsample height",
            Quantity::UpsampleWidth => "upsample width",
            Quantity::UpsamplePlane => "upsample output plane",
            Quantity::UpsampleOutput => "upsample output size",
            Quantity::ConcatChannels => "concat channel count",
            Quantity::ConcatOutput => "concat output size",
        }
    }
}

impl TensorFault {
    /// The message for people.
    pub open spec fn text(self) -> Seq<char> {
        match self {
            TensorFault::EmptyShape => "tensor shape cannot be empty"@,
            TensorFault::ZeroDimension => "tensor dimensions must be non-zero"@,
            TensorFault::Overflow(quantity) => quantity.label() + " overflow"@,
            TensorFault::LengthMismatch { shape, expected, actual } => "tensor shape "@
                + text::bracketed(shape) + " requires "@ + text::decimal(expected as nat)
                + " values, got "@ + text::decimal(actual as nat),
            TensorFault::NotNchw { shape } => "expected rank-4 NCHW tensor, got "@
                + text::bracketed(shape),
            TensorFault::AddShapes { left, right } => "add shape mismatch: "@ + text::bracketed(
                left,
            ) + " vs "@ + text::bracketed(right),
            TensorFault::LinearWeightRank { shape } => "linear weight must be rank 2, got "@
                + text::bracketed(shape),
            TensorFault::LinearWidth { input, weight } => "linear input width Some("@
                + text::decimal(input as nat) + ") does not match weight width "@ + text::decimal(
                weight as nat,
            ),
            TensorFault::LinearBias { shape, out_features } => "linear bias shape "@
                + text::bracketed(shape) + " must be ["@ + text::decimal(out_features as nat)
                + "]"@,
            TensorFault::LayerNormParameters { width } =>
                "layer norm parameters must both have shape ["@ + text::decimal(width as nat)
                + "]"@,
            TensorFault::LayerNormEpsilon => "layer norm epsilon must be positive and finite"@,
            TensorFault::GroupCount { groups, channels } => "group count "@ + text::decimal(
                groups as nat,
            ) + " must divide channel count "@ + text::decimal(channels as nat),
            TensorFault::GroupNormParameters { channels } =>
                "group norm parameters must both have shape ["@ + text::decimal(channels as nat)
                + "]"@,
            TensorFault::GroupNormEpsilon => "group norm epsilon must be positive and finite"@,
            TensorFault::ConvWeightRank { shape } => "conv2d weight must be rank 4, got "@
                + text::bracketed(shape),
            TensorFault::ConvGroups { groups, in_channels, out_channels } =>
                "conv2d group count "@ + text::decimal(groups as nat) + " is incompatible with "@
                + text::decimal(in_channels as nat) + " input and "@ + text::decimal(
                out_channels as nat,
            ) + " output channels"@,
            TensorFault::ConvWeightChannels { actual, expected } => "conv2d weight has "@
                + text::decimal(actual as nat) + " input channels per group, expected "@
                + text::decimal(expected as nat),
            TensorFault::ConvZeroStep =>
                "conv2d stride, dilation, and kernel dimensions must be non-zero"@,
            TensorFault::ConvBias { shape, out_channels } => "conv2d bias shape "@
                + text::bracketed(shape) + " must be ["@ + text::decimal(out_channels as nat)
                + "]"@,
            TensorFault::ConvKernelTooLarge =>
                "conv2d effective kernel is larger than the padded input"@,
            TensorFault::UpsampleScale => "upsample scale must be non-zero"@,
            TensorFault::ConcatNothing => "concat requires at least one tensor"@,
            TensorFault::ConcatMismatch { first, other } => "concat N/H/W mismatch: "@
                + text::bracketed(first) + " vs "@ + text::bracketed(other),
            TensorFault::AttentionRank => "attention inputs must all be rank 4"@,
            TensorFault::AttentionShapes { query, key, value } =>
                "attention K/V shapes are incompatible with Q: "@ + text::bracketed(query) + ", "@
                + text::bracketed(key) + ", "@ + text::bracketed(value),
            TensorFault::AttentionCausalLengths =>
                "causal attention requires equal query and key lengths"@,
        }
    }
}

impl TensorError {
    /// The message for people.
    pub fn message(&self) -> (message: String)
        ensures
            message@ == self@.text(),
    {
        let mut out = String::new();
        match self {
            TensorError::EmptyShape => {
                out.append("tensor shape cannot be empty");
            },
            TensorError::ZeroDimension => {
                out.append("tensor dimensions must be non-zero");
            },
            TensorError::Overflow(quantity) => {
                out.append(quantity.name());
                out.append(" overflow");
            },
            TensorError::LengthMismatch { shape, expected, actual } => {
                out.append("tensor shape ");
                push_bracketed(&mut out, shape);
                out.append(" requires ");
                push_usize(&mut out, *expected);
                out.append(" values, got ");
                push_usize(&mut out, *actual);
            },
            TensorError::NotNchw { shape } => {
                out.append("expected rank-4 NCHW tensor, got ");
                push_bracketed(&mut out, shape);
            },
            TensorError::AddShapes { left, right } => {
                out.append("add shape mismatch: ");
                push_bracketed(&mut out, left);
                out.append(" vs ");
                push_bracketed(&mut out, right);
            },
            TensorError::LinearWeightRank { shape } => {
                out.append("linear weight must be rank 2, got ");
                push_bracketed(&mut out, shape);
            },
            TensorError::LinearWidth { input, weight } => {
                out.append("linear input width Some(");
                push_usize(&mut out, *input);
                out.append(") does not match weight width ");
                push_usize(&mut out, *weight);
            },
            TensorError::LinearBias { shape, out_features } => {
                out.append("linear bias shape ");
                push_bracketed(&mut out, shape);
                out.append(" must be [");
                push_usize(&mut out, *out_features);
                out.append("]");
            },
            TensorError::LayerNormParameters { width } => {
                out.append("layer norm parameters must both have shape [");
                push_usize(&mut out, *width);
                out.append("]");
            },
            TensorError::LayerNormEpsilon => {
                out.append("layer norm epsilon must be positive and finite");
            },
            TensorError::GroupCount { groups, channels } => {
                out.append("group count ");
                push_usize(&mut out, *groups);
                out.append(" must divide channel count ");
                push_usize(&mut out, *channels);
            },
            TensorError::GroupNormParameters { channels } => {
                out.append("group norm parameters must both have shape [");
                push_usize(&mut out, *channels);
                out.append("]");
            },
            TensorError::GroupNormEpsilon => {
                out.append("group norm epsilon must be positive and finite");
            },
            TensorError::ConvWeightRank { shape } => {
                out.append("conv2d weight must be rank 4, got ");
                push_bracketed(&mut out, shape);
            },
            TensorError::ConvGroups { groups, in_channels, out_channels } => {
                out.append("conv2d group count ");
                push_usize(&mut out, *groups);
                out.append(" is incompatible with ");
                push_usize(&mut out, *in_channels);
                out.append(" input and ");
                push_usize(&mut out, *out_channels);
                out.append(" output channels");
            },
            TensorError::ConvWeightChannels { actual, expected } => {
                out.append("conv2d weight has ");
                push_usize(&mut out, *actual);
                out.append(" input channels per group, expected ");
                push_usize(&mut out, *expected);
            },
            TensorError::ConvZeroStep => {
                out.append("conv2d stride, dilation, and kernel dimensions must be non-zero");
            },
            TensorError::ConvBias { shape, out_channels } => {
                out.append("conv2d bias shape ");
                push_bracketed(&mut out, shape);
                out.append(" must be [");
                push_usize(&mut out, *out_channels);
                out.append("]");
            },
            TensorError::ConvKernelTooLarge => {
                out.append("conv2d effective kernel is larger than the padded input");
            },
            TensorError::UpsampleScale => {
                out.append("upsample scale must be non-zero");
            },
            TensorError::ConcatNothing => {
                out.append("concat requires at least one tensor");
            },
            TensorError::ConcatMismatch { first, other } => {
                out.append("concat N/H/W mismatch: ");
                push_bracketed(&mut out, first);
                out.append(" vs ");
                push_bracketed(&mut out, other);
            },
            TensorError::AttentionRank => {
                out.append("attention inputs must all be rank 4");
            },
            TensorError::AttentionShapes { query, key, value } => {
                out.append("attention K/V shapes are incompatible with Q: ");
                push_bracketed(&mut out, query);
                out.append(", ");
                push_bracketed(&mut out, key);
                out.append(", ");
                push_bracketed(&mut out, value);
            },
            TensorError::AttentionCausalLengths => {
                out.append("causal attention requires equal query and key lengths");
            },
        }
        out
    }
}

} // verus!
