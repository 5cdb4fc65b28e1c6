//! The layers of the diffusion networks: tensor operators with weights from a mapped file.
//!
//! Arithmetic on elements is supplied by the caller as [`Kernels`]; a layer's contract says which
//! operator is applied to which weights.

use vstd::prelude::*;
use crate::attention;
use crate::conv;
use crate::conv::Conv2d;
use crate::fold;
use crate::image;
use crate::layout;
use crate::norm;
use crate::pack;
use crate::pack::dtype_name;
use crate::reshape;
use crate::reshape::{
    geglu, merge_heads, nchw_to_sequence, split_heads, Array, LayoutError, LayoutFault,
};
use crate::safetensors;
use crate::safetensors::{
    DType, SafeTensorFile, Scalar, TensorAccessError, TensorAccessFault, TensorView,
};
use crate::tensor;
use crate::tensor::{same_dims, Tensor};
use crate::tensor_error::{TensorError, TensorFault};
use crate::text;
use crate::text::{push_bracketed, push_usize};

verus! {

broadcast use vstd::string::group_string_axioms;

/// The bit pattern of 0.00001.
pub const EPSILON_5: u32 = 0x3727_c5ac;

/// The bit pattern of 0.000001.
pub const EPSILON_6: u32 = 0x3586_37bd;

/// The number of groups of every group normalization.
pub const GROUPS: usize = 32;

/// Why a layer fails.
#[derive(Clone, Debug, PartialEq, Eq)]
#[allow(inconsistent_fields)]
pub enum LayerError {
    Access(TensorAccessError),
    NotFloating { name: String },
    NotHalfMatrix { name: String },
    InputWidth { prefix: String, width: usize, expected: usize },
    NotHalf { name: String, dtype: DType },
    ViewShape { name: String, shape: Vec<usize>, expected: Vec<usize> },
    TextShape { hidden: usize, shape: Vec<usize> },
    Tensor(TensorError),
    Layout(LayoutError),
}

/// What a [`LayerError`] says, with texts and shapes as sequences.
#[allow(inconsistent_fields)]
pub enum LayerFault {
    Access(TensorAccessFault),
    NotFloating { name: Seq<char> },
    NotHalfMatrix { name: Seq<char> },
    InputWidth { prefix: Seq<char>, width: usize, expected: usize },
    NotHalf { name: Seq<char>, dtype: DType },
    ViewShape { name: Seq<char>, shape: Seq<usize>, expected: Seq<usize> },
    TextShape { hidden: usize, shape: Seq<usize> },
    Tensor(TensorFault),
    Layout(LayoutFault),
}

impl View for LayerError {
    type V = LayerFault;

    open spec fn view(&self) -> LayerFault {
        match *self {
            LayerError::Access(error) => LayerFault::Access(error@),
            LayerError::NotFloating { name } => LayerFault::NotFloating { name: name@ },
            LayerError::NotHalfMatrix { name } => LayerFault::NotHalfMatrix { name: name@ },
            LayerError::InputWidth { prefix, width, expected } => LayerFault::InputWidth {
                prefix: prefix@,
                width,
                expected,
            },
            LayerError::NotHalf { name, dtype } => LayerFault::NotHalf { name: name@, dtype },
            LayerError::ViewShape { name, shape, expected } => LayerFault::ViewShape {
                name: name@,
                shape: shape@,
                expected: expected@,
            },
            LayerError::TextShape { hidden, shape } => LayerFault::TextShape {
                hidden,
                shape: shape@,
            },
            LayerError::Tensor(error) => LayerFault::Tensor(error@),
            LayerError::Layout(error) => LayerFault::Layout(error@),
        }
    }
}

impl LayerFault {
    /// The message for people.
    pub open spec fn text(self) -> Seq<char> {
        match self {
            LayerFault::Access(fault) => fault.text(),
            LayerFault::NotFloating { name } => name + " is not a floating-point tensor"@,
            LayerFault::NotHalfMatrix { name } => name + " must be a rank-2 F16 tensor"@,
            LayerFault::InputWidth { prefix, width, expected } => prefix + " input width Some("@
                + text::decimal(width as nat) + ") does not match mapped weight width "@
                + text::decimal(expected as nat),
            LayerFault::NotHalf { name, dtype } => name + " must be F16, got "@
                + pack::dtype_text(dtype),
            LayerFault::ViewShape { name, shape, expected } => name + " shape is "@
                + text::bracketed(shape) + "; expected "@ + text::bracketed(expected),
            LayerFault::TextShape { hidden, shape } => "CLIP head split requires [1, 77, "@
                + text::decimal(hidden as nat) + "], got "@ + text::bracketed(shape),
            LayerFault::Tensor(fault) => fault.text(),
            LayerFault::Layout(fault) => fault.text(),
        }
    }
}

impl LayerError {
    /// The message for people.
    pub fn message(&self) -> (message: String)
        ensures
            message@ == self@.text(),
    {
        match self {
            LayerError::Access(error) => error.message(),
            LayerError::NotFloating { name } => {
                let mut out = name.clone();
                out.append(" is not a floating-point tensor");
                out
            },
            LayerError::NotHalfMatrix { name } => {
                let mut out = name.clone();
                out.append(" must be a rank-2 F16 tensor");
                out
            },
            LayerError::InputWidth { prefix, width, expected } => {
                let mut out = prefix.clone();
                out.append(" input width Some(");
                push_usize(&mut out, *width);
                out.append(") does not match mapped weight width ");
                push_usize(&mut out, *expected);
                out
            },
            LayerError::NotHalf { name, dtype } => {
                let mut out = name.clone();
                out.append(" must be F16, got ");
                out.append(dtype_name(*dtype));
                out
            },
            LayerError::ViewShape { name, shape, expected } => {
                let mut out = name.clone();
                out.append(" shape is ");
                push_bracketed(&mut out, shape);
                out.append("; expected ");
                push_bracketed(&mut out, expected);
                out
            },
            LayerError::TextShape { hidden, shape } => {
                let mut out = String::new();
                out.append("CLIP head split requires [1, 77, ");
                push_usize(&mut out, *hidden);
                out.append("], got ");
                push_bracketed(&mut out, shape);
                out
            },
            LayerError::Tensor(error) => error.message(),
            LayerError::Layout(error) => error.message(),
        }
    }
}

/// A layer that turns one tensor into another.
#[derive(Clone, Debug)]
pub enum Layer {
    /// A convolution with a bias, with the same stride and the same padding on both axes.
    Conv { prefix: String, stride: usize, padding: usize },
    /// A convolution of single elements, where the file has its weights; else nothing.
    Shortcut { prefix: String },
    /// Normalization over groups of channels.
    GroupNorm { prefix: String, epsilon: u32 },
    /// Normalization over the last dimension.
    LayerNorm { prefix: String, epsilon: u32 },
    /// Normalization over the last dimension, with weights of any type.
    TextNorm { prefix: String, epsilon: u32 },
    /// A linear projection, with a bias where the file has one.
    Linear { prefix: String },
    /// A linear projection with a half-precision matrix and bias.
    TextLinear { prefix: String },
    /// Nothing, for a text of 77 rows of the given width.
    TextRows { hidden: usize },
    Silu,
    Gelu,
    QuickGelu,
    /// Values gated by the other half of each row.
    Geglu,
    /// An image as the sequence of its positions.
    Sequence,
    /// A sequence split into heads.
    Split { heads: usize },
    /// Heads merged into a sequence.
    Merge,
    /// An image of twice the height and the width.
    Upsample,
}

/// A [`Layer`] with its prefix as a sequence.
pub enum LayerData {
    Conv { prefix: Seq<char>, stride: usize, padding: usize },
    Shortcut { prefix: Seq<char> },
    GroupNorm { prefix: Seq<char>, epsilon: u32 },
    LayerNorm { prefix: Seq<char>, epsilon: u32 },
    TextNorm { prefix: Seq<char>, epsilon: u32 },
    Linear { prefix: Seq<char> },
    TextLinear { prefix: Seq<char> },
    TextRows { hidden: usize },
    Silu,
    Gelu,
    QuickGelu,
    Geglu,
    Sequence,
    Split { heads: usize },
    Merge,
    Upsample,
}

impl View for Layer {
    type V = LayerData;

    open spec fn view(&self) -> LayerData {
        match *self {
            Layer::Conv { prefix, stride, padding } => LayerData::Conv {
                prefix: prefix@,
                stride,
                padding,
            },
            Layer::Shortcut { prefix } => LayerData::Shortcut { prefix: prefix@ },
            Layer::GroupNorm { prefix, epsilon } => LayerData::GroupNorm {
                prefix: prefix@,
                epsilon,
            },
            Layer::LayerNorm { prefix, epsilon } => LayerData::LayerNorm {
                prefix: prefix@,
                epsilon,
            },
            Layer::TextNorm { prefix, epsilon } => LayerData::TextNorm {
                prefix: prefix@,
                epsilon,
            },
            Layer::Linear { prefix } => LayerData::Linear { prefix: prefix@ },
            Layer::TextLinear { prefix } => LayerData::TextLinear { prefix: prefix@ },
            Layer::TextRows { hidden } => LayerData::TextRows { hidden },
            Layer::Silu => LayerData::Silu,
            Layer::Gelu => LayerData::Gelu,
            Layer::QuickGelu => LayerData::QuickGelu,
            Layer::Geglu => LayerData::Geglu,
            Layer::Sequence => LayerData::Sequence,
            Layer::Split { heads } => LayerData::Split { heads },
            Layer::Merge => LayerData::Merge,
            Layer::Upsample => LayerData::Upsample,
        }
    }
}

/// A weight file: its bytes and the tensors that it lists.
pub struct Weights {
    pub list: pack::Listing,
    pub file: Seq<u8>,
}

impl<'a> SafeTensorFile<'a> {
    /// The file's bytes and tensors.
    pub open spec fn weights(&self) -> Weights {
        Weights { list: self.tensors(), file: self.file() }
    }
}

impl Weights {
    /// The file lists a tensor of this name.
    pub open spec fn has(self, name: Seq<char>) -> bool {
        safetensors::lookup(self.list, name) is Some
    }

    /// The shape of a tensor.
    pub open spec fn shape(self, name: Seq<char>) -> Seq<usize> {
        safetensors::lookup(self.list, name)->0.shape
    }

    /// Why the file has no tensor of this name, if it has none.
    pub open spec fn absence(self, name: Seq<char>) -> Option<LayerFault> {
        if self.has(name) {
            None
        } else {
            Some(LayerFault::Access(TensorAccessFault::NotFound { name }))
        }
    }

    /// Why a tensor cannot be used as a weight, if it cannot.
    pub open spec fn fault(self, name: Seq<char>) -> Option<LayerFault> {
        pack::either(
            self.absence(name),
            if safetensors::lookup(self.list, name)->0.dtype == DType::I64 {
                Some(LayerFault::NotFloating { name })
            } else {
                None
            },
        )
    }

    /// Why a tensor of any type, or of a floating-point type, cannot be used, if it cannot.
    pub open spec fn norm_fault(self, name: Seq<char>, any: bool) -> Option<LayerFault> {
        if any {
            self.absence(name)
        } else {
            self.fault(name)
        }
    }

    /// Why a tensor is not a half-precision tensor of a shape, if it is not.
    pub open spec fn view_fault(self, name: Seq<char>, expected: Seq<usize>) -> Option<LayerFault> {
        let data = safetensors::lookup(self.list, name)->0;
        if data.dtype != DType::F16 {
            Some(LayerFault::NotHalf { name, dtype: data.dtype })
        } else if data.shape != expected {
            Some(LayerFault::ViewShape { name, shape: data.shape, expected })
        } else {
            None
        }
    }
}

/// The name of a weight under a prefix.
pub open spec fn weight_of(prefix: Seq<char>) -> Seq<char> {
    prefix + ".weight"@
}

/// The name of a bias under a prefix.
pub open spec fn bias_of(prefix: Seq<char>) -> Seq<char> {
    prefix + ".bias"@
}

/// The name of a weight under a prefix.
fn weight_name(prefix: &str) -> (name: String)
    ensures
        name@ == weight_of(prefix@),
{
    let mut name = prefix.to_owned();
    name.append(".weight");
    name
}

/// The name of a bias under a prefix.
fn bias_name(prefix: &str) -> (name: String)
    ensures
        name@ == bias_of(prefix@),
{
    let mut name = prefix.to_owned();
    name.append(".bias");
    name
}

/// The contents of an optional tensor.
pub open spec fn optional_array<T>(tensor: Option<Tensor<T>>) -> Option<Array<T>> {
    match tensor {
        Some(tensor) => Some(tensor.array()),
        None => None,
    }
}

/// A fault of a tensor operator is one of the layer.
pub open spec fn tensor_fault(fault: Option<TensorFault>) -> Option<LayerFault> {
    match fault {
        Some(fault) => Some(LayerFault::Tensor(fault)),
        None => None,
    }
}

/// A fault of a layout is one of the layer.
pub open spec fn layout_fault(fault: Option<LayoutFault>) -> Option<LayerFault> {
    match fault {
        Some(fault) => Some(LayerFault::Layout(fault)),
        None => None,
    }
}

/// Why a convolution fails, if it does.
pub open spec fn conv_fault(
    weights: Weights,
    prefix: Seq<char>,
    dims: Seq<usize>,
    stride: usize,
    padding: usize,
) -> Option<LayerFault> {
    pack::either(
        pack::either(weights.fault(weight_of(prefix)), weights.fault(bias_of(prefix))),
        tensor_fault(
            conv::conv2d_refusal(
                dims,
                weights.shape(weight_of(prefix)),
                Some(weights.shape(bias_of(prefix))),
                [stride, stride],
                [padding, padding],
                [1usize, 1usize],
                1,
            ),
        ),
    )
}

/// Why a linear projection fails, if it does.
pub open spec fn linear_fault(weights: Weights, prefix: Seq<char>, dims: Seq<usize>) -> Option<
    LayerFault,
> {
    pack::either(
        pack::either(
            weights.fault(weight_of(prefix)),
            if weights.has(bias_of(prefix)) {
                weights.fault(bias_of(prefix))
            } else {
                None
            },
        ),
        tensor_fault(
            tensor::linear_refusal(
                dims,
                weights.shape(weight_of(prefix)),
                if weights.has(bias_of(prefix)) {
                    Some(weights.shape(bias_of(prefix)))
                } else {
                    None
                },
            ),
        ),
    )
}

/// Why a linear projection with a half-precision matrix fails, if it does.
pub open spec fn text_linear_fault(
    weights: Weights,
    prefix: Seq<char>,
    dims: Seq<usize>,
) -> Option<LayerFault> {
    let name = weight_of(prefix);
    let shape = weights.shape(name);
    pack::either(
        pack::either(weights.absence(name), weights.absence(bias_of(prefix))),
        if safetensors::lookup(weights.list, name)->0.dtype != DType::F16 || shape.len() != 2 {
            Some(LayerFault::NotHalfMatrix { name })
        } else if dims.last() != shape[1] {
            Some(
                LayerFault::InputWidth { prefix, width: dims.last(), expected: shape[1] },
            )
        } else {
            pack::either(
                weights.view_fault(bias_of(prefix), seq![shape[0]]),
                tensor_fault(
                    tensor::linear_refusal(dims, shape, Some(weights.shape(bias_of(prefix)))),
                ),
            )
        },
    )
}

/// Why a layer fails on a tensor of a shape, if it does.
pub open spec fn fault(weights: Weights, layer: LayerData, dims: Seq<usize>) -> Option<LayerFault> {
    match layer {
        LayerData::Conv { prefix, stride, padding } => conv_fault(
            weights,
            prefix,
            dims,
            stride,
            padding,
        ),
        LayerData::Shortcut { prefix } => if weights.has(weight_of(prefix)) {
            conv_fault(weights, prefix, dims, 1, 0)
        } else {
            None
        },
        LayerData::GroupNorm { prefix, epsilon } => pack::either(
            pack::either(weights.fault(weight_of(prefix)), weights.fault(bias_of(prefix))),
            tensor_fault(
                norm::group_norm_refusal(
                    dims,
                    GROUPS,
                    weights.shape(weight_of(prefix)),
                    weights.shape(bias_of(prefix)),
                    epsilon,
                ),
            ),
        ),
        LayerData::LayerNorm { prefix, epsilon } => pack::either(
            pack::either(weights.fault(weight_of(prefix)), weights.fault(bias_of(prefix))),
            tensor_fault(
                norm::layer_norm_refusal(
                    dims,
                    weights.shape(weight_of(prefix)),
                    weights.shape(bias_of(prefix)),
                    epsilon,
                ),
            ),
        ),
        LayerData::TextNorm { prefix, epsilon } => pack::either(
            pack::either(weights.absence(weight_of(prefix)), weights.absence(bias_of(prefix))),
            tensor_fault(
                norm::layer_norm_refusal(
                    dims,
                    weights.shape(weight_of(prefix)),
                    weights.shape(bias_of(prefix)),
                    epsilon,
                ),
            ),
        ),
        LayerData::Linear { prefix } => linear_fault(weights, prefix, dims),
        LayerData::TextLinear { prefix } => text_linear_fault(weights, prefix, dims),
        LayerData::TextRows { hidden } => if dims != seq![1usize, 77usize, hidden] {
            Some(LayerFault::TextShape { hidden, shape: dims })
        } else {
            None
        },
        LayerData::Silu | LayerData::Gelu | LayerData::QuickGelu => None,
        LayerData::Geglu => if dims.last() % 2 != 0 {
            Some(LayerFault::Layout(LayoutFault::GegluWidth { width: dims.last() }))
        } else {
            None
        },
        LayerData::Sequence => if dims.len() != 4 {
            Some(LayerFault::Layout(LayoutFault::SequenceRank))
        } else {
            None
        },
        LayerData::Split { heads } => layout_fault(reshape::split_refusal(dims, heads)),
        LayerData::Merge => if dims.len() != 4 {
            Some(LayerFault::Layout(LayoutFault::MergeRank { shape: dims }))
        } else {
            None
        },
        LayerData::Upsample => tensor_fault(image::upsample_refusal(dims, [2usize, 2usize])),
    }
}

/// The normalization of rows, with weights of any type or of a floating-point type.
pub open spec fn norm_layer(prefix: Seq<char>, epsilon: u32, any: bool) -> LayerData {
    if any {
        LayerData::TextNorm { prefix, epsilon }
    } else {
        LayerData::LayerNorm { prefix, epsilon }
    }
}

/// Refuses a tensor that is not a half-precision tensor of a shape.
pub fn require_view(view: &TensorView, name: &str, expected: &[usize]) -> (refusal: Option<
    LayerError,
>)
    ensures
        match refusal {
            Some(error) => error@ == (if view.dtype != DType::F16 {
                LayerFault::NotHalf { name: name@, dtype: view.dtype }
            } else {
                LayerFault::ViewShape { name: name@, shape: view.shape@, expected: expected@ }
            }),
            None => true,
        },
        refusal is None <==> view.dtype == DType::F16 && view.shape@ == expected@,
{
    if view.dtype != DType::F16 {
        return Some(LayerError::NotHalf { name: name.to_owned(), dtype: view.dtype });
    }
    if !same_dims(view.shape, expected) {
        return Some(
            LayerError::ViewShape {
                name: name.to_owned(),
                shape: vstd::slice::slice_to_vec(view.shape),
                expected: vstd::slice::slice_to_vec(expected),
            },
        );
    }
    None
}

/// The arithmetic of the networks, on elements of type `T`.
#[derive(Clone, Copy)]
pub struct Kernels<T, M, P, G, L, E, Q, A, B, C, H, N> {
    pub zero: T,
    /// A product added to a sum.
    pub mac: M,
    pub plus: P,
    /// A value times the activation of its gate.
    pub gate: G,
    pub silu: L,
    pub gelu: E,
    pub quick_gelu: Q,
    /// Mean and scale of a row.
    pub statistics: A,
    /// An element normalized, with its weight and bias.
    pub rescale: B,
    /// An attention score scaled for a head's width.
    pub scale: C,
    pub softmax: H,
    /// The number that an element of a weight file stands for.
    pub number: N,
}

impl<
    T: Copy,
    S: Copy,
    M: Fn(T, T, T) -> T + Copy,
    P: Fn(T, T) -> T + Copy,
    G: Fn(T, T) -> T + Copy,
    L: Fn(T) -> T + Copy,
    E: Fn(T) -> T + Copy,
    Q: Fn(T) -> T + Copy,
    A: Fn(&[T], u32) -> S + Copy,
    B: Fn(T, S, T, T) -> T + Copy,
    C: Fn(T, usize) -> T + Copy,
    H: Fn(Vec<T>) -> Vec<T> + Copy,
    N: Fn(Scalar) -> T + Copy,
> Kernels<T, M, P, G, L, E, Q, A, B, C, H, N> {
    /// Every function accepts every argument, and the softmax keeps the number of scores.
    pub open spec fn usable(self) -> bool {
        &&& attention::usable(self.mac, self.scale, self.softmax)
        &&& fold::total2(self.plus)
        &&& fold::total2(self.gate)
        &&& fold::total1(self.silu)
        &&& fold::total1(self.gelu)
        &&& fold::total1(self.quick_gelu)
        &&& norm::accepts_all(self.statistics, self.rescale)
        &&& fold::total1(self.number)
    }

    /// `array` is a tensor of the file, element by element.
    pub open spec fn loads(self, weights: Weights, name: Seq<char>, array: Array<T>) -> bool {
        &&& weights.has(name)
        &&& array.wf()
        &&& array.dims == weights.shape(name)
        &&& forall|k: int|
            0 <= k < array.data.len() ==> self.loads_element(
                weights,
                name,
                k,
                #[trigger] array.data[k],
            )
    }

    /// `value` is element `k` of a tensor of the file.
    pub open spec fn loads_element(
        self,
        weights: Weights,
        name: Seq<char>,
        k: int,
        value: T,
    ) -> bool {
        let data = safetensors::lookup(weights.list, name)->0;
        exists|scalar: Scalar|
            {
                &&& safetensors::scalar_is(
                    data.dtype,
                    weights.file.subrange(data.start as int, data.end as int),
                    k,
                    scalar,
                )
                &&& #[trigger] call_ensures(self.number, (scalar,), value)
            }
    }

    /// `out` is each element of `input` activated.
    pub open spec fn maps<F: Fn(T) -> T>(step: F, input: Array<T>, out: Array<T>) -> bool {
        &&& out.dims == input.dims
        &&& out.data.len() == input.data.len()
        &&& forall|i: int|
            0 <= i < input.data.len() ==> call_ensures(
                step,
                (input.data[i],),
                #[trigger] out.data[i],
            )
    }

    /// `out` is the elements of two tensors added.
    pub open spec fn adds(self, a: Array<T>, b: Array<T>, out: Array<T>) -> bool {
        &&& out.dims == a.dims
        &&& out.data.len() == a.data.len()
        &&& forall|i: int|
            0 <= i < a.data.len() ==> call_ensures(
                self.plus,
                (a.data[i], b.data[i]),
                #[trigger] out.data[i],
            )
    }

    /// The value that a sum for output `o` starts from.
    pub open spec fn start(self, bias: Option<Array<T>>, o: int) -> T {
        match bias {
            Some(array) => array.data[o],
            None => self.zero,
        }
    }

    /// `out` is the linear projection of the last dimension.
    pub open spec fn projects(
        self,
        input: Array<T>,
        weight: Array<T>,
        bias: Option<Array<T>>,
        out: Array<T>,
    ) -> bool {
        &&& out.dims == input.dims.update(input.dims.len() - 1, weight.dims[0])
        &&& forall|row: int, o: int|
            #![trigger out.data[row * weight.dims[0] + o]]
            0 <= row < input.data.len() / (weight.dims[1] as nat) && 0 <= o < weight.dims[0]
                ==> fold::accumulates(
                self.mac,
                input.data,
                weight.data,
                fold::run(
                    row * weight.dims[1],
                    o * weight.dims[1],
                    weight.dims[1] as nat,
                ),
                self.start(bias, o),
                out.data[row * weight.dims[0] + o],
            )
    }

    /// `out` is the convolution of an image.
    pub open spec fn convolves(
        self,
        input: Array<T>,
        weight: Array<T>,
        bias: Array<T>,
        stride: usize,
        padding: usize,
        out: Array<T>,
    ) -> bool {
        exists|g: Conv2d|
            {
                &&& #[trigger] g.wf()
                &&& g.input@ == input.dims
                &&& g.weight@ == weight.dims
                &&& g.stride == [stride, stride]
                &&& g.padding == [padding, padding]
                &&& g.dilation == [1usize, 1usize]
                &&& g.groups == 1
                &&& out.dims == g.out_dims()
                &&& forall|n: int, oc: int, y: int, x: int|
                    #![trigger g.window(n, oc, y, x)]
                    layout::inside4(g.out_dims(), n, oc, y, x) ==> fold::accumulates(
                        self.mac,
                        input.data,
                        weight.data,
                        g.window(n, oc, y, x),
                        bias.data[oc],
                        out.data[layout::offset4(g.out_dims(), n, oc, y, x)],
                    )
            }
    }

    /// `out` is each row of the last dimension normalized.
    pub open spec fn normalizes_rows(
        self,
        input: Array<T>,
        weight: Array<T>,
        bias: Array<T>,
        epsilon: u32,
        out: Array<T>,
    ) -> bool {
        &&& out.dims == input.dims
        &&& forall|row: int|
            0 <= row < input.data.len() / (input.dims.last() as nat) ==> norm::normalized(
                self.statistics,
                self.rescale,
                epsilon,
                norm::row_of(input.data, row, input.dims.last() as int),
                weight.data,
                bias.data,
                #[trigger] norm::row_of(out.data, row, input.dims.last() as int),
            )
    }

    /// `out` is each group of channels normalized.
    pub open spec fn normalizes_groups(
        self,
        input: Array<T>,
        weight: Array<T>,
        bias: Array<T>,
        epsilon: u32,
        out: Array<T>,
    ) -> bool {
        let per_group = input.dims[1] / GROUPS;
        let plane = input.dims[2] * input.dims[3];
        let len = per_group * plane;
        &&& out.dims == input.dims
        &&& forall|row: int|
            0 <= row < input.dims[0] * GROUPS ==> norm::normalized(
                self.statistics,
                self.rescale,
                epsilon,
                norm::row_of(input.data, row, len),
                norm::spread(
                    weight.data,
                    (row % GROUPS as int) * per_group,
                    plane,
                    len as nat,
                ),
                norm::spread(bias.data, (row % GROUPS as int) * per_group, plane, len as nat),
                #[trigger] norm::row_of(out.data, row, len),
            )
    }

    /// `out` is an image in which every element of `input` stands four times.
    pub open spec fn doubles(input: Array<T>, out: Array<T>) -> bool {
        &&& out.dims == seq![
            input.dims[0],
            input.dims[1],
            (input.dims[2] * 2) as usize,
            (input.dims[3] * 2) as usize,
        ]
        &&& forall|n: int, c: int, y: int, x: int|
            #![trigger layout::offset4(out.dims, n, c, y, x)]
            layout::inside4(out.dims, n, c, y, x) ==> out.data[layout::offset4(
                out.dims,
                n,
                c,
                y,
                x,
            )] == input.data[layout::offset4(input.dims, n, c, y / 2, x / 2)]
    }

    /// `out` is a convolution with weights of the file.
    pub open spec fn convolves_with(
        self,
        weights: Weights,
        prefix: Seq<char>,
        stride: usize,
        padding: usize,
        input: Array<T>,
        out: Array<T>,
    ) -> bool {
        exists|weight: Array<T>, bias: Array<T>|
            {
                &&& #[trigger] self.loads(weights, weight_of(prefix), weight)
                &&& #[trigger] self.loads(weights, bias_of(prefix), bias)
                &&& self.convolves(input, weight, bias, stride, padding, out)
            }
    }

    /// `out` is a linear projection with weights of the file.
    pub open spec fn projects_with(
        self,
        weights: Weights,
        prefix: Seq<char>,
        input: Array<T>,
        out: Array<T>,
    ) -> bool {
        exists|weight: Array<T>, bias: Option<Array<T>>|
            {
                &&& #[trigger] self.loads(weights, weight_of(prefix), weight)
                &&& bias is Some <==> weights.has(bias_of(prefix))
                &&& bias is Some ==> self.loads(weights, bias_of(prefix), bias->0)
                &&& #[trigger] self.projects(input, weight, bias, out)
            }
    }

    /// `out` is each row normalized with weights of the file.
    pub open spec fn normalizes_with(
        self,
        weights: Weights,
        prefix: Seq<char>,
        epsilon: u32,
        input: Array<T>,
        out: Array<T>,
    ) -> bool {
        exists|weight: Array<T>, bias: Array<T>|
            {
                &&& #[trigger] self.loads(weights, weight_of(prefix), weight)
                &&& #[trigger] self.loads(weights, bias_of(prefix), bias)
                &&& self.normalizes_rows(input, weight, bias, epsilon, out)
            }
    }

    /// `out` is what a layer makes of `input`.
    pub open spec fn applies(
        self,
        weights: Weights,
        layer: LayerData,
        input: Array<T>,
        out: Array<T>,
    ) -> bool {
        &&& out.wf()
        &&& match layer {
            LayerData::Conv { prefix, stride, padding } => self.convolves_with(
                weights,
                prefix,
                stride,
                padding,
                input,
                out,
            ),
            LayerData::Shortcut { prefix } => if weights.has(weight_of(prefix)) {
                self.convolves_with(weights, prefix, 1, 0, input, out)
            } else {
                out == input
            },
            LayerData::GroupNorm { prefix, epsilon } => exists|weight: Array<T>, bias: Array<T>|
                {
                    &&& #[trigger] self.loads(weights, weight_of(prefix), weight)
                    &&& #[trigger] self.loads(weights, bias_of(prefix), bias)
                    &&& self.normalizes_groups(input, weight, bias, epsilon, out)
                },
            LayerData::LayerNorm { prefix, epsilon } | LayerData::TextNorm {
                prefix,
                epsilon,
            } => self.normalizes_with(weights, prefix, epsilon, input, out),
            LayerData::Linear { prefix } | LayerData::TextLinear { prefix } => self.projects_with(
                weights,
                prefix,
                input,
                out,
            ),
            LayerData::TextRows { .. } => out == input,
            LayerData::Silu => Self::maps(self.silu, input, out),
            LayerData::Gelu => Self::maps(self.gelu, input, out),
            LayerData::QuickGelu => Self::maps(self.quick_gelu, input, out),
            LayerData::Geglu => reshape::gated(self.gate, input, out),
            LayerData::Sequence => out == reshape::sequenced(input),
            LayerData::Split { heads } => out == reshape::split(input, heads),
            LayerData::Merge => out == reshape::merged(input),
            LayerData::Upsample => Self::doubles(input, out),
        }
    }

    /// A tensor of the file, of any type.
    pub fn load_any(&self, file: &SafeTensorFile, name: &str) -> (result: Result<
        Tensor<T>,
        LayerError,
    >)
        requires
            self.usable(),
            file.wf(),
        ensures
            match file.weights().absence(name@) {
                Some(fault) => result is Err && result->Err_0@ == fault,
                None => result is Ok && result->Ok_0.wf() && self.loads(
                    file.weights(),
                    name@,
                    result->Ok_0.array(),
                ),
            },
    {
        let view = match file.view(name) {
            Ok(view) => view,
            Err(error) => {
                return Err(LayerError::Access(error));
            },
        };
        let len: usize = view.len();
        let mut data: Vec<T> = Vec::with_capacity(len);
        let mut k: usize = 0;
        while k < len
            invariant
                k == data@.len() <= len,
                self.usable(),
                view.wf(),
                len == layout::product(view.shape@),
                file.weights().has(name@),
                view.dtype == safetensors::lookup(file.tensors(), name@)->0.dtype,
                view.payload@ == file.file().subrange(
                    safetensors::lookup(file.tensors(), name@)->0.start as int,
                    safetensors::lookup(file.tensors(), name@)->0.end as int,
                ),
                forall|j: int|
                    0 <= j < k ==> self.loads_element(
                        file.weights(),
                        name@,
                        j,
                        #[trigger] data@[j],
                    ),
            decreases len - k,
        {
            let scalar = view.value(k);
            let value = (self.number)(scalar);
            proof {
                assert(call_ensures(self.number, (scalar,), value));
                assert(self.loads_element(file.weights(), name@, k as int, value));
            }
            data.push(value);
            k = k + 1;
        }
        Ok(Tensor::from_parts(vstd::slice::slice_to_vec(view.shape), data))
    }

    /// A tensor of the file, of a floating-point type.
    pub fn load_tensor(&self, file: &SafeTensorFile, name: &str) -> (result: Result<
        Tensor<T>,
        LayerError,
    >)
        requires
            self.usable(),
            file.wf(),
        ensures
            match file.weights().fault(name@) {
                Some(fault) => result is Err && result->Err_0@ == fault,
                None => result is Ok && result->Ok_0.wf() && self.loads(
                    file.weights(),
                    name@,
                    result->Ok_0.array(),
                ),
            },
    {
        if let Some(info) = file.info(name) {
            if info.dtype == DType::I64 {
                return Err(LayerError::NotFloating { name: name.to_owned() });
            }
        }
        self.load_any(file, name)
    }

    /// A convolution with weights of the file.
    fn conv2d(
        &self,
        file: &SafeTensorFile,
        prefix: &str,
        stride: usize,
        padding: usize,
        input: &Tensor<T>,
    ) -> (result: Result<Tensor<T>, LayerError>)
        requires
            self.usable(),
            file.wf(),
            input.wf(),
        ensures
            match conv_fault(file.weights(), prefix@, input.dims(), stride, padding) {
                Some(fault) => result is Err && result->Err_0@ == fault,
                None => result is Ok && result->Ok_0.wf() && self.convolves_with(
                    file.weights(),
                    prefix@,
                    stride,
                    padding,
                    input.array(),
                    result->Ok_0.array(),
                ),
            },
    {
        let weight = match self.load_tensor(file, weight_name(prefix).as_str()) {
            Ok(weight) => weight,
            Err(error) => {
                return Err(error);
            },
        };
        let bias = match self.load_tensor(file, bias_name(prefix).as_str()) {
            Ok(bias) => bias,
            Err(error) => {
                return Err(error);
            },
        };
        match input.conv2d(
            &weight,
            Some(&bias),
            [stride, stride],
            [padding, padding],
            [1, 1],
            1,
            self.zero,
            self.mac,
        ) {
            Ok(out) => {
                proof {
                    assert(self.convolves(
                        input.array(),
                        weight.array(),
                        bias.array(),
                        stride,
                        padding,
                        out.array(),
                    ));
                }
                Ok(out)
            },
            Err(error) => Err(LayerError::Tensor(error)),
        }
    }

    /// A linear projection with weights of the file.
    fn linear(&self, file: &SafeTensorFile, prefix: &str, input: &Tensor<T>) -> (result: Result<
        Tensor<T>,
        LayerError,
    >)
        requires
            self.usable(),
            file.wf(),
            input.wf(),
        ensures
            match linear_fault(file.weights(), prefix@, input.dims()) {
                Some(fault) => result is Err && result->Err_0@ == fault,
                None => result is Ok && result->Ok_0.wf() && self.projects_with(
                    file.weights(),
                    prefix@,
                    input.array(),
                    result->Ok_0.array(),
                ),
            },
    {
        let weight = match self.load_tensor(file, weight_name(prefix).as_str()) {
            Ok(weight) => weight,
            Err(error) => {
                return Err(error);
            },
        };
        let name = bias_name(prefix);
        let bias: Option<Tensor<T>> = match file.info(name.as_str()) {
            Some(_) => match self.load_tensor(file, name.as_str()) {
                Ok(bias) => Some(bias),
                Err(error) => {
                    return Err(error);
                },
            },
            None => None,
        };
        let ghost bias_array: Option<Array<T>> = optional_array(bias);
        match input.linear(&weight, bias.as_ref(), self.zero, self.mac) {
            Ok(out) => {
                proof {
                    assert(self.projects(input.array(), weight.array(), bias_array, out.array()));
                }
                Ok(out)
            },
            Err(error) => Err(LayerError::Tensor(error)),
        }
    }

    /// A linear projection with a half-precision matrix and bias.
    fn text_linear(&self, file: &SafeTensorFile, prefix: &str, input: &Tensor<T>) -> (result: Result<
        Tensor<T>,
        LayerError,
    >)
        requires
            self.usable(),
            file.wf(),
            input.wf(),
        ensures
            match text_linear_fault(file.weights(), prefix@, input.dims()) {
                Some(fault) => result is Err && result->Err_0@ == fault,
                None => result is Ok && result->Ok_0.wf() && self.projects_with(
                    file.weights(),
                    prefix@,
                    input.array(),
                    result->Ok_0.array(),
                ),
            },
    {
        let name = weight_name(prefix);
        let second = bias_name(prefix);
        let view = match file.view(name.as_str()) {
            Ok(view) => view,
            Err(error) => {
                return Err(LayerError::Access(error));
            },
        };
        let bias_view = match file.view(second.as_str()) {
            Ok(view) => view,
            Err(error) => {
                return Err(LayerError::Access(error));
            },
        };
        assert(view.shape@.len() == view.shape.len());
        if view.dtype != DType::F16 || view.shape.len() != 2 {
            return Err(LayerError::NotHalfMatrix { name });
        }
        let shape = input.shape();
        assert(shape@.len() == shape.len());
        let width: usize = shape[shape.len() - 1];
        if width != view.shape[1] {
            return Err(
                LayerError::InputWidth {
                    prefix: prefix.to_owned(),
                    width,
                    expected: view.shape[1],
                },
            );
        }
        let expected: [usize; 1] = [view.shape[0]];
        assert(expected@ =~= seq![view.shape@[0]]);
        match require_view(&bias_view, second.as_str(), &expected) {
            Some(error) => {
                return Err(error);
            },
            None => {},
        }
        let weight = match self.load_any(file, name.as_str()) {
            Ok(weight) => weight,
            Err(error) => {
                return Err(error);
            },
        };
        let bias = match self.load_any(file, second.as_str()) {
            Ok(bias) => bias,
            Err(error) => {
                return Err(error);
            },
        };
        match input.linear(&weight, Some(&bias), self.zero, self.mac) {
            Ok(out) => {
                proof {
                    assert(self.projects(
                        input.array(),
                        weight.array(),
                        Some(bias.array()),
                        out.array(),
                    ));
                }
                Ok(out)
            },
            Err(error) => Err(LayerError::Tensor(error)),
        }
    }

    /// Normalization over groups of channels, with weights of the file.
    fn group_norm(
        &self,
        file: &SafeTensorFile,
        prefix: &str,
        epsilon: u32,
        input: &Tensor<T>,
    ) -> (result: Result<Tensor<T>, LayerError>)
        requires
            self.usable(),
            file.wf(),
            input.wf(),
        ensures
            match fault(
                file.weights(),
                (LayerData::GroupNorm { prefix: prefix@, epsilon }),
                input.dims(),
            ) {
                Some(fault) => result is Err && result->Err_0@ == fault,
                None => result is Ok && self.applies(
                    file.weights(),
                    (LayerData::GroupNorm { prefix: prefix@, epsilon }),
                    input.array(),
                    result->Ok_0.array(),
                ),
            },
    {
        let weight = match self.load_tensor(file, weight_name(prefix).as_str()) {
            Ok(weight) => weight,
            Err(error) => {
                return Err(error);
            },
        };
        let bias = match self.load_tensor(file, bias_name(prefix).as_str()) {
            Ok(bias) => bias,
            Err(error) => {
                return Err(error);
            },
        };
        match input.group_norm(GROUPS, &weight, &bias, epsilon, self.statistics, self.rescale) {
            Ok(out) => {
                proof {
                    assert(self.normalizes_groups(
                        input.array(),
                        weight.array(),
                        bias.array(),
                        epsilon,
                        out.array(),
                    ));
                }
                Ok(out)
            },
            Err(error) => Err(LayerError::Tensor(error)),
        }
    }

    /// A tensor of the file, of any type or of a floating-point type.
    fn load_norm(&self, file: &SafeTensorFile, name: &str, any: bool) -> (result: Result<
        Tensor<T>,
        LayerError,
    >)
        requires
            self.usable(),
            file.wf(),
        ensures
            match file.weights().norm_fault(name@, any) {
                Some(fault) => result is Err && result->Err_0@ == fault,
                None => result is Ok && result->Ok_0.wf() && self.loads(
                    file.weights(),
                    name@,
                    result->Ok_0.array(),
                ),
            },
    {
        if any {
            self.load_any(file, name)
        } else {
            self.load_tensor(file, name)
        }
    }

    /// Normalization over the last dimension, with weights of the file.
    fn layer_norm(
        &self,
        file: &SafeTensorFile,
        prefix: &str,
        epsilon: u32,
        any: bool,
        input: &Tensor<T>,
    ) -> (result: Result<Tensor<T>, LayerError>)
        requires
            self.usable(),
            file.wf(),
            input.wf(),
        ensures
            match fault(file.weights(), norm_layer(prefix@, epsilon, any), input.dims()) {
                Some(fault) => result is Err && result->Err_0@ == fault,
                None => result is Ok && self.applies(
                    file.weights(),
                    norm_layer(prefix@, epsilon, any),
                    input.array(),
                    result->Ok_0.array(),
                ),
            },
    {
        let weight = match self.load_norm(file, weight_name(prefix).as_str(), any) {
            Ok(weight) => weight,
            Err(error) => {
                return Err(error);
            },
        };
        let bias = match self.load_norm(file, bias_name(prefix).as_str(), any) {
            Ok(bias) => bias,
            Err(error) => {
                return Err(error);
            },
        };
        match input.layer_norm(&weight, &bias, epsilon, self.statistics, self.rescale) {
            Ok(out) => {
                proof {
                    assert(self.normalizes_rows(
                        input.array(),
                        weight.array(),
                        bias.array(),
                        epsilon,
                        out.array(),
                    ));
                }
                Ok(out)
            },
            Err(error) => Err(LayerError::Tensor(error)),
        }
    }

    /// Applies a layer.
    pub fn apply(&self, file: &SafeTensorFile, layer: &Layer, input: &Tensor<T>) -> (result: Result<
        Tensor<T>,
        LayerError,
    >)
        requires
            self.usable(),
            file.wf(),
            input.wf(),
        ensures
            match fault(file.weights(), layer@, input.dims()) {
                Some(fault) => result is Err && result->Err_0@ == fault,
                None => result is Ok && result->Ok_0.wf() && self.applies(
                    file.weights(),
                    layer@,
                    input.array(),
                    result->Ok_0.array(),
                ),
            },
    {
        match layer {
            Layer::Conv { prefix, stride, padding } => self.conv2d(
                file,
                prefix.as_str(),
                *stride,
                *padding,
                input,
            ),
            Layer::Shortcut { prefix } => {
                match file.info(weight_name(prefix.as_str()).as_str()) {
                    Some(_) => self.conv2d(file, prefix.as_str(), 1, 0, input),
                    None => Ok(input.duplicate()),
                }
            },
            Layer::GroupNorm { prefix, epsilon } => self.group_norm(
                file,
                prefix.as_str(),
                *epsilon,
                input,
            ),
            Layer::LayerNorm { prefix, epsilon } => self.layer_norm(
                file,
                prefix.as_str(),
                *epsilon,
                false,
                input,
            ),
            Layer::TextNorm { prefix, epsilon } => self.layer_norm(
                file,
                prefix.as_str(),
                *epsilon,
                true,
                input,
            ),
            Layer::TextLinear { prefix } => self.text_linear(file, prefix.as_str(), input),
            Layer::TextRows { hidden } => {
                let expected: [usize; 3] = [1, 77, *hidden];
                assert(expected@ =~= seq![1usize, 77usize, *hidden]);
                if !same_dims(input.shape(), &expected) {
                    return Err(
                        LayerError::TextShape {
                            hidden: *hidden,
                            shape: vstd::slice::slice_to_vec(input.shape()),
                        },
                    );
                }
                Ok(input.duplicate())
            },
            Layer::Linear { prefix } => self.linear(file, prefix.as_str(), input),
            Layer::Silu => Ok(input.map(self.silu)),
            Layer::Gelu => Ok(input.map(self.gelu)),
            Layer::QuickGelu => Ok(input.map(self.quick_gelu)),
            Layer::Geglu => match geglu(input, self.gate) {
                Ok(out) => Ok(out),
                Err(error) => Err(LayerError::Layout(error)),
            },
            Layer::Sequence => match nchw_to_sequence(input) {
                Ok(out) => Ok(out),
                Err(error) => Err(LayerError::Layout(error)),
            },
            Layer::Split { heads } => match split_heads(input, *heads) {
                Ok(out) => Ok(out),
                Err(error) => Err(LayerError::Layout(error)),
            },
            Layer::Merge => match merge_heads(input) {
                Ok(out) => Ok(out),
                Err(error) => Err(LayerError::Layout(error)),
            },
            Layer::Upsample => match input.upsample_nearest2d([2, 2]) {
                Ok(out) => Ok(out),
                Err(error) => Err(LayerError::Tensor(error)),
            },
        }
    }
}

} // verus!
