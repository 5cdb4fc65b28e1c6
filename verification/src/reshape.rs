//! Moving the elements of tensors between layouts: attention heads, sequences, tiles and rows.

use vstd::prelude::*;
use crate::fold;
use crate::layout;
use crate::tensor;
use crate::tensor::{extend, same_dims, Tensor};
use crate::text;
use crate::text::{push_bracketed, push_usize};

verus! {

broadcast use vstd::string::group_string_axioms;

/// A tensor's shape and elements.
#[verifier::ext_equal]
pub struct Array<T> {
    pub dims: Seq<usize>,
    pub data: Seq<T>,
}

impl<T> Array<T> {
    /// The shape is valid and the elements fill it.
    pub open spec fn wf(self) -> bool {
        &&& tensor::valid_shape(self.dims)
        &&& layout::product(self.dims) == self.data.len()
    }
}

impl<T> Tensor<T> {
    /// The tensor's shape and elements.
    pub open spec fn array(&self) -> Array<T> {
        Array { dims: self.dims(), data: self@ }
    }
}

/// Why a layout is not made.
#[derive(Clone, Debug, PartialEq, Eq)]
pub enum LayoutError {
    SplitRank { shape: Vec<usize> },
    SplitHeads { heads: usize, channels: usize },
    MergeRank { shape: Vec<usize> },
    SequenceRank,
    SequenceSize { shape: Vec<usize>, height: usize, width: usize },
    BiasRank,
    BiasShape { shape: Vec<usize>, batch: usize, channels: usize },
    GegluWidth { width: usize },
    ConcatShapes { first: Vec<usize>, second: Vec<usize> },
    ConcatSize,
}

/// What a [`LayoutError`] says, with shapes as sequences.
pub enum LayoutFault {
    SplitRank { shape: Seq<usize> },
    SplitHeads { heads: usize, channels: usize },
    MergeRank { shape: Seq<usize> },
    SequenceRank,
    SequenceSize { shape: Seq<usize>, height: usize, width: usize },
    BiasRank,
    BiasShape { shape: Seq<usize>, batch: usize, channels: usize },
    GegluWidth { width: usize },
    ConcatShapes { first: Seq<usize>, second: Seq<usize> },
    ConcatSize,
}

impl View for LayoutError {
    type V = LayoutFault;

    open spec fn view(&self) -> LayoutFault {
        match *self {
            LayoutError::SplitRank { shape } => LayoutFault::SplitRank { shape: shape@ },
            LayoutError::SplitHeads { heads, channels } => LayoutFault::SplitHeads {
                heads,
                channels,
            },
            LayoutError::MergeRank { shape } => LayoutFault::MergeRank { shape: shape@ },
            LayoutError::SequenceRank => LayoutFault::SequenceRank,
            LayoutError::SequenceSize { shape, height, width } => LayoutFault::SequenceSize {
                shape: shape@,
                height,
                width,
            },
            LayoutError::BiasRank => LayoutFault::BiasRank,
            LayoutError::BiasShape { shape, batch, channels } => LayoutFault::BiasShape {
                shape: shape@,
                batch,
                channels,
            },
            LayoutError::GegluWidth { width } => LayoutFault::GegluWidth { width },
            LayoutError::ConcatShapes { first, second } => LayoutFault::ConcatShapes {
                first: first@,
                second: second@,
            },
            LayoutError::ConcatSize => LayoutFault::ConcatSize,
        }
    }
}

impl LayoutFault {
    /// The message for people.
    pub open spec fn text(self) -> Seq<char> {
        match self {
            LayoutFault::SplitRank { shape } => "attention head split requires rank 3, got "@
                + text::bracketed(shape),
            LayoutFault::SplitHeads { heads, channels } => text::decimal(heads as nat)
                + " attention heads do not divide "@ + text::decimal(channels as nat)
                + " channels"@,
            LayoutFault::MergeRank { shape } => "attention head merge requires rank 4, got "@
                + text::bracketed(shape),
            LayoutFault::SequenceRank => "NCHW-to-sequence requires rank 4"@,
            LayoutFault::SequenceSize { shape, height, width } => "sequence shape "@
                + text::bracketed(shape) + " is incompatible with "@ + text::decimal(height as nat)
                + "x"@ + text::decimal(width as nat),
            LayoutFault::BiasRank => "channel bias input must be NCHW"@,
            LayoutFault::BiasShape { shape, batch, channels } => "channel bias shape "@
                + text::bracketed(shape) + " must be ["@ + text::decimal(batch as nat) + ", "@
                + text::decimal(channels as nat) + "]"@,
            LayoutFault::GegluWidth { width } => "GEGLU projection width "@ + text::decimal(
                width as nat,
            ) + " is not even"@,
            LayoutFault::ConcatShapes { first, second } => "context concat shape mismatch: "@
                + text::bracketed(first) + " vs "@ + text::bracketed(second),
            LayoutFault::ConcatSize => "context concat size overflow"@,
        }
    }
}

impl LayoutError {
    /// The message for people.
    pub fn message(&self) -> (message: String)
        ensures
            message@ == self@.text(),
    {
        let mut out = String::new();
        match self {
            LayoutError::SplitRank { shape } => {
                out.append("attention head split requires rank 3, got ");
                push_bracketed(&mut out, shape);
            },
            LayoutError::SplitHeads { heads, channels } => {
                push_usize(&mut out, *heads);
                out.append(" attention heads do not divide ");
                push_usize(&mut out, *channels);
                out.append(" channels");
            },
            LayoutError::MergeRank { shape } => {
                out.append("attention head merge requires rank 4, got ");
                push_bracketed(&mut out, shape);
            },
            LayoutError::SequenceRank => {
                out.append("NCHW-to-sequence requires rank 4");
            },
            LayoutError::SequenceSize { shape, height, width } => {
                out.append("sequence shape ");
                push_bracketed(&mut out, shape);
                out.append(" is incompatible with ");
                push_usize(&mut out, *height);
                out.append("x");
                push_usize(&mut out, *width);
            },
            LayoutError::BiasRank => {
                out.append("channel bias input must be NCHW");
            },
            LayoutError::BiasShape { shape, batch, channels } => {
                out.append("channel bias shape ");
                push_bracketed(&mut out, shape);
                out.append(" must be [");
                push_usize(&mut out, *batch);
                out.append(", ");
                push_usize(&mut out, *channels);
                out.append("]");
            },
            LayoutError::GegluWidth { width } => {
                out.append("GEGLU projection width ");
                push_usize(&mut out, *width);
                out.append(" is not even");
            },
            LayoutError::ConcatShapes { first, second } => {
                out.append("context concat shape mismatch: ");
                push_bracketed(&mut out, first);
                out.append(" vs ");
                push_bracketed(&mut out, second);
            },
            LayoutError::ConcatSize => {
                out.append("context concat size overflow");
            },
        }
        out
    }
}

/// The shape of a sequence split into heads.
pub open spec fn split_dims(dims: Seq<usize>, heads: usize) -> Seq<usize> {
    seq![dims[0], heads, dims[1], (dims[2] / heads) as usize]
}

/// A sequence of channels split into heads: each head has its own run of channels at every
/// position.
pub open spec fn split<T>(input: Array<T>, heads: usize) -> Array<T> {
    let dims = split_dims(input.dims, heads);
    Array {
        dims,
        data: Seq::new(
            input.data.len(),
            |k: int|
                {
                    let (b, h, p, d) = layout::coord4(dims, k);
                    input.data[layout::offset3(input.dims, b, p, h * dims[3] + d)]
                },
        ),
    }
}

/// The shape of heads merged into a sequence.
pub open spec fn merged_dims(dims: Seq<usize>) -> Seq<usize> {
    seq![dims[0], dims[2], (dims[1] * dims[3]) as usize]
}

/// Heads merged into a sequence of channels.
pub open spec fn merged<T>(input: Array<T>) -> Array<T> {
    let dims = merged_dims(input.dims);
    Array {
        dims,
        data: Seq::new(
            input.data.len(),
            |k: int|
                {
                    let (b, p, c) = layout::coord3(dims, k);
                    input.data[layout::offset4(
                        input.dims,
                        b,
                        c / input.dims[3] as int,
                        p,
                        c % input.dims[3] as int,
                    )]
                },
        ),
    }
}

/// Why a sequence is not split into heads, if it is not.
pub open spec fn split_refusal(dims: Seq<usize>, heads: usize) -> Option<LayoutFault> {
    if dims.len() != 3 {
        Some(LayoutFault::SplitRank { shape: dims })
    } else if heads == 0 || dims[2] % heads != 0 {
        Some(LayoutFault::SplitHeads { heads, channels: dims[2] })
    } else {
        None
    }
}

/// The shape of heads holds as many elements as the sequence.
proof fn lemma_split_dims(dims: Seq<usize>, heads: usize)
    requires
        tensor::valid_shape(dims),
        split_refusal(dims, heads) is None,
    ensures
        tensor::valid_shape(split_dims(dims, heads)),
        layout::product(split_dims(dims, heads)) == layout::product(dims),
        (dims[2] / heads) * heads == dims[2],
        dims[2] / heads > 0,
{
    let out = split_dims(dims, heads);
    layout::lemma_product_small(dims);
    layout::lemma_product_small(out);
    layout::lemma_product_positive(dims);
    let w = (dims[2] / heads) as int;
    let h = heads as int;
    let c = dims[2] as int;
    vstd::arithmetic::div_mod::lemma_fundamental_div_mod(c, h);
    assert(h * w == c);
    assert(w * h == h * w) by (nonlinear_arith);
    let a = dims[0] as int;
    let s = dims[1] as int;
    assert(a * h * s * w == a * s * c) by (nonlinear_arith)
        requires
            h * w == c,
    ;
    assert(w > 0) by (nonlinear_arith)
        requires
            h * w == c,
            c > 0,
            h > 0,
    ;
}

/// Splits a sequence into heads.
pub fn split_heads<T: Copy>(input: &Tensor<T>, heads: usize) -> (result: Result<
    Tensor<T>,
    LayoutError,
>)
    requires
        input.wf(),
    ensures
        match split_refusal(input.dims(), heads) {
            Some(fault) => result is Err && result->Err_0@ == fault,
            None => result is Ok && result->Ok_0.wf() && result->Ok_0.array() == split(
                input.array(),
                heads,
            ),
        },
{
    let shape = input.shape();
    if shape.len() != 3 {
        return Err(LayoutError::SplitRank { shape: vstd::slice::slice_to_vec(shape) });
    }
    let batch: usize = shape[0];
    let sequence: usize = shape[1];
    let channels: usize = shape[2];
    if heads == 0 || channels % heads != 0 {
        return Err(LayoutError::SplitHeads { heads, channels });
    }
    let width: usize = channels / heads;
    let data = input.data();
    let len: usize = data.len();
    let ghost dims = split_dims(input.dims(), heads);
    proof {
        lemma_split_dims(input.dims(), heads);
        layout::lemma_product_positive(input.dims());
    }
    let mut out: Vec<T> = Vec::with_capacity(len);
    let mut k: usize = 0;
    while k < len
        invariant
            k == out@.len() <= len,
            len == data@.len() == input@.len(),
            data@ == input@,
            input.wf(),
            input.dims().len() == 3,
            sequence == input.dims()[1],
            channels == input.dims()[2],
            dims == split_dims(input.dims(), heads),
            layout::product(dims) == len,
            width == dims[3],
            width > 0,
            heads > 0,
            sequence > 0,
            width * heads == channels,
            forall|i: int|
                0 <= i < k ==> #[trigger] out@[i] == split(input.array(), heads).data[i],
        decreases len - k,
    {
        proof {
            layout::lemma_coord4(dims, k as int);
        }
        let d: usize = k % width;
        let row: usize = k / width;
        let p: usize = row % sequence;
        let sample_head: usize = row / sequence;
        let h: usize = sample_head % heads;
        let b: usize = sample_head / heads;
        proof {
            assert((b as int, h as int, p as int, d as int) == layout::coord4(dims, k as int));
            layout::lemma_cell(h as int, heads as int, d as int, width as int);
            assert(heads * width == channels) by (nonlinear_arith)
                requires
                    width * heads == channels,
            ;
            layout::lemma_offset3(input.dims(), b as int, p as int, h * width + d);
            assert(0 <= b * sequence) by (nonlinear_arith)
                requires
                    0 <= b,
                    0 <= sequence,
            ;
            assert((b * sequence + p) * channels >= b * sequence + p) by (nonlinear_arith)
                requires
                    channels > 0,
                    b * sequence + p >= 0,
            ;
        }
        out.push(data[(b * sequence + p) * channels + (h * width + d)]);
        k = k + 1;
    }
    let out_shape: Vec<usize> = vec![batch, heads, sequence, width];
    proof {
        assert(out_shape@ =~= dims);
        assert(out@ =~= split(input.array(), heads).data);
    }
    Ok(Tensor::from_parts(out_shape, out))
}

/// The shape of a sequence holds as many elements as the heads.
proof fn lemma_merged_dims(dims: Seq<usize>)
    requires
        tensor::valid_shape(dims),
        dims.len() == 4,
    ensures
        dims[1] * dims[3] <= usize::MAX,
        tensor::valid_shape(merged_dims(dims)),
        layout::product(merged_dims(dims)) == layout::product(dims),
{
    layout::lemma_product_small(dims);
    layout::lemma_product_positive(dims);
    let a = dims[0] as int;
    let h = dims[1] as int;
    let s = dims[2] as int;
    let w = dims[3] as int;
    assert(a * h * s * w == a * s * (h * w)) by (nonlinear_arith);
    assert(h * w <= a * s * (h * w)) by (nonlinear_arith)
        requires
            a > 0,
            s > 0,
            h > 0,
            w > 0,
    ;
    layout::lemma_product_small(merged_dims(dims));
}

/// Merges heads into a sequence.
pub fn merge_heads<T: Copy>(input: &Tensor<T>) -> (result: Result<Tensor<T>, LayoutError>)
    requires
        input.wf(),
    ensures
        input.dims().len() != 4 ==> result is Err && result->Err_0@ == (LayoutFault::MergeRank {
            shape: input.dims(),
        }),
        input.dims().len() == 4 ==> result is Ok && result->Ok_0.wf() && result->Ok_0.array()
            == merged(input.array()),
{
    let shape = input.shape();
    if shape.len() != 4 {
        return Err(LayoutError::MergeRank { shape: vstd::slice::slice_to_vec(shape) });
    }
    let batch: usize = shape[0];
    let heads: usize = shape[1];
    let sequence: usize = shape[2];
    let width: usize = shape[3];
    let data = input.data();
    let len: usize = data.len();
    let ghost dims = merged_dims(input.dims());
    proof {
        lemma_merged_dims(input.dims());
        layout::lemma_product_positive(input.dims());
        assert(heads * width > 0) by (nonlinear_arith)
            requires
                heads > 0,
                width > 0,
        ;
    }
    let channels: usize = heads * width;
    let mut out: Vec<T> = Vec::with_capacity(len);
    let mut k: usize = 0;
    while k < len
        invariant
            k == out@.len() <= len,
            len == data@.len() == input@.len(),
            data@ == input@,
            input.wf(),
            input.dims().len() == 4,
            input.dims() == seq![batch, heads, sequence, width],
            dims == merged_dims(input.dims()),
            layout::product(dims) == len,
            channels == heads * width,
            channels == dims[2],
            sequence == dims[1],
            width > 0,
            sequence > 0,
            channels > 0,
            forall|i: int| 0 <= i < k ==> #[trigger] out@[i] == merged(input.array()).data[i],
        decreases len - k,
    {
        proof {
            layout::lemma_coord3(dims, k as int);
        }
        let c: usize = k % channels;
        let row: usize = k / channels;
        let p: usize = row % sequence;
        let b: usize = row / sequence;
        let h: usize = c / width;
        let d: usize = c % width;
        proof {
            layout::lemma_divide(c as int, heads as int, width as int);
            layout::lemma_offset4(input.dims(), b as int, h as int, p as int, d as int);
            let x = b * heads + h;
            let y = x * sequence + p;
            assert(0 <= b * heads) by (nonlinear_arith)
                requires
                    0 <= b,
                    0 <= heads,
            ;
            assert(x <= x * sequence) by (nonlinear_arith)
                requires
                    x >= 0,
                    sequence > 0,
            ;
            assert(y <= y * width) by (nonlinear_arith)
                requires
                    y >= 0,
                    width > 0,
            ;
        }
        out.push(data[((b * heads + h) * sequence + p) * width + d]);
        k = k + 1;
    }
    let out_shape: Vec<usize> = vec![batch, sequence, channels];
    proof {
        assert(out_shape@ =~= dims);
        assert(out@ =~= merged(input.array()).data);
    }
    Ok(Tensor::from_parts(out_shape, out))
}

/// Merging undoes splitting.
pub proof fn merging_undoes_splitting<T>(input: Array<T>, heads: usize)
    requires
        input.wf(),
        split_refusal(input.dims, heads) is None,
    ensures
        merged(split(input, heads)) == input,
{
    let s = split(input, heads);
    let m = merged(s);
    lemma_split_dims(input.dims, heads);
    lemma_merged_dims(s.dims);
    layout::lemma_product_positive(input.dims);
    let width = s.dims[3] as int;
    assert(heads * width == input.dims[2]) by (nonlinear_arith)
        requires
            width * heads == input.dims[2],
    ;
    assert(m.dims =~= input.dims);
    assert forall|k: int| 0 <= k < input.data.len() implies m.data[k] == input.data[k] by {
        layout::lemma_coord3(input.dims, k);
        let (b, p, c) = layout::coord3(input.dims, k);
        layout::lemma_divide(c, heads as int, width);
        let h = c / width;
        let d = c % width;
        layout::lemma_offset4(s.dims, b, h, p, d);
        assert(m.data[k] == s.data[layout::offset4(s.dims, b, h, p, d)]);
    }
    assert(m.data =~= input.data);
}

/// The shape of an image as a sequence of its positions.
pub open spec fn sequence_dims(dims: Seq<usize>) -> Seq<usize> {
    seq![dims[0], (dims[2] * dims[3]) as usize, dims[1]]
}

/// An image as the sequence of its positions, each with all its channels.
pub open spec fn sequenced<T>(input: Array<T>) -> Array<T> {
    let dims = sequence_dims(input.dims);
    Array {
        dims,
        data: Seq::new(
            input.data.len(),
            |k: int|
                {
                    let (b, p, c) = layout::coord3(dims, k);
                    input.data[(b * input.dims[1] + c) * (input.dims[2] * input.dims[3]) + p]
                },
        ),
    }
}

/// A sequence of positions as an image of the given height and width.
pub open spec fn imaged<T>(input: Array<T>, height: usize, width: usize) -> Array<T> {
    let dims = seq![input.dims[0], input.dims[2], height, width];
    let positions = input.dims[1] as int;
    let channels = input.dims[2] as int;
    Array {
        dims,
        data: Seq::new(
            input.data.len(),
            |k: int|
                {
                    let plane = k / positions;
                    let p = k % positions;
                    input.data[layout::offset3(
                        input.dims,
                        plane / channels,
                        p,
                        plane % channels,
                    )]
                },
        ),
    }
}

/// An image has as many elements as its sequence.
proof fn lemma_sequence_dims(dims: Seq<usize>)
    requires
        tensor::valid_shape(dims),
        dims.len() == 4,
    ensures
        dims[2] * dims[3] <= usize::MAX,
        0 < dims[2] * dims[3],
        tensor::valid_shape(sequence_dims(dims)),
        layout::product(sequence_dims(dims)) == layout::product(dims),
        layout::product(dims) == dims[0] * dims[1] * (dims[2] * dims[3]),
{
    layout::lemma_product_small(dims);
    layout::lemma_product_positive(dims);
    let a = dims[0] as int;
    let c = dims[1] as int;
    let h = dims[2] as int;
    let w = dims[3] as int;
    assert(a * c * h * w == a * (h * w) * c && a * c * h * w == a * c * (h * w))
        by (nonlinear_arith);
    assert(0 < h * w && h * w <= a * (h * w) * c) by (nonlinear_arith)
        requires
            a > 0,
            c > 0,
            h > 0,
            w > 0,
    ;
    layout::lemma_product_small(sequence_dims(dims));
}

/// Turns an image into the sequence of its positions.
pub fn nchw_to_sequence<T: Copy>(input: &Tensor<T>) -> (result: Result<Tensor<T>, LayoutError>)
    requires
        input.wf(),
    ensures
        input.dims().len() != 4 ==> result == Err::<Tensor<T>, _>(LayoutError::SequenceRank),
        input.dims().len() == 4 ==> result is Ok && result->Ok_0.wf() && result->Ok_0.array()
            == sequenced(input.array()),
{
    let shape = input.shape();
    if shape.len() != 4 {
        return Err(LayoutError::SequenceRank);
    }
    let batch: usize = shape[0];
    let channels: usize = shape[1];
    let data = input.data();
    let len: usize = data.len();
    let ghost dims = sequence_dims(input.dims());
    proof {
        lemma_sequence_dims(input.dims());
        layout::lemma_product_positive(input.dims());
    }
    let positions: usize = shape[2] * shape[3];
    let mut out: Vec<T> = Vec::with_capacity(len);
    let mut k: usize = 0;
    while k < len
        invariant
            k == out@.len() <= len,
            len == data@.len() == input@.len(),
            data@ == input@,
            input.wf(),
            input.dims().len() == 4,
            batch == input.dims()[0],
            channels == input.dims()[1],
            positions == input.dims()[2] * input.dims()[3],
            dims == sequence_dims(input.dims()),
            layout::product(dims) == len,
            len == batch * channels * positions,
            positions == dims[1],
            channels == dims[2],
            positions > 0,
            channels > 0,
            forall|i: int| 0 <= i < k ==> #[trigger] out@[i] == sequenced(input.array()).data[i],
        decreases len - k,
    {
        proof {
            layout::lemma_coord3(dims, k as int);
        }
        let c: usize = k % channels;
        let row: usize = k / channels;
        let p: usize = row % positions;
        let b: usize = row / positions;
        proof {
            layout::lemma_cell(b as int, batch as int, c as int, channels as int);
            layout::lemma_cell(
                b * channels + c,
                batch * channels,
                p as int,
                positions as int,
            );
            let y = b * channels + c;
            assert(y <= y * positions) by (nonlinear_arith)
                requires
                    y >= 0,
                    positions > 0,
            ;
        }
        out.push(data[(b * channels + c) * positions + p]);
        k = k + 1;
    }
    let out_shape: Vec<usize> = vec![batch, positions, channels];
    proof {
        assert(out_shape@ =~= dims);
        assert(out@ =~= sequenced(input.array()).data);
    }
    Ok(Tensor::from_parts(out_shape, out))
}

/// Why a sequence is not turned into an image, if it is not.
pub open spec fn image_refusal(dims: Seq<usize>, height: usize, width: usize) -> Option<
    LayoutFault,
> {
    if dims.len() != 3 || dims[1] != height * width {
        Some(LayoutFault::SequenceSize { shape: dims, height, width })
    } else {
        None
    }
}

/// A sequence has as many elements as its image.
proof fn lemma_image_dims(dims: Seq<usize>, height: usize, width: usize)
    requires
        tensor::valid_shape(dims),
        image_refusal(dims, height, width) is None,
    ensures
        tensor::valid_shape(seq![dims[0], dims[2], height, width]),
        layout::product(seq![dims[0], dims[2], height, width]) == layout::product(dims),
        layout::product(dims) == dims[0] * dims[2] * dims[1],
{
    layout::lemma_product_small(dims);
    layout::lemma_product_positive(dims);
    let out = seq![dims[0], dims[2], height, width];
    layout::lemma_product_small(out);
    let a = dims[0] as int;
    let p = dims[1] as int;
    let c = dims[2] as int;
    let h = height as int;
    let w = width as int;
    assert(a * c * h * w == a * p * c && a * p * c == a * c * p) by (nonlinear_arith)
        requires
            p == h * w,
    ;
}

/// Turns a sequence of positions into an image.
pub fn sequence_to_nchw<T: Copy>(input: &Tensor<T>, height: usize, width: usize) -> (result: Result<
    Tensor<T>,
    LayoutError,
>)
    requires
        input.wf(),
    ensures
        match image_refusal(input.dims(), height, width) {
            Some(fault) => result is Err && result->Err_0@ == fault,
            None => result is Ok && result->Ok_0.wf() && result->Ok_0.array() == imaged(
                input.array(),
                height,
                width,
            ),
        },
{
    let shape = input.shape();
    let fits: bool = shape.len() == 3 && match height.checked_mul(width) {
        Some(positions) => shape[1] == positions,
        None => false,
    };
    if !fits {
        return Err(
            LayoutError::SequenceSize { shape: vstd::slice::slice_to_vec(shape), height, width },
        );
    }
    let batch: usize = shape[0];
    let positions: usize = shape[1];
    let channels: usize = shape[2];
    let data = input.data();
    let len: usize = data.len();
    let ghost dims = seq![batch, channels, height, width];
    proof {
        lemma_image_dims(input.dims(), height, width);
        layout::lemma_product_positive(input.dims());
    }
    let mut out: Vec<T> = Vec::with_capacity(len);
    let mut k: usize = 0;
    while k < len
        invariant
            k == out@.len() <= len,
            len == data@.len() == input@.len(),
            data@ == input@,
            input.wf(),
            input.dims().len() == 3,
            input.dims() == seq![batch, positions, channels],
            len == batch * channels * positions,
            positions > 0,
            channels > 0,
            forall|i: int|
                0 <= i < k ==> #[trigger] out@[i] == imaged(input.array(), height, width).data[i],
        decreases len - k,
    {
        let plane: usize = k / positions;
        let p: usize = k % positions;
        let c: usize = plane % channels;
        let b: usize = plane / channels;
        proof {
            layout::lemma_divide(k as int, batch * channels, positions as int);
            layout::lemma_divide(plane as int, batch as int, channels as int);
            layout::lemma_offset3(input.dims(), b as int, p as int, c as int);
            let y = b * positions + p;
            assert(0 <= b * positions) by (nonlinear_arith)
                requires
                    0 <= b,
                    0 <= positions,
            ;
            assert(y <= y * channels) by (nonlinear_arith)
                requires
                    y >= 0,
                    channels > 0,
            ;
        }
        out.push(data[(b * positions + p) * channels + c]);
        k = k + 1;
    }
    let out_shape: Vec<usize> = vec![batch, channels, height, width];
    proof {
        assert(out_shape@ =~= dims);
        assert(out@ =~= imaged(input.array(), height, width).data);
    }
    Ok(Tensor::from_parts(out_shape, out))
}

/// Turning an image into a sequence can be undone.
pub proof fn imaging_undoes_sequencing<T>(input: Array<T>)
    requires
        input.wf(),
        input.dims.len() == 4,
    ensures
        imaged(sequenced(input), input.dims[2], input.dims[3]) == input,
{
    let s = sequenced(input);
    let m = imaged(s, input.dims[2], input.dims[3]);
    lemma_sequence_dims(input.dims);
    layout::lemma_product_positive(input.dims);
    let positions = s.dims[1] as int;
    let channels = s.dims[2] as int;
    let batch = input.dims[0] as int;
    assert(m.dims =~= input.dims);
    assert forall|k: int| 0 <= k < input.data.len() implies m.data[k] == input.data[k] by {
        layout::lemma_divide(k, batch * channels, positions);
        let plane = k / positions;
        let p = k % positions;
        layout::lemma_divide(plane, batch, channels);
        let b = plane / channels;
        let c = plane % channels;
        layout::lemma_offset3(s.dims, b, p, c);
        assert(m.data[k] == s.data[layout::offset3(s.dims, b, p, c)]);
    }
    assert(m.data =~= input.data);
}

/// `out` is an image with one number combined with every element of each plane.
pub open spec fn biased<T, F: Fn(T, T) -> T>(
    plus: F,
    input: Array<T>,
    bias: Seq<T>,
    out: Array<T>,
) -> bool {
    &&& out.dims == input.dims
    &&& out.data.len() == input.data.len()
    &&& forall|k: int|
        0 <= k < input.data.len() ==> call_ensures(
            plus,
            (input.data[k], bias[k / (input.dims[2] * input.dims[3])]),
            #[trigger] out.data[k],
        )
}

/// Why a bias is not applied to the channels of an image, if it is not.
pub open spec fn bias_refusal(dims: Seq<usize>, bias: Seq<usize>) -> Option<LayoutFault> {
    if dims.len() != 4 {
        Some(LayoutFault::BiasRank)
    } else if bias != seq![dims[0], dims[1]] {
        Some(LayoutFault::BiasShape { shape: bias, batch: dims[0], channels: dims[1] })
    } else {
        None
    }
}

/// Adds one number to every element of each plane.
pub fn add_channel_bias<T: Copy, F: Fn(T, T) -> T>(
    input: &Tensor<T>,
    bias: &Tensor<T>,
    plus: F,
) -> (result: Result<Tensor<T>, LayoutError>)
    requires
        input.wf(),
        bias.wf(),
        fold::total2(plus),
    ensures
        match bias_refusal(input.dims(), bias.dims()) {
            Some(fault) => result is Err && result->Err_0@ == fault,
            None => result is Ok && result->Ok_0.wf() && biased(
                plus,
                input.array(),
                bias@,
                result->Ok_0.array(),
            ),
        },
{
    let shape = input.shape();
    if shape.len() != 4 {
        return Err(LayoutError::BiasRank);
    }
    let batch: usize = shape[0];
    let channels: usize = shape[1];
    let expected: [usize; 2] = [batch, channels];
    assert(expected@ =~= seq![batch, channels]);
    if !same_dims(bias.shape(), &expected) {
        return Err(
            LayoutError::BiasShape {
                shape: vstd::slice::slice_to_vec(bias.shape()),
                batch,
                channels,
            },
        );
    }
    proof {
        lemma_sequence_dims(input.dims());
        layout::lemma_product_small(bias.dims());
    }
    let plane: usize = shape[2] * shape[3];
    let data = input.data();
    let numbers = bias.data();
    let len: usize = data.len();
    let mut out: Vec<T> = Vec::with_capacity(len);
    let mut k: usize = 0;
    while k < len
        invariant
            k == out@.len() <= len,
            len == data@.len(),
            data@ == input@,
            numbers@ == bias@,
            numbers@.len() == batch * channels,
            len == batch * channels * plane,
            plane == input.dims()[2] * input.dims()[3],
            plane > 0,
            fold::total2(plus),
            forall|i: int|
                0 <= i < k ==> call_ensures(
                    plus,
                    (input@[i], bias@[i / (input.dims()[2] * input.dims()[3])]),
                    #[trigger] out@[i],
                ),
        decreases len - k,
    {
        proof {
            layout::lemma_divide(k as int, batch * channels, plane as int);
        }
        out.push(plus(data[k], numbers[k / plane]));
        k = k + 1;
    }
    Ok(Tensor::from_parts(vstd::slice::slice_to_vec(shape), out))
}

/// `out` holds, of each row of twice its width, the first half combined with the second.
pub open spec fn gated<T, F: Fn(T, T) -> T>(gate: F, input: Array<T>, out: Array<T>) -> bool {
    let total = input.dims.last() as int;
    let width = total / 2;
    &&& out.dims == input.dims.update(input.dims.len() - 1, width as usize)
    &&& out.data.len() == input.data.len() / 2
    &&& forall|k: int|
        0 <= k < out.data.len() ==> call_ensures(
            gate,
            (
                input.data[(k / width) * total + k % width],
                input.data[(k / width) * total + width + k % width],
            ),
            #[trigger] out.data[k],
        )
}

/// Halving the last dimension halves the number of elements.
proof fn lemma_gated_dims(dims: Seq<usize>)
    requires
        tensor::valid_shape(dims),
        dims.last() % 2 == 0,
    ensures
        ({
            let half = dims.update(dims.len() - 1, (dims.last() / 2) as usize);
            let rows = layout::product(dims.drop_last());
            &&& tensor::valid_shape(half)
            &&& layout::product(dims) == rows * dims.last()
            &&& layout::product(half) == rows * (dims.last() / 2)
            &&& 2 * layout::product(half) == layout::product(dims)
            &&& dims.last() / 2 > 0
        }),
{
    let half = dims.update(dims.len() - 1, (dims.last() / 2) as usize);
    assert(half.drop_last() =~= dims.drop_last());
    let rows = layout::product(dims.drop_last());
    let w = (dims.last() / 2) as nat;
    let d = dims.last() as nat;
    assert(d == 2 * w);
    assert(rows * d == 2 * (rows * w)) by (nonlinear_arith)
        requires
            d == 2 * w,
    ;
    assert(d > 0) by (nonlinear_arith)
        requires
            rows * d > 0,
    ;
}

/// Splits each row into values and gates, and combines each value with its gate.
pub fn geglu<T: Copy, F: Fn(T, T) -> T>(projected: &Tensor<T>, gate: F) -> (result: Result<
    Tensor<T>,
    LayoutError,
>)
    requires
        projected.wf(),
        fold::total2(gate),
    ensures
        projected.dims().last() % 2 != 0 ==> result == Err::<Tensor<T>, _>(
            LayoutError::GegluWidth { width: projected.dims().last() },
        ),
        projected.dims().last() % 2 == 0 ==> result is Ok && result->Ok_0.wf() && gated(
            gate,
            projected.array(),
            result->Ok_0.array(),
        ),
{
    let shape = projected.shape();
    let total: usize = shape[shape.len() - 1];
    if total % 2 != 0 {
        return Err(LayoutError::GegluWidth { width: total });
    }
    let width: usize = total / 2;
    let data = projected.data();
    let len: usize = data.len() / 2;
    let ghost rows = layout::product(projected.dims().drop_last()) as int;
    proof {
        lemma_gated_dims(projected.dims());
        assert(data@.len() == data.len());
        assert(rows * total == rows * (2 * width));
        assert(len == rows * width);
    }
    let mut out: Vec<T> = Vec::with_capacity(len);
    let mut k: usize = 0;
    while k < len
        invariant
            k == out@.len() <= len,
            data@ == projected@,
            data@.len() == data.len(),
            data@.len() == rows * total,
            len == rows * width,
            total == 2 * width,
            width > 0,
            fold::total2(gate),
            forall|i: int|
                0 <= i < k ==> call_ensures(
                    gate,
                    (
                        data@[(i / width as int) * total + i % width as int],
                        data@[(i / width as int) * total + width + i % width as int],
                    ),
                    #[trigger] out@[i],
                ),
        decreases len - k,
    {
        let row: usize = k / width;
        let column: usize = k % width;
        proof {
            layout::lemma_divide(k as int, rows, width as int);
            layout::lemma_cell(row as int, rows, column as int, total as int);
            layout::lemma_cell(row as int, rows, width + column, total as int);
        }
        out.push(gate(data[row * total + column], data[row * total + width + column]));
        k = k + 1;
    }
    let mut out_shape: Vec<usize> = vstd::slice::slice_to_vec(shape);
    let last: usize = out_shape.len() - 1;
    out_shape[last] = width;
    Ok(Tensor::from_parts(out_shape, out))
}

/// Two tensors of rank 3 joined along their last dimension.
pub open spec fn joined_last<T>(a: Array<T>, b: Array<T>) -> Array<T> {
    let width_a = a.dims[2] as int;
    let width_b = b.dims[2] as int;
    Array {
        dims: seq![a.dims[0], a.dims[1], (width_a + width_b) as usize],
        data: Seq::new(
            a.data.len() + b.data.len(),
            |k: int|
                {
                    let row = k / (width_a + width_b);
                    let column = k % (width_a + width_b);
                    if column < width_a {
                        a.data[row * width_a + column]
                    } else {
                        b.data[row * width_b + (column - width_a)]
                    }
                },
        ),
    }
}

/// Why two tensors are not joined along their last dimension, if they are not.
pub open spec fn join_refusal(a: Seq<usize>, b: Seq<usize>) -> Option<LayoutFault> {
    if a[0] != b[0] || a[1] != b[1] {
        Some(LayoutFault::ConcatShapes { first: a, second: b })
    } else if layout::product(a) + layout::product(b) > usize::MAX {
        Some(LayoutFault::ConcatSize)
    } else {
        None
    }
}

/// Joins two tensors of rank 3 along their last dimension.
pub fn concat_last_dim<T: Copy>(a: &Tensor<T>, b: &Tensor<T>) -> (result: Result<
    Tensor<T>,
    LayoutError,
>)
    requires
        a.wf(),
        b.wf(),
        a.dims().len() == 3,
        b.dims().len() == 3,
    ensures
        match join_refusal(a.dims(), b.dims()) {
            Some(fault) => result is Err && result->Err_0@ == fault,
            None => result is Ok && result->Ok_0.wf() && result->Ok_0.array() == joined_last(
                a.array(),
                b.array(),
            ),
        },
{
    let shape_a = a.shape();
    let shape_b = b.shape();
    if shape_a[0] != shape_b[0] || shape_a[1] != shape_b[1] {
        return Err(
            LayoutError::ConcatShapes {
                first: vstd::slice::slice_to_vec(shape_a),
                second: vstd::slice::slice_to_vec(shape_b),
            },
        );
    }
    let data_a = a.data();
    let data_b = b.data();
    if data_a.len() > usize::MAX - data_b.len() {
        return Err(LayoutError::ConcatSize);
    }
    let len: usize = data_a.len() + data_b.len();
    let width_a: usize = shape_a[2];
    let width_b: usize = shape_b[2];
    let ghost rows = shape_a@[0] * shape_a@[1];
    let ghost out_dims = joined_last(a.array(), b.array()).dims;
    proof {
        layout::lemma_product_small(a.dims());
        layout::lemma_product_small(b.dims());
        layout::lemma_product_positive(a.dims());
        layout::lemma_product_positive(b.dims());
        assert(rows > 0) by (nonlinear_arith)
            requires
                rows == shape_a@[0] * shape_a@[1],
                shape_a@[0] > 0,
                shape_a@[1] > 0,
        ;
        assert(rows * width_a + rows * width_b == rows * (width_a + width_b)) by (nonlinear_arith);
        let total = width_a + width_b;
        assert(total <= rows * total) by (nonlinear_arith)
            requires
                rows > 0,
                total >= 0,
        ;
        assert(len == rows * total);
    }
    let width: usize = width_a + width_b;
    let mut out: Vec<T> = Vec::with_capacity(len);
    let mut k: usize = 0;
    while k < len
        invariant
            k == out@.len() <= len,
            width == width_a + width_b,
            width_a > 0,
            len == rows * width,
            data_a@ == a@,
            data_b@ == b@,
            data_a@.len() == rows * width_a,
            data_b@.len() == rows * width_b,
            data_a@.len() == data_a.len(),
            data_b@.len() == data_b.len(),
            width_a == a.dims()[2],
            width_b == b.dims()[2],
            forall|i: int|
                0 <= i < k ==> #[trigger] out@[i] == joined_last(a.array(), b.array()).data[i],
            len == a@.len() + b@.len(),
        decreases len - k,
    {
        let row: usize = k / width;
        let column: usize = k % width;
        proof {
            layout::lemma_divide(k as int, rows, width as int);
        }
        if column < width_a {
            proof {
                layout::lemma_cell(row as int, rows, column as int, width_a as int);
            }
            out.push(data_a[row * width_a + column]);
        } else {
            proof {
                layout::lemma_cell(row as int, rows, column - width_a, width_b as int);
            }
            out.push(data_b[row * width_b + (column - width_a)]);
        }
        k = k + 1;
    }
    let out_shape: Vec<usize> = vec![shape_a[0], shape_a[1], width];
    proof {
        assert(out_shape@ =~= out_dims);
        layout::lemma_product_small(out_shape@);
        assert(out@ =~= joined_last(a.array(), b.array()).data);
    }
    Ok(Tensor::from_parts(out_shape, out))
}

/// A window of an image.
pub open spec fn window<T>(input: Array<T>, top: int, bottom: int, left: int, right: int) -> Array<
    T,
> {
    let dims = seq![1usize, input.dims[1], (bottom - top) as usize, (right - left) as usize];
    Array {
        dims,
        data: Seq::new(
            layout::product(dims),
            |k: int|
                {
                    let (n, c, y, x) = layout::coord4(dims, k);
                    input.data[layout::offset4(input.dims, 0, c, top + y, left + x)]
                },
        ),
    }
}

/// Cuts a window out of one image.
pub fn extract_tile<T: Copy>(
    input: &Tensor<T>,
    top: usize,
    bottom: usize,
    left: usize,
    right: usize,
) -> (tile: Tensor<T>)
    requires
        input.wf(),
        input.dims().len() == 4,
        input.dims()[0] == 1,
        top < bottom <= input.dims()[2],
        left < right <= input.dims()[3],
    ensures
        tile.wf(),
        tile.array() == window(
            input.array(),
            top as int,
            bottom as int,
            left as int,
            right as int,
        ),
{
    let shape = input.shape();
    let channels: usize = shape[1];
    let height: usize = shape[2];
    let width: usize = shape[3];
    let tile_height: usize = bottom - top;
    let tile_width: usize = right - left;
    let data = input.data();
    let ghost dims = window(
        input.array(),
        top as int,
        bottom as int,
        left as int,
        right as int,
    ).dims;
    proof {
        layout::lemma_product_small(input.dims());
        layout::lemma_product_positive(input.dims());
        layout::lemma_product_small(dims);
        layout::lemma_product_positive(dims);
        assert(data@.len() == data.len());
        let c = channels as int;
        let h = tile_height as int;
        let w = tile_width as int;
        let hh = height as int;
        let ww = width as int;
        assert(c * h * w <= c * hh * ww && c * h <= c * hh * ww && 0 < c * h * w && 0 <= c * h)
            by (nonlinear_arith)
            requires
                0 < c,
                0 < h <= hh,
                0 < w <= ww,
        ;
        assert(1 * c * h * w == c * h * w);
        assert(1 * c * hh * ww == c * hh * ww);
    }
    let len: usize = channels * tile_height * tile_width;
    let mut out: Vec<T> = Vec::with_capacity(len);
    let mut k: usize = 0;
    while k < len
        invariant
            k == out@.len() <= len,
            input.wf(),
            input.dims() == seq![1usize, channels, height, width],
            data@ == input@,
            data@.len() == data.len(),
            dims == seq![1usize, channels, tile_height, tile_width],
            layout::product(dims) == len,
            tile_height == bottom - top,
            tile_width == right - left,
            top < bottom <= height,
            left < right <= width,
            dims == window(
                input.array(),
                top as int,
                bottom as int,
                left as int,
                right as int,
            ).dims,
            forall|i: int|
                0 <= i < k ==> #[trigger] out@[i] == window(
                    input.array(),
                    top as int,
                    bottom as int,
                    left as int,
                    right as int,
                ).data[i],
        decreases len - k,
    {
        proof {
            layout::lemma_coord4(dims, k as int);
        }
        let x: usize = k % tile_width;
        let row: usize = k / tile_width;
        let y: usize = row % tile_height;
        let c: usize = row / tile_height;
        proof {
            let (n, cc, yy, xx) = layout::coord4(dims, k as int);
            assert(n == 0 && yy == y && xx == x);
            assert(row as int / tile_height as int == c);
            assert(c < channels) by {
                let p = channels * tile_height;
                layout::lemma_product_small(dims);
                assert(len == p * tile_width) by (nonlinear_arith)
                    requires
                        len == layout::product(dims),
                        layout::product(dims) == 1 * channels * tile_height * tile_width,
                        p == channels * tile_height,
                ;
                layout::lemma_divide(k as int, p, tile_width as int);
                layout::lemma_divide(row as int, channels as int, tile_height as int);
            }
            assert(cc == c) by {
                vstd::arithmetic::div_mod::lemma_small_mod(c as nat, channels as nat);
            }
            layout::lemma_offset4(input.dims(), 0, c as int, top + y, left + x);
            assert(layout::offset4(input.dims(), 0, c as int, top + y, left + x) == (c * height + (
            top + y)) * width + (left + x)) by (nonlinear_arith)
                requires
                    layout::offset4(input.dims(), 0, c as int, top + y, left + x) == ((0
                        * channels + c) * height + (top + y)) * width + (left + x),
            ;
            let z = c * height + (top + y);
            assert(0 <= c * height) by (nonlinear_arith)
                requires
                    0 <= c,
                    0 <= height,
            ;
            assert(z <= z * width) by (nonlinear_arith)
                requires
                    z >= 0,
                    width > 0,
            ;
        }
        out.push(data[(c * height + (top + y)) * width + (left + x)]);
        k = k + 1;
    }
    let out_shape: Vec<usize> = vec![1, channels, tile_height, tile_width];
    proof {
        assert(out_shape@ =~= dims);
        assert(out@ =~= window(
            input.array(),
            top as int,
            bottom as int,
            left as int,
            right as int,
        ).data);
    }
    Tensor::from_parts(out_shape, out)
}

impl<T: Copy> Tensor<T> {
    /// A copy.
    pub fn duplicate(&self) -> (copy: Self)
        requires
            self.wf(),
        ensures
            copy.wf(),
            copy.array() == self.array(),
    {
        let mut data: Vec<T> = Vec::with_capacity(self.len());
        extend(&mut data, self.data());
        proof {
            assert(data@ =~= self@);
        }
        Tensor::from_parts(vstd::slice::slice_to_vec(self.shape()), data)
    }
}

} // verus!
