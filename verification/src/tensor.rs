//! Dense tensors in row-major layout, and the operators the diffusion path is made of.
//!
//! Layout is explicit and contiguous: image operators use NCHW and attention uses BHQD. The
//! element type is a parameter, and so is every arithmetic step on elements: an operator takes the
//! step as a function and its contract says on which elements, and in which order, it is applied.

use vstd::prelude::*;
use crate::fold;
use crate::fold::dot;
use crate::layout;
use crate::tensor_error::{Quantity, TensorError, TensorFault};

verus! {

broadcast use vstd::string::group_string_axioms;

/// What counting the elements of a shape comes to: the product, or the first thing wrong with it.
pub open spec fn counted(shape: Seq<usize>) -> Result<nat, TensorError>
    decreases shape.len(),
{
    if shape.len() == 0 {
        Ok(1)
    } else {
        match counted(shape.drop_last()) {
            Err(error) => Err(error),
            Ok(total) => if shape.last() == 0 {
                Err(TensorError::ZeroDimension)
            } else if total * shape.last() > usize::MAX {
                Err(TensorError::Overflow(Quantity::ElementCount))
            } else {
                Ok((total * shape.last()) as nat)
            },
        }
    }
}

/// A shape is valid when it has a dimension, none is zero, and its element count fits in a word.
pub open spec fn valid_shape(shape: Seq<usize>) -> bool {
    &&& shape.len() > 0
    &&& 0 < layout::product(shape) <= usize::MAX
}

/// Counting succeeds with the product exactly where all dimensions are positive and it fits.
pub proof fn lemma_counted(shape: Seq<usize>)
    ensures
        counted(shape) is Ok <==> 0 < layout::product(shape) <= usize::MAX,
        counted(shape) matches Ok(n) ==> n == layout::product(shape),
        counted(shape) is Err ==> counted(shape) == Err::<nat, _>(TensorError::ZeroDimension)
            || counted(shape) == Err::<nat, _>(TensorError::Overflow(Quantity::ElementCount)),
    decreases shape.len(),
{
    if shape.len() > 0 {
        let init = shape.drop_last();
        lemma_counted(init);
        let p = layout::product(init);
        let d = shape.last() as nat;
        if d > 0 && p > usize::MAX {
            assert(p * d > usize::MAX) by (nonlinear_arith)
                requires
                    d > 0,
                    p > usize::MAX,
            ;
        }
        assert(p == 0 || d == 0 ==> p * d == 0) by (nonlinear_arith);
        assert(p > 0 && d > 0 ==> p * d > 0) by (nonlinear_arith);
    }
}

/// The number of elements of a shape.
pub fn element_count(shape: &[usize]) -> (result: Result<usize, TensorError>)
    ensures
        shape@.len() == 0 ==> result == Err::<usize, _>(TensorError::EmptyShape),
        shape@.len() > 0 ==> match counted(shape@) {
            Ok(n) => result == Ok::<usize, TensorError>(n as usize),
            Err(error) => result == Err::<usize, TensorError>(error),
        },
        result is Ok <==> valid_shape(shape@),
        result matches Ok(n) ==> n == layout::product(shape@),
{
    proof {
        lemma_counted(shape@);
    }
    if shape.len() == 0 {
        return Err(TensorError::EmptyShape);
    }
    let mut total: usize = 1;
    let mut i: usize = 0;
    while i < shape.len()
        invariant
            i <= shape@.len(),
            counted(shape@.take(i as int)) == Ok::<nat, TensorError>(total as nat),
        decreases shape.len() - i,
    {
        proof {
            assert(shape@.take(i + 1).drop_last() =~= shape@.take(i as int));
            lemma_counted_suffix(shape@, i + 1);
            lemma_counted(shape@);
        }
        if shape[i] == 0 {
            return Err(TensorError::ZeroDimension);
        }
        match total.checked_mul(shape[i]) {
            Some(next) => {
                total = next;
            },
            None => {
                return Err(TensorError::Overflow(Quantity::ElementCount));
            },
        }
        i = i + 1;
    }
    proof {
        assert(shape@.take(shape@.len() as int) =~= shape@);
    }
    Ok(total)
}

/// What is wrong with a prefix of a shape is what is wrong with the shape.
proof fn lemma_counted_suffix(shape: Seq<usize>, n: int)
    requires
        0 <= n <= shape.len(),
    ensures
        counted(shape.take(n)) is Err ==> counted(shape) == counted(shape.take(n)),
    decreases shape.len(),
{
    if n == shape.len() {
        assert(shape.take(n) =~= shape);
    } else {
        lemma_counted_suffix(shape.drop_last(), n);
        assert(shape.drop_last().take(n) =~= shape.take(n));
    }
}

/// Checks that `actual_len` values fill a shape.
pub fn validate_shape(shape: &[usize], actual_len: usize) -> (result: Result<(), TensorError>)
    ensures
        result is Ok <==> valid_shape(shape@) && layout::product(shape@) == actual_len,
        shape@.len() == 0 ==> result == Err::<(), _>(TensorError::EmptyShape),
        shape@.len() > 0 && counted(shape@) is Err ==> result == Err::<(), TensorError>(
            counted(shape@)->Err_0,
        ),
        valid_shape(shape@) && layout::product(shape@) != actual_len ==> {
            &&& result matches Err(TensorError::LengthMismatch { shape: s, expected, actual })
            &&& s@ == shape@ && expected == layout::product(shape@) && actual == actual_len
        },
{
    match element_count(shape) {
        Err(error) => Err(error),
        Ok(expected) => {
            if expected != actual_len {
                Err(
                    TensorError::LengthMismatch {
                        shape: vstd::slice::slice_to_vec(shape),
                        expected,
                        actual: actual_len,
                    },
                )
            } else {
                Ok(())
            }
        },
    }
}

/// The four dimensions of an NCHW shape.
pub fn nchw(shape: &[usize]) -> (result: Result<[usize; 4], TensorError>)
    ensures
        result is Ok <==> shape@.len() == 4,
        result matches Ok(dims) ==> dims@ == shape@,
        result matches Err(error) ==> {
            &&& error matches TensorError::NotNchw { shape: s }
            &&& s@ == shape@
        },
{
    if shape.len() == 4 {
        let dims: [usize; 4] = [shape[0], shape[1], shape[2], shape[3]];
        assert(dims@ =~= shape@);
        Ok(dims)
    } else {
        Err(TensorError::NotNchw { shape: vstd::slice::slice_to_vec(shape) })
    }
}

/// A tensor: a shape, and the elements in row-major order.
#[derive(Clone, Debug, PartialEq)]
pub struct Tensor<T> {
    shape: Vec<usize>,
    data: Vec<T>,
}

impl<T> View for Tensor<T> {
    type V = Seq<T>;

    closed spec fn view(&self) -> Seq<T> {
        self.data@
    }
}

impl<T> Tensor<T> {
    /// The dimensions, outermost first.
    pub closed spec fn dims(&self) -> Seq<usize> {
        self.shape@
    }

    /// The shape is valid and the elements fill it.
    pub open spec fn wf(&self) -> bool {
        &&& valid_shape(self.dims())
        &&& layout::product(self.dims()) == self@.len()
    }
}

impl<T: Copy> Tensor<T> {
    /// A tensor of the given shape and elements.
    pub fn new(shape: Vec<usize>, data: Vec<T>) -> (result: Result<Self, TensorError>)
        ensures
            result is Ok <==> valid_shape(shape@) && layout::product(shape@) == data@.len(),
            result matches Ok(tensor) ==> tensor.wf() && tensor.dims() == shape@ && tensor@ == data@,
            shape@.len() == 0 ==> result == Err::<Self, _>(TensorError::EmptyShape),
            shape@.len() > 0 && counted(shape@) is Err ==> result == Err::<Self, TensorError>(
                counted(shape@)->Err_0,
            ),
            valid_shape(shape@) && layout::product(shape@) != data@.len() ==> {
                &&& result matches Err(TensorError::LengthMismatch { shape: s, expected, actual })
                &&& s@ == shape@ && expected == layout::product(shape@) && actual == data@.len()
            },
    {
        match validate_shape(&shape, data.len()) {
            Err(error) => Err(error),
            Ok(()) => Ok(Tensor { shape, data }),
        }
    }

    /// A tensor of the given shape with every element equal to `zero`.
    pub fn zeros(shape: Vec<usize>, zero: T) -> (result: Result<Self, TensorError>)
        ensures
            result is Ok <==> valid_shape(shape@),
            result matches Ok(tensor) ==> {
                &&& tensor.wf()
                &&& tensor.dims() == shape@
                &&& tensor@ == Seq::new(layout::product(shape@), |i: int| zero)
            },
            shape@.len() == 0 ==> result == Err::<Self, _>(TensorError::EmptyShape),
            shape@.len() > 0 && counted(shape@) is Err ==> result == Err::<Self, TensorError>(
                counted(shape@)->Err_0,
            ),
    {
        match element_count(&shape) {
            Err(error) => Err(error),
            Ok(len) => {
                let data = filled(zero, len);
                Ok(Tensor { shape, data })
            },
        }
    }

    /// A tensor of a shape that its elements are known to fill.
    pub(crate) fn from_parts(shape: Vec<usize>, data: Vec<T>) -> (tensor: Self)
        requires
            valid_shape(shape@),
            layout::product(shape@) == data@.len(),
        ensures
            tensor.wf(),
            tensor.dims() == shape@,
            tensor@ == data@,
    {
        Tensor { shape, data }
    }

    /// The dimensions, outermost first.
    pub fn shape(&self) -> (shape: &[usize])
        ensures
            shape@ == self.dims(),
    {
        &self.shape
    }

    /// The elements in row-major order.
    pub fn data(&self) -> (data: &[T])
        ensures
            data@ == self@,
    {
        &self.data
    }

    /// The elements in row-major order, to be overwritten in place.
    pub fn data_mut(&mut self) -> (data: &mut [T])
        ensures
            data@ == old(self)@,
            final(self)@ == final(data)@,
            final(self).dims() == old(self).dims(),
    {
        &mut self.data
    }

    /// The number of elements.
    pub fn len(&self) -> (len: usize)
        ensures
            len == self@.len(),
    {
        self.data.len()
    }
}

/// Two shapes are the same.
pub fn same_dims(left: &[usize], right: &[usize]) -> (same: bool)
    ensures
        same == (left@ == right@),
{
    if left.len() != right.len() {
        return false;
    }
    let mut i: usize = 0;
    while i < left.len()
        invariant
            i <= left@.len() == right@.len(),
            forall|j: int| 0 <= j < i ==> left@[j] == right@[j],
        decreases left.len() - i,
    {
        if left[i] != right[i] {
            return false;
        }
        i = i + 1;
    }
    assert(left@ =~= right@);
    true
}

/// `len` copies of `value`.
pub(crate) fn filled<T: Copy>(value: T, len: usize) -> (values: Vec<T>)
    ensures
        values@ == Seq::new(len as nat, |i: int| value),
{
    let mut values: Vec<T> = Vec::with_capacity(len);
    let mut i: usize = 0;
    while i < len
        invariant
            i <= len,
            values@ == Seq::new(i as nat, |j: int| value),
        decreases len - i,
    {
        values.push(value);
        i = i + 1;
    }
    values
}

/// Appends a copy of every element of `part`.
pub(crate) fn extend<T: Copy>(out: &mut Vec<T>, part: &[T])
    ensures
        final(out)@ == old(out)@ + part@,
{
    let ghost before = out@;
    let mut i: usize = 0;
    while i < part.len()
        invariant
            i <= part@.len(),
            out@ == before + part@.take(i as int),
        decreases part.len() - i,
    {
        out.push(part[i]);
        i = i + 1;
    }
    assert(part@.take(part@.len() as int) =~= part@);
}

/// The shape of an optional bias.
pub open spec fn optional_dims<T>(bias: Option<&Tensor<T>>) -> Option<Seq<usize>> {
    match bias {
        Some(tensor) => Some(tensor.dims()),
        None => None,
    }
}

/// Why two shapes cannot be added, if they cannot.
pub open spec fn add_refusal(left: Seq<usize>, right: Seq<usize>) -> Option<TensorFault> {
    if left != right {
        Some(TensorFault::AddShapes { left, right })
    } else {
        None
    }
}

/// Why a linear projection refuses its shapes, if it does.
pub open spec fn linear_refusal(
    input: Seq<usize>,
    weight: Seq<usize>,
    bias: Option<Seq<usize>>,
) -> Option<TensorFault> {
    if weight.len() != 2 {
        Some(TensorFault::LinearWeightRank { shape: weight })
    } else if input.last() != weight[1] {
        Some(TensorFault::LinearWidth { input: input.last(), weight: weight[1] })
    } else if bias is Some && bias->0 != seq![weight[0]] {
        Some(TensorFault::LinearBias { shape: bias->0, out_features: weight[0] })
    } else if layout::product(input) / (weight[1] as nat) * weight[0] > usize::MAX {
        Some(TensorFault::Overflow(Quantity::ElementCount))
    } else {
        None
    }
}

/// The value a sum of products starts from: the bias where there is one.
pub open spec fn start_value<T>(bias: Option<&Tensor<T>>, index: int, zero: T) -> T {
    match bias {
        Some(tensor) => tensor@[index],
        None => zero,
    }
}

impl<T: Copy> Tensor<T> {
    /// Applies `step` to every element.
    pub fn map<F: Fn(T) -> T>(&self, step: F) -> (out: Self)
        requires
            self.wf(),
            fold::total1(step),
        ensures
            out.wf(),
            out.dims() == self.dims(),
            forall|i: int|
                0 <= i < self@.len() ==> call_ensures(step, (self@[i],), #[trigger] out@[i]),
    {
        let mut data: Vec<T> = Vec::with_capacity(self.data.len());
        let mut i: usize = 0;
        while i < self.data.len()
            invariant
                i == data@.len() <= self@.len(),
                self.data@ == self@,
                fold::total1(step),
                forall|j: int|
                    0 <= j < i ==> call_ensures(step, (self@[j],), #[trigger] data@[j]),
            decreases self.data.len() - i,
        {
            data.push(step(self.data[i]));
            i = i + 1;
        }
        Tensor { shape: vstd::slice::slice_to_vec(&self.shape), data }
    }

    /// Combines two tensors of one shape element by element.
    pub fn add<F: Fn(T, T) -> T>(
        &self,
        other: &Self,
        plus: F,
    ) -> (result: Result<Self, TensorError>)
        requires
            self.wf(),
            other.wf(),
            fold::total2(plus),
        ensures
            match add_refusal(self.dims(), other.dims()) {
                Some(fault) => result is Err && result->Err_0@ == fault,
                None => {
                    &&& result matches Ok(out)
                    &&& out.wf()
                    &&& out.dims() == self.dims()
                    &&& forall|i: int|
                        0 <= i < self@.len() ==> call_ensures(
                            plus,
                            (self@[i], other@[i]),
                            #[trigger] out@[i],
                        )
                },
            },
    {
        if !same_dims(&self.shape, &other.shape) {
            return Err(
                TensorError::AddShapes {
                    left: vstd::slice::slice_to_vec(&self.shape),
                    right: vstd::slice::slice_to_vec(&other.shape),
                },
            );
        }
        let mut data: Vec<T> = Vec::with_capacity(self.data.len());
        let mut i: usize = 0;
        while i < self.data.len()
            invariant
                i == data@.len() <= self@.len() == other@.len(),
                self.data@ == self@,
                other.data@ == other@,
                fold::total2(plus),
                forall|j: int|
                    0 <= j < i ==> call_ensures(
                        plus,
                        (self@[j], other@[j]),
                        #[trigger] data@[j],
                    ),
            decreases self.data.len() - i,
        {
            data.push(plus(self.data[i], other.data[i]));
            i = i + 1;
        }
        Ok(Tensor { shape: vstd::slice::slice_to_vec(&self.shape), data })
    }

    /// Linear projection over the final dimension: `weight` is `[out_features, in_features]` and
    /// `bias` is `[out_features]`.
    pub fn linear<F: Fn(T, T, T) -> T>(
        &self,
        weight: &Self,
        bias: Option<&Self>,
        zero: T,
        mac: F,
    ) -> (result: Result<Self, TensorError>)
        requires
            self.wf(),
            weight.wf(),
            bias is Some ==> bias->0.wf(),
            fold::total3(mac),
        ensures
            match linear_refusal(self.dims(), weight.dims(), optional_dims(bias)) {
                Some(fault) => result is Err && result->Err_0@ == fault,
                None => {
                    &&& result matches Ok(out)
                    &&& out.wf()
                    &&& out.dims() == self.dims().update(self.dims().len() - 1, weight.dims()[0])
                    &&& forall|row: int, o: int|
                        #![trigger out@[row * weight.dims()[0] + o]]
                        0 <= row < self@.len() / (weight.dims()[1] as nat) && 0 <= o
                            < weight.dims()[0] ==> fold::accumulates(
                            mac,
                            self@,
                            weight@,
                            fold::run(
                                row * weight.dims()[1],
                                o * weight.dims()[1],
                                weight.dims()[1] as nat,
                            ),
                            start_value(bias, o, zero),
                            out@[row * weight.dims()[0] + o],
                        )
                },
            },
    {
        if weight.shape.len() != 2 {
            return Err(
                TensorError::LinearWeightRank { shape: vstd::slice::slice_to_vec(&weight.shape) },
            );
        }
        let out_features: usize = weight.shape[0];
        let in_features: usize = weight.shape[1];
        let width: usize = self.shape[self.shape.len() - 1];
        if width != in_features {
            return Err(TensorError::LinearWidth { input: width, weight: in_features });
        }
        if let Some(bias) = bias {
            if bias.shape.len() != 1 || bias.shape[0] != out_features {
                proof {
                    assert(bias.dims() != seq![out_features]);
                }
                return Err(
                    TensorError::LinearBias {
                        shape: vstd::slice::slice_to_vec(&bias.shape),
                        out_features,
                    },
                );
            }
            assert(bias.dims() =~= seq![out_features]);
        }
        proof {
            layout::lemma_product_small(weight.dims());
            layout::lemma_product_positive(weight.dims());
            layout::lemma_product_positive(self.dims());
            if bias is Some {
                layout::lemma_product_small(bias->0.dims());
            }
        }
        let rows: usize = self.data.len() / in_features;
        let len: usize = match rows.checked_mul(out_features) {
            Some(len) => len,
            None => {
                return Err(TensorError::Overflow(Quantity::ElementCount));
            },
        };
        let ghost init = layout::product(self.dims().drop_last());
        proof {
            assert(self@.len() == init * in_features);
            assert(rows == init) by {
                layout::lemma_split(init as int, 0, in_features as int);
            }
        }
        let mut data: Vec<T> = Vec::with_capacity(len);
        let mut k: usize = 0;
        while k < len
            invariant
                k == data@.len() <= len,
                len == rows * out_features,
                self@.len() == rows * in_features <= usize::MAX,
                weight@.len() == out_features * in_features <= usize::MAX,
                self.data@ == self@,
                weight.data@ == weight@,
                bias is Some ==> bias->0@.len() == out_features && bias->0.data@ == bias->0@,
                fold::total3(mac),
                forall|j: int|
                    0 <= j < k ==> fold::accumulates(
                        mac,
                        self@,
                        weight@,
                        fold::run(
                            (j / out_features as int) * in_features,
                            (j % out_features as int) * in_features,
                            in_features as nat,
                        ),
                        start_value(bias, j % out_features as int, zero),
                        #[trigger] data@[j],
                    ),
            decreases len - k,
        {
            proof {
                assert(out_features > 0) by (nonlinear_arith)
                    requires
                        k < rows * out_features,
                        0 <= k,
                        0 <= out_features,
                ;
                layout::lemma_divide(k as int, rows as int, out_features as int);
            }
            let row: usize = k / out_features;
            let o: usize = k % out_features;
            proof {
                if in_features > 0 {
                    layout::lemma_cell(row as int, rows as int, 0, in_features as int);
                    layout::lemma_cell(o as int, out_features as int, 0, in_features as int);
                } else {
                    assert(row * in_features == 0 && o * in_features == 0) by (nonlinear_arith)
                        requires
                            in_features == 0,
                    ;
                }
            }
            let start: T = match bias {
                Some(bias) => bias.data[o],
                None => zero,
            };
            let value = dot(
                &self.data,
                row * in_features,
                &weight.data,
                o * in_features,
                in_features,
                start,
                &mac,
            );
            data.push(value);
            k = k + 1;
        }
        let mut shape: Vec<usize> = vstd::slice::slice_to_vec(&self.shape);
        let last: usize = shape.len() - 1;
        shape[last] = out_features;
        let out = Tensor { shape, data };
        proof {
            assert(out.dims().drop_last() =~= self.dims().drop_last());
            assert(layout::product(out.dims()) == init * out_features);
            assert(len > 0) by (nonlinear_arith)
                requires
                    len == rows * out_features,
                    rows * in_features > 0,
                    rows >= 0,
                    out_features > 0,
            ;
            assert forall|row: int, o: int|
                #![trigger out@[row * weight.dims()[0] + o]]
                0 <= row < self@.len() / (weight.dims()[1] as nat) && 0 <= o
                    < weight.dims()[0] implies fold::accumulates(
                mac,
                self@,
                weight@,
                fold::run(
                    row * weight.dims()[1],
                    o * weight.dims()[1],
                    weight.dims()[1] as nat,
                ),
                start_value(bias, o, zero),
                out@[row * weight.dims()[0] + o],
            ) by {
                layout::lemma_cell(row, rows as int, o, out_features as int);
                layout::lemma_split(row, o, out_features as int);
            }
        }
        Ok(out)
    }
}

} // verus!
