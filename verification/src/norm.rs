//! Normalization over rows and over channel groups.

use vstd::prelude::*;
use crate::layout;
use crate::tensor::{nchw, same_dims, Tensor};
use crate::tensor_error::{TensorError, TensorFault};

verus! {

/// The bit pattern of a positive finite single-precision number.
pub open spec fn positive_finite(bits: u32) -> bool {
    0 < bits < 0x7f80_0000
}

/// `out` is `row` normalized: one set of statistics is taken over the row, and each element is
/// rescaled by them and by its own weight and bias.
pub open spec fn normalized<T, S, A: Fn(&[T], u32) -> S, B: Fn(T, S, T, T) -> T>(
    statistics: A,
    rescale: B,
    epsilon: u32,
    row: Seq<T>,
    weight: Seq<T>,
    bias: Seq<T>,
    out: Seq<T>,
) -> bool {
    &&& out.len() == row.len()
    &&& exists|values: &[T], s: S|
        {
            &&& values@ == row
            &&& #[trigger] call_ensures(statistics, (values, epsilon), s)
            &&& forall|i: int|
                0 <= i < row.len() ==> call_ensures(
                    rescale,
                    (row[i], s, weight[i], bias[i]),
                    #[trigger] out[i],
                )
        }
}

/// Row `index` of a matrix with the given row length.
pub open spec fn row_of<T>(data: Seq<T>, index: int, len: int) -> Seq<T> {
    data.subrange(index * len, index * len + len)
}

/// `statistics` and `rescale` accept every argument.
pub open spec fn accepts_all<T, S, A: Fn(&[T], u32) -> S, B: Fn(T, S, T, T) -> T>(
    statistics: A,
    rescale: B,
) -> bool {
    &&& forall|values: &[T], epsilon: u32| #[trigger] call_requires(statistics, (values, epsilon))
    &&& forall|x: T, s: S, w: T, b: T| #[trigger] call_requires(rescale, (x, s, w, b))
}

/// A parameter that is constant over runs of `plane` elements, spread out to `len` elements from
/// channel `first` on.
pub open spec fn spread<T>(parameter: Seq<T>, first: int, plane: int, len: nat) -> Seq<T> {
    Seq::new(len, |i: int| parameter[first + i / plane])
}

/// Why layer normalization refuses its arguments, if it does.
pub open spec fn layer_norm_refusal(
    input: Seq<usize>,
    weight: Seq<usize>,
    bias: Seq<usize>,
    epsilon: u32,
) -> Option<TensorFault> {
    let width = input.last();
    if weight != seq![width] || bias != seq![width] {
        Some(TensorFault::LayerNormParameters { width })
    } else if !positive_finite(epsilon) {
        Some(TensorFault::LayerNormEpsilon)
    } else {
        None
    }
}

/// Why group normalization refuses its arguments, if it does.
pub open spec fn group_norm_refusal(
    input: Seq<usize>,
    groups: usize,
    weight: Seq<usize>,
    bias: Seq<usize>,
    epsilon: u32,
) -> Option<TensorFault> {
    if input.len() != 4 {
        Some(TensorFault::NotNchw { shape: input })
    } else if groups == 0 || input[1] % groups != 0 {
        Some(TensorFault::GroupCount { groups, channels: input[1] })
    } else if weight != seq![input[1]] || bias != seq![input[1]] {
        Some(TensorFault::GroupNormParameters { channels: input[1] })
    } else if !positive_finite(epsilon) {
        Some(TensorFault::GroupNormEpsilon)
    } else {
        None
    }
}

/// Appends `data[start..start + len]` normalized, with the parameters of channel `first` on, each
/// channel covering `plane` elements.
fn push_normalized<T: Copy, S: Copy, A: Fn(&[T], u32) -> S, B: Fn(T, S, T, T) -> T>(
    out: &mut Vec<T>,
    data: &[T],
    start: usize,
    len: usize,
    weight: &[T],
    bias: &[T],
    first: usize,
    plane: usize,
    epsilon: u32,
    statistics: &A,
    rescale: &B,
)
    requires
        start + len <= data@.len(),
        0 < plane,
        weight@.len() == bias@.len(),
        forall|i: int| 0 <= i < len ==> first + #[trigger] (i / plane as int) < weight@.len(),
        accepts_all(*statistics, *rescale),
    ensures
        final(out)@.len() == old(out)@.len() + len,
        final(out)@.take(old(out)@.len() as int) == old(out)@,
        normalized(
            *statistics,
            *rescale,
            epsilon,
            data@.subrange(start as int, start + len),
            spread(weight@, first as int, plane as int, len as nat),
            spread(bias@, first as int, plane as int, len as nat),
            final(out)@.skip(old(out)@.len() as int),
        ),
{
    proof {
        assert(data.len() == data@.len() && weight.len() == weight@.len());
    }
    let row = vstd::slice::slice_subrange(data, start, start + len);
    let s = statistics(row, epsilon);
    let ghost before = out@;
    let ghost weights = spread(weight@, first as int, plane as int, len as nat);
    let ghost biases = spread(bias@, first as int, plane as int, len as nat);
    let mut i: usize = 0;
    while i < len
        invariant
            i <= len == row@.len(),
            0 < plane,
            weight@.len() == bias@.len(),
            forall|j: int| 0 <= j < len ==> first + #[trigger] (j / plane as int) < weight@.len(),
            accepts_all(*statistics, *rescale),
            weights == spread(weight@, first as int, plane as int, len as nat),
            biases == spread(bias@, first as int, plane as int, len as nat),
            out@.len() == before.len() + i,
            out@.take(before.len() as int) == before,
            forall|j: int|
                0 <= j < i ==> call_ensures(
                    *rescale,
                    (row@[j], s, weights[j], biases[j]),
                    #[trigger] out@[before.len() + j],
                ),
        decreases len - i,
    {
        proof {
            assert(first + (i as int / plane as int) < weight@.len() == weight.len());
        }
        let channel: usize = first + i / plane;
        let value = rescale(row[i], s, weight[channel], bias[channel]);
        let ghost previous = out@;
        out.push(value);
        proof {
            assert(out@.take(before.len() as int) =~= previous.take(before.len() as int));
            assert forall|j: int| 0 <= j < i + 1 implies call_ensures(
                *rescale,
                (row@[j], s, weights[j], biases[j]),
                #[trigger] out@[before.len() + j],
            ) by {
                if j < i {
                    assert(out@[before.len() + j] == previous[before.len() + j]);
                }
            }
        }
        i = i + 1;
    }
    proof {
        let added = out@.skip(before.len() as int);
        assert forall|j: int| 0 <= j < len implies call_ensures(
            *rescale,
            (row@[j], s, weights[j], biases[j]),
            #[trigger] added[j],
        ) by {
            assert(added[j] == out@[before.len() + j]);
        }
        assert(call_ensures(*statistics, (row, epsilon), s));
    }
}

impl<T: Copy> Tensor<T> {
    /// Layer normalization over the final dimension.
    pub fn layer_norm<S: Copy, A: Fn(&[T], u32) -> S, B: Fn(T, S, T, T) -> T>(
        &self,
        weight: &Self,
        bias: &Self,
        epsilon: u32,
        statistics: A,
        rescale: B,
    ) -> (result: Result<Self, TensorError>)
        requires
            self.wf(),
            weight.wf(),
            bias.wf(),
            accepts_all(statistics, rescale),
        ensures
            match layer_norm_refusal(self.dims(), weight.dims(), bias.dims(), epsilon) {
                Some(fault) => result is Err && result->Err_0@ == fault,
                None => {
                    &&& result matches Ok(out)
                    &&& out.wf()
                    &&& out.dims() == self.dims()
                    &&& forall|row: int|
                        0 <= row < self@.len() / (self.dims().last() as nat) ==> normalized(
                            statistics,
                            rescale,
                            epsilon,
                            row_of(self@, row, self.dims().last() as int),
                            weight@,
                            bias@,
                            #[trigger] row_of(out@, row, self.dims().last() as int),
                        )
                },
            },
    {
        let shape = self.shape();
        let width: usize = shape[shape.len() - 1];
        let expected: [usize; 1] = [width];
        assert(expected@ =~= seq![width]);
        if !same_dims(weight.shape(), &expected) || !same_dims(bias.shape(), &expected) {
            return Err(TensorError::LayerNormParameters { width });
        }
        if epsilon == 0 || epsilon >= 0x7f80_0000 {
            return Err(TensorError::LayerNormEpsilon);
        }
        let ghost init = layout::product(self.dims().drop_last()) as int;
        proof {
            layout::lemma_product_small(weight.dims());
            layout::lemma_product_small(bias.dims());
            layout::lemma_product_positive(self.dims());
            layout::lemma_split(init, 0, width as int);
        }
        let rows: usize = self.len() / width;
        let mut data: Vec<T> = Vec::with_capacity(self.len());
        let mut row: usize = 0;
        while row < rows
            invariant
                row <= rows,
                0 < width,
                self@.len() == rows * width <= usize::MAX,
                weight@.len() == width,
                bias@.len() == width,
                accepts_all(statistics, rescale),
                data@.len() == row * width,
                forall|r: int|
                    0 <= r < row ==> normalized(
                        statistics,
                        rescale,
                        epsilon,
                        row_of(self@, r, width as int),
                        weight@,
                        bias@,
                        #[trigger] row_of(data@, r, width as int),
                    ),
            decreases rows - row,
        {
            proof {
                layout::lemma_cell(row as int, rows as int, 0, width as int);
            }
            let ghost before = data@;
            push_normalized(
                &mut data,
                self.data(),
                row * width,
                width,
                weight.data(),
                bias.data(),
                0,
                1,
                epsilon,
                &statistics,
                &rescale,
            );
            proof {
                assert(spread(weight@, 0, 1, width as nat) =~= weight@);
                assert(spread(bias@, 0, 1, width as nat) =~= bias@);
                assert(row_of(data@, row as int, width as int) =~= data@.skip(
                    before.len() as int,
                ));
                assert forall|r: int| 0 <= r < row + 1 implies normalized(
                    statistics,
                    rescale,
                    epsilon,
                    row_of(self@, r, width as int),
                    weight@,
                    bias@,
                    #[trigger] row_of(data@, r, width as int),
                ) by {
                    if r < row {
                        layout::lemma_cell(r, row as int, 0, width as int);
                        assert(row_of(data@, r, width as int) =~= row_of(
                            data@.take(before.len() as int),
                            r,
                            width as int,
                        ));
                    }
                }
            }
            row = row + 1;
        }
        Ok(Tensor::from_parts(vstd::slice::slice_to_vec(self.shape()), data))
    }

    /// Group normalization for a contiguous NCHW tensor.
    pub fn group_norm<S: Copy, A: Fn(&[T], u32) -> S, B: Fn(T, S, T, T) -> T>(
        &self,
        groups: usize,
        weight: &Self,
        bias: &Self,
        epsilon: u32,
        statistics: A,
        rescale: B,
    ) -> (result: Result<Self, TensorError>)
        requires
            self.wf(),
            weight.wf(),
            bias.wf(),
            accepts_all(statistics, rescale),
        ensures
            match group_norm_refusal(self.dims(), groups, weight.dims(), bias.dims(), epsilon) {
                Some(fault) => result is Err && result->Err_0@ == fault,
                None => {
                    let per_group = self.dims()[1] / groups;
                    let plane = self.dims()[2] * self.dims()[3];
                    let len = per_group * plane;
                    &&& result matches Ok(out)
                    &&& out.wf()
                    &&& out.dims() == self.dims()
                    &&& forall|row: int|
                        0 <= row < self.dims()[0] * groups ==> normalized(
                            statistics,
                            rescale,
                            epsilon,
                            row_of(self@, row, len),
                            spread(
                                weight@,
                                (row % groups as int) * per_group,
                                plane,
                                len as nat,
                            ),
                            spread(bias@, (row % groups as int) * per_group, plane, len as nat),
                            #[trigger] row_of(out@, row, len),
                        )
                },
            },
    {
        let dims: [usize; 4] = match nchw(self.shape()) {
            Ok(dims) => dims,
            Err(error) => {
                return Err(error);
            },
        };
        let batch: usize = dims[0];
        let channels: usize = dims[1];
        if groups == 0 || channels % groups != 0 {
            return Err(TensorError::GroupCount { groups, channels });
        }
        let expected: [usize; 1] = [channels];
        assert(expected@ =~= seq![channels]);
        if !same_dims(weight.shape(), &expected) || !same_dims(bias.shape(), &expected) {
            return Err(TensorError::GroupNormParameters { channels });
        }
        if epsilon == 0 || epsilon >= 0x7f80_0000 {
            return Err(TensorError::GroupNormEpsilon);
        }
        let per_group: usize = channels / groups;
        let ghost h = dims[2] as int;
        let ghost w = dims[3] as int;
        proof {
            layout::lemma_product_small(self.dims());
            layout::lemma_product_positive(self.dims());
            layout::lemma_product_small(weight.dims());
            layout::lemma_product_small(bias.dims());
            lemma_group_sizes(batch as int, channels as int, h, w, groups as int);
        }
        let plane: usize = dims[2] * dims[3];
        let len: usize = per_group * plane;
        let rows: usize = batch * groups;
        let mut data: Vec<T> = Vec::with_capacity(self.len());
        let mut row: usize = 0;
        while row < rows
            invariant
                row <= rows,
                0 < groups,
                0 < plane,
                0 < per_group,
                channels == per_group * groups,
                len == per_group * plane,
                0 < len,
                self@.len() == rows * len <= usize::MAX,
                weight@.len() == channels,
                bias@.len() == channels,
                accepts_all(statistics, rescale),
                data@.len() == row * len,
                forall|r: int|
                    0 <= r < row ==> normalized(
                        statistics,
                        rescale,
                        epsilon,
                        row_of(self@, r, len as int),
                        spread(
                            weight@,
                            (r % groups as int) * per_group,
                            plane as int,
                            len as nat,
                        ),
                        spread(bias@, (r % groups as int) * per_group, plane as int, len as nat),
                        #[trigger] row_of(data@, r, len as int),
                    ),
            decreases rows - row,
        {
            let group: usize = row % groups;
            proof {
                layout::lemma_cell(row as int, rows as int, 0, len as int);
                layout::lemma_cell(group as int, groups as int, 0, per_group as int);
                assert(per_group * groups == groups * per_group) by (nonlinear_arith);
                assert forall|i: int| 0 <= i < len implies group * per_group
                    + #[trigger] (i / plane as int) < weight@.len() by {
                    layout::lemma_divide(i, per_group as int, plane as int);
                }
            }
            let ghost before = data@;
            push_normalized(
                &mut data,
                self.data(),
                row * len,
                len,
                weight.data(),
                bias.data(),
                group * per_group,
                plane,
                epsilon,
                &statistics,
                &rescale,
            );
            proof {
                assert(row_of(data@, row as int, len as int) =~= data@.skip(before.len() as int));
                assert forall|r: int| 0 <= r < row + 1 implies normalized(
                    statistics,
                    rescale,
                    epsilon,
                    row_of(self@, r, len as int),
                    spread(weight@, (r % groups as int) * per_group, plane as int, len as nat),
                    spread(bias@, (r % groups as int) * per_group, plane as int, len as nat),
                    #[trigger] row_of(data@, r, len as int),
                ) by {
                    if r < row {
                        layout::lemma_cell(r, row as int, 0, len as int);
                        assert(row_of(data@, r, len as int) =~= row_of(
                            data@.take(before.len() as int),
                            r,
                            len as int,
                        ));
                    }
                }
            }
            row = row + 1;
        }
        Ok(Tensor::from_parts(vstd::slice::slice_to_vec(self.shape()), data))
    }
}

/// The sizes group normalization works with.
proof fn lemma_group_sizes(batch: int, channels: int, h: int, w: int, groups: int)
    requires
        0 < batch,
        0 < channels,
        0 < h,
        0 < w,
        0 < groups,
        channels % groups == 0,
        batch * channels * h * w <= usize::MAX,
    ensures
        0 < h * w <= usize::MAX,
        0 < channels / groups,
        channels == (channels / groups) * groups,
        0 < (channels / groups) * (h * w) <= usize::MAX,
        0 < batch * groups <= usize::MAX,
        batch * channels * h * w == (batch * groups) * ((channels / groups) * (h * w)),
{
    let q = channels / groups;
    let plane = h * w;
    vstd::arithmetic::div_mod::lemma_fundamental_div_mod(channels, groups);
    assert(groups * q == q * groups) by (nonlinear_arith);
    assert(q > 0) by (nonlinear_arith)
        requires
            channels == q * groups,
            channels > 0,
            groups > 0,
    ;
    assert(plane > 0) by (nonlinear_arith)
        requires
            plane == h * w,
            h > 0,
            w > 0,
    ;
    assert(batch * (q * groups) * h * w == (batch * groups) * (q * (h * w))) by (nonlinear_arith);
    let a = batch * groups;
    let b = q * plane;
    assert(a > 0) by (nonlinear_arith)
        requires
            a == batch * groups,
            batch > 0,
            groups > 0,
    ;
    assert(b > 0 && b >= plane) by (nonlinear_arith)
        requires
            b == q * plane,
            q > 0,
            plane > 0,
    ;
    assert(a <= a * b && b <= a * b) by (nonlinear_arith)
        requires
            a > 0,
            b > 0,
    ;
}

} // verus!
