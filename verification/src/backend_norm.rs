//! Normalizations and the softmax of the scalar backend.

use vstd::prelude::*;
use crate::backend;
use crate::backend::{DeviceTensor, PreparedVectorHandle, ScalarBackend};
use crate::backend_error::{BackendError, BackendFault, BackendKind, Owned};
use crate::backend_rows;
use crate::backend_rows::{change_rows, require_vector};
use crate::backend_time;
use crate::backend_time::{owned, require_tensor};
use crate::float_order::{is_finite, is_greater};
use crate::fold;
use crate::layout;
use crate::norm;
use crate::reshape::Array;
use crate::tensor::{extend, Tensor};

verus! {

/// `out` is a row normalized, without weight and bias.
pub open spec fn centered<T, S, A: Fn(&[T], u32) -> S, B: Fn(T, S) -> T>(
    statistics: A,
    center: B,
    epsilon: u32,
    row: Seq<T>,
    out: Seq<T>,
) -> bool {
    &&& out.len() == row.len()
    &&& exists|values: &[T], s: S|
        {
            &&& values@ == row
            &&& #[trigger] call_ensures(statistics, (values, epsilon), s)
            &&& forall|i: int|
                0 <= i < row.len() ==> call_ensures(center, (row[i], s), #[trigger] out[i])
        }
}

/// `out` is a row normalized, with a weight.
pub open spec fn weighted<T, S, A: Fn(&[T], u32) -> S, B: Fn(T, S, T) -> T>(
    statistics: A,
    rescale: B,
    epsilon: u32,
    row: Seq<T>,
    weight: Seq<T>,
    out: Seq<T>,
) -> bool {
    &&& out.len() == row.len()
    &&& exists|values: &[T], s: S|
        {
            &&& values@ == row
            &&& #[trigger] call_ensures(statistics, (values, epsilon), s)
            &&& forall|i: int|
                0 <= i < row.len() ==> call_ensures(
                    rescale,
                    (row[i], s, weight[i]),
                    #[trigger] out[i],
                )
        }
}

/// Why rows are not normalized, if they are not.
pub open spec fn layer_norm_fault<T: Copy>(
    input: DeviceTensor<T>,
    weight: Option<&PreparedVectorHandle<T>>,
    bias: Option<&PreparedVectorHandle<T>>,
    epsilon: u32,
) -> Option<BackendFault> {
    let width = input.array().dims.last();
    backend_time::either(
        backend::owner_fault(Owned::Tensor, input.backend),
        if !backend_rows::positive(epsilon) {
            Some(BackendFault::NormEpsilon)
        } else if weight is Some != bias is Some {
            Some(BackendFault::NormAffine)
        } else if weight is None {
            None
        } else {
            backend_time::either(
                backend_time::either(
                    backend::owner_fault(Owned::Vector, weight->0.backend),
                    backend::owner_fault(Owned::Vector, bias->0.backend),
                ),
                if weight->0.vector.dims()[0] != width || bias->0.vector.dims()[0] != width {
                    Some(
                        BackendFault::NormLengths {
                            weight: weight->0.vector.dims()[0],
                            bias: bias->0.vector.dims()[0],
                            width,
                        },
                    )
                } else {
                    None
                },
            )
        },
    )
}

/// Why rows are not divided by their root mean square, if they are not.
pub open spec fn rms_norm_fault<T: Copy>(
    input: DeviceTensor<T>,
    weight: PreparedVectorHandle<T>,
    epsilon: u32,
) -> Option<BackendFault> {
    let width = input.array().dims.last();
    backend_time::either(
        backend_time::either(
            backend::owner_fault(Owned::Tensor, input.backend),
            backend::owner_fault(Owned::Vector, weight.backend),
        ),
        if !backend_rows::positive(epsilon) {
            Some(BackendFault::RmsEpsilon)
        } else if weight.vector.dims()[0] != width {
            Some(BackendFault::RmsLength { len: weight.vector.dims()[0], width })
        } else {
            None
        },
    )
}

/// Why the channels of a video are not normalized, if they are not.
pub open spec fn channel_norm_fault<T: Copy>(
    input: DeviceTensor<T>,
    weight: PreparedVectorHandle<T>,
    epsilon: u32,
) -> Option<BackendFault> {
    backend_time::either(
        backend_time::either(
            backend::owner_fault(Owned::Tensor, input.backend),
            backend::owner_fault(Owned::Vector, weight.backend),
        ),
        if input.array().dims.len() != 5 {
            Some(BackendFault::ChannelRank)
        } else if weight.vector.dims()[0] != input.array().dims[1] {
            Some(
                BackendFault::ChannelLength {
                    len: weight.vector.dims()[0],
                    channels: input.array().dims[1],
                },
            )
        } else if !backend_rows::positive(epsilon) {
            Some(BackendFault::ChannelEpsilon)
        } else {
            None
        },
    )
}

/// The number of elements of one channel of one sample of a video.
pub open spec fn volume_of(dims: Seq<usize>) -> int {
    dims[2] * (dims[3] * dims[4])
}

/// The channels of a video at one place of one sample.
pub open spec fn channels_at<T>(input: Array<T>, sample: int, at: int) -> Seq<T> {
    Seq::new(
        input.dims[1] as nat,
        |c: int| input.data[(sample * input.dims[1] + c) * volume_of(input.dims) + at],
    )
}

/// `out` is a video with the channels at every place normalized.
pub open spec fn channels_normalized<T, S, A: Fn(&[T], u32) -> S, B: Fn(T, S, T) -> T>(
    statistics: A,
    rescale: B,
    epsilon: u32,
    input: Array<T>,
    weight: Seq<T>,
    out: Array<T>,
) -> bool {
    &&& out.dims == input.dims
    &&& out.data.len() == input.data.len()
    &&& forall|sample: int, at: int|
        0 <= sample < input.dims[0] && 0 <= at < volume_of(input.dims) ==> weighted(
            statistics,
            rescale,
            epsilon,
            channels_at(input, sample, at),
            weight,
            #[trigger] channels_at(out, sample, at),
        )
}

/// `s` is what is found out about a column.
pub open spec fn found_out<T, S, A: Fn(&[T], u32) -> S>(
    statistics: A,
    epsilon: u32,
    column: Seq<T>,
    s: S,
) -> bool {
    exists|values: &[T]|
        values@ == column && #[trigger] call_ensures(statistics, (values, epsilon), s)
}

/// `out` is a row of weights made of a row of scores.
pub open spec fn softened<T, F: Fn(Vec<T>) -> Vec<T>>(
    softmax: F,
    row: Seq<T>,
    out: Seq<T>,
) -> bool {
    exists|scores: Vec<T>, weights: Vec<T>|
        {
            &&& #[trigger] call_ensures(softmax, (scores,), weights)
            &&& scores@ == row
            &&& weights@ == out
        }
}

/// A row has as many elements as it is wide.
proof fn lemma_row_len<T>(data: Seq<T>, row: int, width: int)
    requires
        0 < width,
        0 <= row < data.len() as int / width,
    ensures
        norm::row_of(data, row, width).len() == width,
{
    let rows = data.len() as int / width;
    vstd::arithmetic::div_mod::lemma_fundamental_div_mod(data.len() as int, width);
    assert(width * rows == rows * width) by (nonlinear_arith);
    layout::lemma_cell(row, rows, 0, width);
}

impl ScalarBackend {
    /// Normalizes every row, with a weight and a bias or without both.
    pub fn layer_norm_device<
        T: Copy,
        S: Copy,
        A: Fn(&[T], u32) -> S,
        B: Fn(T, S, T, T) -> T + Copy,
        C: Fn(T, S) -> T + Copy,
    >(
        &self,
        input: &DeviceTensor<T>,
        weight: Option<&PreparedVectorHandle<T>>,
        bias: Option<&PreparedVectorHandle<T>>,
        epsilon: u32,
        statistics: A,
        rescale: B,
        center: C,
    ) -> (result: Result<DeviceTensor<T>, BackendError>)
        requires
            input.wf(),
            weight is Some ==> weight->0.wf(),
            bias is Some ==> bias->0.wf(),
            norm::accepts_all(statistics, rescale),
            fold::total2(center),
        ensures
            match layer_norm_fault(*input, weight, bias, epsilon) {
                Some(fault) => result is Err && result->Err_0@ == fault,
                None => {
                    let width = input.array().dims.last() as int;
                    &&& result is Ok
                    &&& result->Ok_0.wf()
                    &&& result->Ok_0.backend == BackendKind::ScalarCpu
                    &&& result->Ok_0.array().dims == input.array().dims
                    &&& forall|row: int|
                        0 <= row < input.array().data.len() / (width as nat) ==> {
                            let before = norm::row_of(input.array().data, row, width);
                            let after = #[trigger] norm::row_of(
                                result->Ok_0.array().data,
                                row,
                                width,
                            );
                            if weight is Some {
                                norm::normalized(
                                    statistics,
                                    rescale,
                                    epsilon,
                                    before,
                                    weight->0.vector@,
                                    bias->0.vector@,
                                    after,
                                )
                            } else {
                                centered(statistics, center, epsilon, before, after)
                            }
                        }
                },
            },
    {
        match require_tensor(input) {
            Ok(_) => {},
            Err(error) => {
                return Err(error);
            },
        }
        if !is_finite(epsilon) || !is_greater(epsilon, 0) {
            return Err(BackendError::NormEpsilon);
        }
        let shape = input.tensor.shape();
        assert(shape@.len() == shape.len());
        let width: usize = shape[shape.len() - 1];
        match (weight, bias) {
            (Some(weight), Some(bias)) => {
                match require_vector(weight) {
                    Ok(_) => {},
                    Err(error) => {
                        return Err(error);
                    },
                }
                match require_vector(bias) {
                    Ok(_) => {},
                    Err(error) => {
                        return Err(error);
                    },
                }
                let weight_len: usize = weight.vector.shape()[0];
                let bias_len: usize = bias.vector.shape()[0];
                if weight_len != width || bias_len != width {
                    return Err(
                        BackendError::NormLengths { weight: weight_len, bias: bias_len, width },
                    );
                }
                proof {
                    layout::lemma_product_small(weight.vector.dims());
                    layout::lemma_product_small(bias.vector.dims());
                    layout::lemma_product_positive(input.array().dims);
                }
                let w = weight.vector.data();
                let b = bias.vector.data();
                let change = |i: usize, x: T, s: S| -> (y: T)
                    requires
                        i < width,
                    ensures
                        call_ensures(rescale, (x, s, w@[i as int], b@[i as int]), y),
                    { rescale(x, s, w[i], b[i]) };
                let data = change_rows(&input.tensor, width, epsilon, &statistics, &change);
                proof {
                    assert forall|row: int|
                        0 <= row < input.array().data.len() / (width as nat) implies norm::normalized(
                        statistics,
                        rescale,
                        epsilon,
                        norm::row_of(input.array().data, row, width as int),
                        w@,
                        b@,
                        #[trigger] norm::row_of(data@, row, width as int),
                    ) by {
                        let before = norm::row_of(input.array().data, row, width as int);
                        let after = norm::row_of(data@, row, width as int);
                        lemma_row_len(input.array().data, row, width as int);
                        assert(backend_rows::row_changed(
                            statistics,
                            change,
                            epsilon,
                            before,
                            after,
                        ));
                        let (values, s) = choose|values: &[T], s: S|
                            {
                                &&& values@ == before
                                &&& #[trigger] call_ensures(statistics, (values, epsilon), s)
                                &&& forall|i: int|
                                    0 <= i < before.len() ==> call_ensures(
                                        change,
                                        (i as usize, before[i], s),
                                        #[trigger] after[i],
                                    )
                            };
                        assert forall|i: int| 0 <= i < before.len() implies call_ensures(
                            rescale,
                            (before[i], s, w@[i], b@[i]),
                            #[trigger] after[i],
                        ) by {
                            assert(call_ensures(change, (i as usize, before[i], s), after[i]));
                        }
                    }
                }
                Ok(owned(vstd::slice::slice_to_vec(shape), data))
            },
            (None, None) => {
                let change = |i: usize, x: T, s: S| -> (y: T)
                    ensures
                        call_ensures(center, (x, s), y),
                    { center(x, s) };
                let data = change_rows(&input.tensor, width, epsilon, &statistics, &change);
                proof {
                    assert forall|row: int|
                        0 <= row < input.array().data.len() / (width as nat) implies centered(
                        statistics,
                        center,
                        epsilon,
                        norm::row_of(input.array().data, row, width as int),
                        #[trigger] norm::row_of(data@, row, width as int),
                    ) by {
                        assert(backend_rows::row_changed(
                            statistics,
                            change,
                            epsilon,
                            norm::row_of(input.array().data, row, width as int),
                            norm::row_of(data@, row, width as int),
                        ));
                    }
                }
                Ok(owned(vstd::slice::slice_to_vec(shape), data))
            },
            _ => Err(BackendError::NormAffine),
        }
    }

    /// Divides every row by its root mean square and multiplies it by a weight.
    pub fn rms_norm_device<T: Copy, S: Copy, A: Fn(&[T], u32) -> S, B: Fn(T, S, T) -> T + Copy>(
        &self,
        input: &DeviceTensor<T>,
        weight: &PreparedVectorHandle<T>,
        epsilon: u32,
        statistics: A,
        rescale: B,
    ) -> (result: Result<DeviceTensor<T>, BackendError>)
        requires
            input.wf(),
            weight.wf(),
            forall|values: &[T], e: u32| #[trigger] call_requires(statistics, (values, e)),
            fold::accepts3(rescale),
        ensures
            match rms_norm_fault(*input, *weight, epsilon) {
                Some(fault) => result is Err && result->Err_0@ == fault,
                None => {
                    let width = input.array().dims.last() as int;
                    &&& result is Ok
                    &&& result->Ok_0.wf()
                    &&& result->Ok_0.backend == BackendKind::ScalarCpu
                    &&& result->Ok_0.array().dims == input.array().dims
                    &&& forall|row: int|
                        0 <= row < input.array().data.len() / (width as nat) ==> weighted(
                            statistics,
                            rescale,
                            epsilon,
                            norm::row_of(input.array().data, row, width),
                            weight.vector@,
                            #[trigger] norm::row_of(result->Ok_0.array().data, row, width),
                        )
                },
            },
    {
        match require_tensor(input) {
            Ok(_) => {},
            Err(error) => {
                return Err(error);
            },
        }
        match require_vector(weight) {
            Ok(_) => {},
            Err(error) => {
                return Err(error);
            },
        }
        if !is_finite(epsilon) || !is_greater(epsilon, 0) {
            return Err(BackendError::RmsEpsilon);
        }
        let shape = input.tensor.shape();
        assert(shape@.len() == shape.len());
        let width: usize = shape[shape.len() - 1];
        let len: usize = weight.vector.shape()[0];
        if len != width {
            return Err(BackendError::RmsLength { len, width });
        }
        proof {
            layout::lemma_product_small(weight.vector.dims());
            layout::lemma_product_positive(input.array().dims);
        }
        let w = weight.vector.data();
        let change = |i: usize, x: T, s: S| -> (y: T)
            requires
                i < width,
            ensures
                call_ensures(rescale, (x, s, w@[i as int]), y),
            { rescale(x, s, w[i]) };
        let data = change_rows(&input.tensor, width, epsilon, &statistics, &change);
        proof {
            assert forall|row: int|
                0 <= row < input.array().data.len() / (width as nat) implies weighted(
                statistics,
                rescale,
                epsilon,
                norm::row_of(input.array().data, row, width as int),
                w@,
                #[trigger] norm::row_of(data@, row, width as int),
            ) by {
                let before = norm::row_of(input.array().data, row, width as int);
                let after = norm::row_of(data@, row, width as int);
                lemma_row_len(input.array().data, row, width as int);
                assert(backend_rows::row_changed(statistics, change, epsilon, before, after));
                let (values, s) = choose|values: &[T], s: S|
                    {
                        &&& values@ == before
                        &&& #[trigger] call_ensures(statistics, (values, epsilon), s)
                        &&& forall|i: int|
                            0 <= i < before.len() ==> call_ensures(
                                change,
                                (i as usize, before[i], s),
                                #[trigger] after[i],
                            )
                    };
                assert forall|i: int| 0 <= i < before.len() implies call_ensures(
                    rescale,
                    (before[i], s, w@[i]),
                    #[trigger] after[i],
                ) by {
                    assert(call_ensures(change, (i as usize, before[i], s), after[i]));
                }
            }
        }
        Ok(owned(vstd::slice::slice_to_vec(shape), data))
    }

    /// Turns every row of scores into weights.
    pub fn softmax_device<T: Copy, F: Fn(Vec<T>) -> Vec<T>>(
        &self,
        input: &DeviceTensor<T>,
        softmax: F,
    ) -> (result: Result<DeviceTensor<T>, BackendError>)
        requires
            input.wf(),
            fold::total1(softmax),
            forall|scores: Vec<T>, weights: Vec<T>| #[trigger]
                call_ensures(softmax, (scores,), weights) ==> weights@.len() == scores@.len(),
        ensures
            match backend::owner_fault(Owned::Tensor, input.backend) {
                Some(fault) => result is Err && result->Err_0@ == fault,
                None => {
                    let width = input.array().dims.last() as int;
                    &&& result is Ok
                    &&& result->Ok_0.wf()
                    &&& result->Ok_0.backend == BackendKind::ScalarCpu
                    &&& result->Ok_0.array().dims == input.array().dims
                    &&& forall|row: int|
                        0 <= row < input.array().data.len() / (width as nat) ==> softened(
                            softmax,
                            norm::row_of(input.array().data, row, width),
                            #[trigger] norm::row_of(result->Ok_0.array().data, row, width),
                        )
                },
            },
    {
        match require_tensor(input) {
            Ok(_) => {},
            Err(error) => {
                return Err(error);
            },
        }
        let shape = input.tensor.shape();
        assert(shape@.len() == shape.len());
        let width: usize = shape[shape.len() - 1];
        let data = input.tensor.data();
        let len: usize = input.tensor.len();
        let ghost init = layout::product(input.array().dims.drop_last()) as int;
        proof {
            layout::lemma_product_positive(input.array().dims);
            layout::lemma_split(init, 0, width as int);
        }
        let rows: usize = len / width;
        let mut out: Vec<T> = Vec::with_capacity(len);
        let mut row: usize = 0;
        while row < rows
            invariant
                row <= rows,
                0 < width,
                data@ == input.array().data,
                data@.len() == rows * width <= usize::MAX,
                out@.len() == row * width,
                fold::total1(softmax),
                forall|scores: Vec<T>, weights: Vec<T>| #[trigger]
                    call_ensures(softmax, (scores,), weights) ==> weights@.len() == scores@.len(),
                forall|r: int|
                    0 <= r < row ==> softened(
                        softmax,
                        norm::row_of(data@, r, width as int),
                        #[trigger] norm::row_of(out@, r, width as int),
                    ),
            decreases rows - row,
        {
            proof {
                layout::lemma_cell(row as int, rows as int, 0, width as int);
            }
            let ghost before = out@;
            let start: usize = row * width;
            let scores = vstd::slice::slice_to_vec(
                vstd::slice::slice_subrange(data, start, start + width),
            );
            let ghost kept = scores;
            let weights = softmax(scores);
            extend(&mut out, &weights);
            proof {
                assert(call_ensures(softmax, (kept,), weights));
                assert(kept@ =~= norm::row_of(data@, row as int, width as int));
                assert(norm::row_of(out@, row as int, width as int) =~= weights@);
                assert(softened(
                    softmax,
                    norm::row_of(data@, row as int, width as int),
                    norm::row_of(out@, row as int, width as int),
                ));
                assert forall|r: int| 0 <= r < row + 1 implies softened(
                    softmax,
                    norm::row_of(data@, r, width as int),
                    #[trigger] norm::row_of(out@, r, width as int),
                ) by {
                    if r < row {
                        layout::lemma_cell(r, row as int, 0, width as int);
                        assert(norm::row_of(out@, r, width as int) =~= norm::row_of(
                            before,
                            r,
                            width as int,
                        ));
                    }
                }
            }
            row = row + 1;
        }
        Ok(owned(vstd::slice::slice_to_vec(shape), out))
    }
}

/// The numbers of elements of a video and of its channels.
proof fn lemma_volume(dims: Seq<usize>)
    requires
        dims.len() == 5,
        0 < layout::product(dims) <= usize::MAX,
    ensures
        0 < volume_of(dims) <= usize::MAX,
        0 < dims[0],
        0 < dims[1],
        0 < dims[3] * dims[4] <= usize::MAX,
        dims[0] * dims[1] * volume_of(dims) == layout::product(dims),
        0 < dims[0] * volume_of(dims) <= usize::MAX,
        dims[0] * dims[1] <= usize::MAX,
{
    layout::lemma_product_small(dims);
    layout::lemma_product_positive(dims);
    let a = dims[0] as int;
    let b = dims[1] as int;
    let c = dims[2] as int;
    let d = dims[3] as int;
    let e = dims[4] as int;
    assert(a > 0 && b > 0 && c > 0 && d > 0 && e > 0);
    let plane = d * e;
    assert(plane > 0) by (nonlinear_arith)
        requires
            plane == d * e,
            d > 0,
            e > 0,
    ;
    let volume = c * plane;
    assert(volume > 0 && plane <= volume) by (nonlinear_arith)
        requires
            volume == c * plane,
            c > 0,
            plane > 0,
    ;
    assert(a * b * c * d * e == a * b * volume) by (nonlinear_arith)
        requires
            volume == c * plane,
            plane == d * e,
    ;
    assert(0 < a * volume <= a * b * volume && volume <= a * b * volume && a * b <= a * b * volume)
        by (nonlinear_arith)
        requires
            a > 0,
            b > 0,
            volume > 0,
    ;
}

/// What is found out about the channels at every place of every sample of a video.
fn channel_statistics<T: Copy, S: Copy, A: Fn(&[T], u32) -> S>(
    input: &Tensor<T>,
    epsilon: u32,
    statistics: &A,
    batch: usize,
    channels: usize,
    volume: usize,
) -> (found: Vec<S>)
    requires
        input.wf(),
        input.dims().len() == 5,
        batch == input.dims()[0],
        channels == input.dims()[1],
        volume == volume_of(input.dims()),
        forall|values: &[T], e: u32| #[trigger] call_requires(*statistics, (values, e)),
    ensures
        found@.len() == batch * volume,
        forall|k: int|
            0 <= k < found@.len() ==> found_out(
                *statistics,
                epsilon,
                channels_at(input.array(), k / volume as int, k % volume as int),
                #[trigger] found@[k],
            ),
{
    let data = input.data();
    proof {
        lemma_volume(input.dims());
    }
    let len: usize = batch * volume;
    let mut found: Vec<S> = Vec::with_capacity(len);
    let mut k: usize = 0;
    while k < len
        invariant
            k == found@.len() <= len,
            len == batch * volume,
            0 < volume,
            0 < channels,
            data@ == input.array().data,
            data@.len() == batch * channels * volume <= usize::MAX,
            batch * channels <= usize::MAX,
            channels == input.array().dims[1],
            volume == volume_of(input.array().dims),
            forall|values: &[T], e: u32| #[trigger] call_requires(*statistics, (values, e)),
            forall|j: int|
                0 <= j < k ==> found_out(
                    *statistics,
                    epsilon,
                    channels_at(input.array(), j / volume as int, j % volume as int),
                    #[trigger] found@[j],
                ),
        decreases len - k,
    {
        let sample: usize = k / volume;
        let at: usize = k % volume;
        proof {
            layout::lemma_divide(k as int, batch as int, volume as int);
        }
        let mut column: Vec<T> = Vec::with_capacity(channels);
        let mut c: usize = 0;
        while c < channels
            invariant
                c == column@.len() <= channels,
                sample < batch,
                at < volume,
                0 < volume,
                data@ == input.array().data,
                data@.len() == batch * channels * volume <= usize::MAX,
                batch * channels <= usize::MAX,
                channels == input.array().dims[1],
                volume == volume_of(input.array().dims),
                forall|j: int|
                    0 <= j < c ==> #[trigger] column@[j] == channels_at(
                        input.array(),
                        sample as int,
                        at as int,
                    )[j],
            decreases channels - c,
        {
            proof {
                layout::lemma_cell(sample as int, batch as int, c as int, channels as int);
                layout::lemma_cell(
                    sample * channels + c,
                    batch * channels,
                    at as int,
                    volume as int,
                );
            }
            column.push(data[(sample * channels + c) * volume + at]);
            c = c + 1;
        }
        let values = column.as_slice();
        let s = statistics(values, epsilon);
        proof {
            assert(values@ =~= channels_at(input.array(), sample as int, at as int));
            assert(call_ensures(*statistics, (values, epsilon), s));
            assert(found_out(
                *statistics,
                epsilon,
                channels_at(input.array(), sample as int, at as int),
                s,
            ));
        }
        found.push(s);
        k = k + 1;
    }
    found
}

impl ScalarBackend {
    /// Normalizes the channels of a video at every place.
    pub fn channel_rms_norm_3d<T: Copy, S: Copy, A: Fn(&[T], u32) -> S, B: Fn(T, S, T) -> T>(
        &self,
        input: &Tensor<T>,
        weight: &Tensor<T>,
        epsilon: u32,
        statistics: A,
        rescale: B,
    ) -> (out: Tensor<T>)
        requires
            input.wf(),
            weight.wf(),
            input.dims().len() == 5,
            weight.dims() == seq![input.dims()[1]],
            forall|values: &[T], e: u32| #[trigger] call_requires(statistics, (values, e)),
            fold::accepts3(rescale),
        ensures
            out.wf(),
            channels_normalized(
                statistics,
                rescale,
                epsilon,
                input.array(),
                weight@,
                out.array(),
            ),
    {
        let shape = input.shape();
        let batch: usize = shape[0];
        let channels: usize = shape[1];
        proof {
            lemma_volume(input.dims());
            layout::lemma_product_small(weight.dims());
        }
        let plane: usize = shape[3] * shape[4];
        let volume: usize = shape[2] * plane;
        let found = channel_statistics(input, epsilon, &statistics, batch, channels, volume);
        let data = input.data();
        let w = weight.data();
        let len: usize = input.len();
        let mut out: Vec<T> = Vec::with_capacity(len);
        let mut k: usize = 0;
        while k < len
            invariant
                k == out@.len() <= len,
                data@.len() == len,
                len == batch * channels * volume,
                found@.len() == batch * volume,
                batch * volume <= usize::MAX,
                w@.len() == channels,
                0 < volume,
                0 < channels,
                fold::accepts3(rescale),
                forall|j: int|
                    0 <= j < k ==> call_ensures(
                        rescale,
                        (
                            data@[j],
                            found@[(j / volume as int / channels as int) * volume + j
                                % volume as int],
                            w@[(j / volume as int) % channels as int],
                        ),
                        #[trigger] out@[j],
                    ),
            decreases len - k,
        {
            let row: usize = k / volume;
            let at: usize = k % volume;
            proof {
                layout::lemma_divide(k as int, batch * channels, volume as int);
                layout::lemma_divide(row as int, batch as int, channels as int);
                layout::lemma_cell(
                    row as int / channels as int,
                    batch as int,
                    at as int,
                    volume as int,
                );
            }
            let sample: usize = row / channels;
            let channel: usize = row % channels;
            out.push(rescale(data[k], found[sample * volume + at], w[channel]));
            k = k + 1;
        }
        let made = Tensor::from_parts(vstd::slice::slice_to_vec(shape), out);
        proof {
            assert forall|sample: int, at: int|
                0 <= sample < batch && 0 <= at < volume implies weighted(
                statistics,
                rescale,
                epsilon,
                channels_at(input.array(), sample, at),
                w@,
                #[trigger] channels_at(made.array(), sample, at),
            ) by {
                layout::lemma_cell(sample, batch as int, at, volume as int);
                layout::lemma_split(sample, at, volume as int);
                let place = sample * volume + at;
                let s = found@[place];
                assert(found_out(
                    statistics,
                    epsilon,
                    channels_at(input.array(), place / volume as int, place % volume as int),
                    s,
                ));
                let values = choose|values: &[T]|
                    values@ == channels_at(input.array(), sample, at) && #[trigger] call_ensures(
                        statistics,
                        (values, epsilon),
                        s,
                    );
                assert(call_ensures(statistics, (values, epsilon), s));
                let row = channels_at(input.array(), sample, at);
                let after = channels_at(made.array(), sample, at);
                assert forall|c: int| 0 <= c < row.len() implies call_ensures(
                    rescale,
                    (row[c], s, w@[c]),
                    #[trigger] after[c],
                ) by {
                    layout::lemma_cell(sample, batch as int, c, channels as int);
                    layout::lemma_cell(
                        sample * channels + c,
                        batch * channels,
                        at,
                        volume as int,
                    );
                    layout::lemma_split(sample * channels + c, at, volume as int);
                    layout::lemma_split(sample, c, channels as int);
                    let j = (sample * channels + c) * volume + at;
                    assert(after[c] == out@[j]);
                }
            }
        }
        made
    }

    /// Normalizes the channels of a video at every place, with a prepared weight.
    pub fn channel_rms_norm_3d_device<
        T: Copy,
        S: Copy,
        A: Fn(&[T], u32) -> S,
        B: Fn(T, S, T) -> T,
    >(
        &self,
        input: &DeviceTensor<T>,
        weight: &PreparedVectorHandle<T>,
        epsilon: u32,
        statistics: A,
        rescale: B,
    ) -> (result: Result<DeviceTensor<T>, BackendError>)
        requires
            input.wf(),
            weight.wf(),
            forall|values: &[T], e: u32| #[trigger] call_requires(statistics, (values, e)),
            fold::accepts3(rescale),
        ensures
            match channel_norm_fault(*input, *weight, epsilon) {
                Some(fault) => result is Err && result->Err_0@ == fault,
                None => result is Ok && result->Ok_0.wf() && result->Ok_0.backend
                    == BackendKind::ScalarCpu && channels_normalized(
                    statistics,
                    rescale,
                    epsilon,
                    input.array(),
                    weight.vector@,
                    result->Ok_0.array(),
                ),
            },
    {
        match require_tensor(input) {
            Ok(_) => {},
            Err(error) => {
                return Err(error);
            },
        }
        match require_vector(weight) {
            Ok(_) => {},
            Err(error) => {
                return Err(error);
            },
        }
        let shape = input.tensor.shape();
        assert(shape@.len() == shape.len());
        if shape.len() != 5 {
            return Err(BackendError::ChannelRank);
        }
        let len: usize = weight.vector.shape()[0];
        if len != shape[1] {
            return Err(BackendError::ChannelLength { len, channels: shape[1] });
        }
        if !is_finite(epsilon) || !is_greater(epsilon, 0) {
            return Err(BackendError::ChannelEpsilon);
        }
        proof {
            assert(weight.vector.dims() =~= seq![shape@[1]]);
        }
        let out = self.channel_rms_norm_3d(
            &input.tensor,
            &weight.vector,
            epsilon,
            statistics,
            rescale,
        );
        Ok(DeviceTensor { backend: BackendKind::ScalarCpu, tensor: out })
    }
}

} // verus!
