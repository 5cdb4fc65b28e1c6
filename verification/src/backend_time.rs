//! Operations of the scalar backend on the time axis of videos.
//!
//! A video is a tensor of batch, channels, time, height and width. Its planes are the images of
//! one channel at one time; its rows are the sequences of planes of one channel.

use vstd::prelude::*;
use crate::backend;
use crate::backend::{DeviceTensor, ScalarBackend};
use crate::backend_error::{BackendError, BackendFault, BackendKind, Owned};
use crate::layout;
use crate::reshape::Array;
use crate::tensor::Tensor;

verus! {

/// The number of rows of a video.
pub open spec fn rows_of(dims: Seq<usize>) -> int {
    dims[0] * dims[1]
}

/// The number of elements of a plane.
pub open spec fn plane_of(dims: Seq<usize>) -> int {
    dims[3] * dims[4]
}

/// The place of an element: in its row, at its time, in its plane.
pub open spec fn place(time: int, plane: int, row: int, t: int, p: int) -> int {
    (row * time + t) * plane + p
}

/// The numbers of elements of a video and of its parts.
pub proof fn lemma_video(dims: Seq<usize>)
    requires
        dims.len() == 5,
        0 < layout::product(dims) <= usize::MAX,
    ensures
        rows_of(dims) > 0,
        plane_of(dims) > 0,
        dims[2] > 0,
        rows_of(dims) * dims[2] > 0,
        rows_of(dims) * dims[2] * plane_of(dims) == layout::product(dims),
        rows_of(dims) <= usize::MAX,
        plane_of(dims) <= usize::MAX,
        rows_of(dims) * dims[2] <= usize::MAX,
{
    layout::lemma_product_small(dims);
    layout::lemma_product_positive(dims);
    let a = dims[0] as int;
    let b = dims[1] as int;
    let c = dims[2] as int;
    let d = dims[3] as int;
    let e = dims[4] as int;
    assert(a > 0 && b > 0 && c > 0 && d > 0 && e > 0);
    assert(a * b > 0) by (nonlinear_arith)
        requires
            a > 0,
            b > 0,
    ;
    assert(d * e > 0) by (nonlinear_arith)
        requires
            d > 0,
            e > 0,
    ;
    let rows = a * b;
    let plane = d * e;
    assert(a * b * c * d * e == (rows * c) * plane) by (nonlinear_arith)
        requires
            rows == a * b,
            plane == d * e,
    ;
    assert(rows * c > 0) by (nonlinear_arith)
        requires
            rows > 0,
            c > 0,
    ;
    let both = rows * c;
    assert(rows <= both) by (nonlinear_arith)
        requires
            both == rows * c,
            rows > 0,
            c > 0,
    ;
    assert(both <= both * plane && plane <= both * plane) by (nonlinear_arith)
        requires
            both > 0,
            plane > 0,
    ;
}

/// An element lies in its video.
pub proof fn lemma_place(rows: int, time: int, plane: int, row: int, t: int, p: int)
    requires
        0 <= row < rows,
        0 <= t < time,
        0 <= p < plane,
    ensures
        0 <= row * time,
        0 <= row * time + t < rows * time,
        0 <= (row * time + t) * plane,
        0 <= place(time, plane, row, t, p) < rows * time * plane,
{
    layout::lemma_cell(row, rows, t, time);
    layout::lemma_cell(row * time + t, rows * time, p, plane);
}

/// Row, time and place in the plane of an element.
pub open spec fn whereabouts(time: int, plane: int, k: int) -> (int, int, int) {
    (k / plane / time, (k / plane) % time, k % plane)
}

/// The whereabouts of an element of a video.
pub proof fn lemma_whereabouts(rows: int, time: int, plane: int, k: int)
    requires
        0 < time,
        0 < plane,
        0 <= k < rows * time * plane,
    ensures
        ({
            let (row, t, p) = whereabouts(time, plane, k);
            0 <= row < rows && 0 <= t < time && 0 <= p < plane && place(time, plane, row, t, p)
                == k
        }),
{
    layout::lemma_divide(k, rows * time, plane);
    layout::lemma_divide(k / plane, rows, time);
}

/// The frames `start` to `start + count` of a video.
pub open spec fn sliced<T>(input: Array<T>, start: int, count: usize) -> Array<T> {
    let time = input.dims[2] as int;
    let plane = plane_of(input.dims);
    Array {
        dims: seq![input.dims[0], input.dims[1], count, input.dims[3], input.dims[4]],
        data: Seq::new(
            (rows_of(input.dims) * count * plane) as nat,
            |k: int|
                {
                    let (row, t, p) = whereabouts(count as int, plane, k);
                    input.data[place(time, plane, row, start + t, p)]
                },
        ),
    }
}

/// A video after `count` frames of zeros.
pub open spec fn prepended<T>(input: Array<T>, count: int, zero: T) -> Array<T> {
    let time = input.dims[2] as int;
    let plane = plane_of(input.dims);
    Array {
        dims: seq![
            input.dims[0],
            input.dims[1],
            (time + count) as usize,
            input.dims[3],
            input.dims[4],
        ],
        data: Seq::new(
            (rows_of(input.dims) * (time + count) * plane) as nat,
            |k: int|
                {
                    let (row, t, p) = whereabouts(time + count, plane, k);
                    if t < count {
                        zero
                    } else {
                        input.data[place(time, plane, row, t - count, p)]
                    }
                },
        ),
    }
}

/// A video with half the channels and twice the frames: frame `2 t + h` of channel `c` is frame
/// `t` of channel `c` of half `h` of the channels.
pub open spec fn shuffled<T>(input: Array<T>) -> Array<T> {
    let channels = input.dims[1] as int / 2;
    let time = input.dims[2] as int;
    let plane = plane_of(input.dims);
    Array {
        dims: seq![
            input.dims[0],
            channels as usize,
            (time * 2) as usize,
            input.dims[3],
            input.dims[4],
        ],
        data: Seq::new(
            input.data.len(),
            |k: int|
                {
                    let (row, t, p) = whereabouts(time * 2, plane, k);
                    let from = (row / channels) * input.dims[1] + (t % 2) * channels + row
                        % channels;
                    input.data[place(time, plane, from, t / 2, p)]
                },
        ),
    }
}

/// Why frames cannot be cut out of a video, if they cannot.
pub open spec fn slice_fault(dims: Seq<usize>, start: usize, count: usize) -> Option<BackendFault> {
    if dims.len() != 5 {
        Some(BackendFault::SliceRank)
    } else if count == 0 {
        Some(BackendFault::SliceNothing)
    } else if start + count > usize::MAX {
        Some(BackendFault::SliceOverflow)
    } else if start + count > dims[2] {
        Some(BackendFault::SliceRange { start, end: (start + count) as usize, time: dims[2] })
    } else {
        None
    }
}

/// Why channels cannot be turned into frames, if they cannot.
pub open spec fn shuffle_fault(dims: Seq<usize>) -> Option<BackendFault> {
    if dims.len() != 5 {
        Some(BackendFault::ShuffleRank)
    } else if dims[1] % 2 != 0 {
        Some(BackendFault::ShuffleChannels)
    } else if dims[2] * 2 > usize::MAX {
        Some(BackendFault::ShuffleOverflow)
    } else {
        None
    }
}

/// An owned tensor is what an operation gives.
pub open spec fn gives<T: Copy>(
    result: Result<DeviceTensor<T>, BackendError>,
    out: Array<T>,
) -> bool {
    &&& result is Ok
    &&& result->Ok_0.wf()
    &&& result->Ok_0.backend == BackendKind::ScalarCpu
    &&& result->Ok_0.array() == out
}

/// The first fault of two.
pub open spec fn either(first: Option<BackendFault>, second: Option<BackendFault>) -> Option<
    BackendFault,
> {
    match first {
        Some(fault) => Some(fault),
        None => second,
    }
}

/// A tensor of the scalar backend.
pub(crate) fn owned<T: Copy>(shape: Vec<usize>, data: Vec<T>) -> (out: DeviceTensor<T>)
    requires
        shape@.len() > 0,
        data@.len() == layout::product(shape@),
        0 < layout::product(shape@) <= usize::MAX,
    ensures
        out.wf(),
        out.backend == BackendKind::ScalarCpu,
        out.array().dims == shape@,
        out.array().data == data@,
{
    DeviceTensor { backend: BackendKind::ScalarCpu, tensor: Tensor::from_parts(shape, data) }
}

/// Refuses a tensor that another backend owns.
pub(crate) fn require_tensor<T: Copy>(
    tensor: &DeviceTensor<T>,
) -> (result: Result<(), BackendError>)
    ensures
        match backend::owner_fault(Owned::Tensor, tensor.backend) {
            Some(fault) => result is Err && result->Err_0@ == fault,
            None => result is Ok,
        },
{
    if tensor.backend != BackendKind::ScalarCpu {
        return Err(BackendError::Owner { owned: Owned::Tensor, owner: tensor.backend });
    }
    Ok(())
}

impl ScalarBackend {
    /// Cuts frames out of a video.
    pub fn ncthw_slice_time_device<T: Copy>(
        &self,
        input: &DeviceTensor<T>,
        start: usize,
        count: usize,
    ) -> (result: Result<DeviceTensor<T>, BackendError>)
        requires
            input.wf(),
        ensures
            match either(
                backend::owner_fault(Owned::Tensor, input.backend),
                slice_fault(input.array().dims, start, count),
            ) {
                Some(fault) => result is Err && result->Err_0@ == fault,
                None => gives(result, sliced(input.array(), start as int, count)),
            },
    {
        match require_tensor(input) {
            Ok(_) => {},
            Err(error) => {
                return Err(error);
            },
        }
        let shape = input.tensor.shape();
        assert(shape@.len() == shape.len());
        if shape.len() != 5 {
            return Err(BackendError::SliceRank);
        }
        if count == 0 {
            return Err(BackendError::SliceNothing);
        }
        let end: usize = match start.checked_add(count) {
            Some(end) => end,
            None => {
                return Err(BackendError::SliceOverflow);
            },
        };
        let time: usize = shape[2];
        if end > time {
            return Err(BackendError::SliceRange { start, end, time });
        }
        proof {
            lemma_video(shape@);
        }
        let rows: usize = shape[0] * shape[1];
        let plane: usize = shape[3] * shape[4];
        let ghost out_dims = seq![shape@[0], shape@[1], count, shape@[3], shape@[4]];
        proof {
            assert(rows * count <= rows * time && rows * count > 0) by (nonlinear_arith)
                requires
                    0 < rows,
                    0 < count <= time,
            ;
            assert(rows * count * plane <= rows * time * plane && rows * count * plane > 0)
                by (nonlinear_arith)
                requires
                    0 < rows * count <= rows * time,
                    0 < plane,
            ;
            layout::lemma_product_small(out_dims);
            let a = shape@[0] as int;
            let b = shape@[1] as int;
            let d = shape@[3] as int;
            let e = shape@[4] as int;
            let c = count as int;
            assert(a * b * c * d * e == (a * b) * c * (d * e)) by (nonlinear_arith);
        }
        let len: usize = rows * count * plane;
        let data = input.tensor.data();
        let mut out: Vec<T> = Vec::with_capacity(len);
        let mut k: usize = 0;
        while k < len
            invariant
                k == out@.len() <= len,
                len == rows * count * plane,
                0 < plane,
                0 < count,
                start + count <= time,
                data@ == input.array().data,
                data@.len() == rows * time * plane,
                time == input.array().dims[2],
                plane == plane_of(input.array().dims),
                rows == rows_of(input.array().dims),
                data@.len() <= usize::MAX,
                forall|j: int|
                    0 <= j < k ==> #[trigger] out@[j] == sliced(
                        input.array(),
                        start as int,
                        count,
                    ).data[j],
            decreases len - k,
        {
            proof {
                lemma_whereabouts(rows as int, count as int, plane as int, k as int);
            }
            let row: usize = k / plane / count;
            let t: usize = (k / plane) % count;
            let p: usize = k % plane;
            proof {
                lemma_place(
                    rows as int,
                    time as int,
                    plane as int,
                    row as int,
                    (start + t) as int,
                    p as int,
                );
                lemma_within(rows as int, time as int, plane as int);
            }
            out.push(data[(row * time + (start + t)) * plane + p]);
            k = k + 1;
        }
        let out_shape: Vec<usize> = vec![shape[0], shape[1], count, shape[3], shape[4]];
        proof {
            assert(out_shape@ =~= out_dims);
            assert(out@ =~= sliced(input.array(), start as int, count).data);
        }
        Ok(owned(out_shape, out))
    }

    /// Puts frames of zeros before a video.
    pub fn ncthw_prepend_zero_time_device<T: Copy>(
        &self,
        input: &DeviceTensor<T>,
        count: usize,
        zero: T,
    ) -> (result: Result<DeviceTensor<T>, BackendError>)
        requires
            input.wf(),
            input.array().dims.len() == 5 && input.array().dims[2] + count <= usize::MAX
                ==> rows_of(input.array().dims) * (input.array().dims[2] + count) * plane_of(
                input.array().dims,
            ) <= usize::MAX,
        ensures
            match backend::owner_fault(Owned::Tensor, input.backend) {
                Some(fault) => result is Err && result->Err_0@ == fault,
                None => if count == 0 {
                    gives(result, input.array())
                } else if input.array().dims.len() != 5 {
                    result is Err && result->Err_0@ == BackendFault::PrependRank
                } else if input.array().dims[2] + count > usize::MAX {
                    result is Err && result->Err_0@ == BackendFault::PrependOverflow
                } else {
                    gives(result, prepended(input.array(), count as int, zero))
                },
            },
    {
        match require_tensor(input) {
            Ok(_) => {},
            Err(error) => {
                return Err(error);
            },
        }
        if count == 0 {
            return Ok(self.upload_tensor(&input.tensor));
        }
        let shape = input.tensor.shape();
        assert(shape@.len() == shape.len());
        if shape.len() != 5 {
            return Err(BackendError::PrependRank);
        }
        let time: usize = shape[2];
        let output_time: usize = match time.checked_add(count) {
            Some(output_time) => output_time,
            None => {
                return Err(BackendError::PrependOverflow);
            },
        };
        proof {
            lemma_video(shape@);
        }
        let rows: usize = shape[0] * shape[1];
        let plane: usize = shape[3] * shape[4];
        let ghost out_dims = seq![shape@[0], shape@[1], output_time, shape@[3], shape@[4]];
        proof {
            assert(rows * output_time > 0) by (nonlinear_arith)
                requires
                    0 < rows,
                    0 < output_time,
            ;
            assert(rows * output_time <= rows * output_time * plane && rows * output_time * plane
                > 0) by (nonlinear_arith)
                requires
                    0 < rows * output_time,
                    0 < plane,
            ;
            layout::lemma_product_small(out_dims);
            let a = shape@[0] as int;
            let b = shape@[1] as int;
            let d = shape@[3] as int;
            let e = shape@[4] as int;
            let c = output_time as int;
            assert(a * b * c * d * e == (a * b) * c * (d * e)) by (nonlinear_arith);
        }
        let len: usize = rows * output_time * plane;
        let data = input.tensor.data();
        let mut out: Vec<T> = Vec::with_capacity(len);
        let mut k: usize = 0;
        while k < len
            invariant
                k == out@.len() <= len,
                len == rows * output_time * plane,
                0 < plane,
                0 < time,
                output_time == time + count,
                data@ == input.array().data,
                data@.len() == rows * time * plane,
                time == input.array().dims[2],
                plane == plane_of(input.array().dims),
                rows == rows_of(input.array().dims),
                data@.len() <= usize::MAX,
                forall|j: int|
                    0 <= j < k ==> #[trigger] out@[j] == prepended(
                        input.array(),
                        count as int,
                        zero,
                    ).data[j],
            decreases len - k,
        {
            proof {
                lemma_whereabouts(rows as int, output_time as int, plane as int, k as int);
            }
            let row: usize = k / plane / output_time;
            let t: usize = (k / plane) % output_time;
            let p: usize = k % plane;
            if t < count {
                out.push(zero);
            } else {
                proof {
                    lemma_place(
                        rows as int,
                        time as int,
                        plane as int,
                        row as int,
                        (t - count) as int,
                        p as int,
                    );
                    lemma_within(rows as int, time as int, plane as int);
                }
                out.push(data[(row * time + (t - count)) * plane + p]);
            }
            k = k + 1;
        }
        let out_shape: Vec<usize> = vec![shape[0], shape[1], output_time, shape[3], shape[4]];
        proof {
            assert(out_shape@ =~= out_dims);
            assert(out@ =~= prepended(input.array(), count as int, zero).data);
        }
        Ok(owned(out_shape, out))
    }

    /// Turns half of the channels of a video into frames.
    pub fn ncthw_channels_to_time_device<T: Copy>(&self, input: &DeviceTensor<T>) -> (result: Result<
        DeviceTensor<T>,
        BackendError,
    >)
        requires
            input.wf(),
        ensures
            match either(
                backend::owner_fault(Owned::Tensor, input.backend),
                shuffle_fault(input.array().dims),
            ) {
                Some(fault) => result is Err && result->Err_0@ == fault,
                None => gives(result, shuffled(input.array())),
            },
    {
        match require_tensor(input) {
            Ok(_) => {},
            Err(error) => {
                return Err(error);
            },
        }
        let shape = input.tensor.shape();
        assert(shape@.len() == shape.len());
        if shape.len() != 5 {
            return Err(BackendError::ShuffleRank);
        }
        if shape[1] % 2 != 0 {
            return Err(BackendError::ShuffleChannels);
        }
        let batch: usize = shape[0];
        let doubled: usize = shape[1];
        let channels: usize = shape[1] / 2;
        let time: usize = shape[2];
        let output_time: usize = match time.checked_mul(2) {
            Some(output_time) => output_time,
            None => {
                return Err(BackendError::ShuffleOverflow);
            },
        };
        proof {
            lemma_video(shape@);
            layout::lemma_product_positive(shape@);
        }
        let plane: usize = shape[3] * shape[4];
        let ghost rows = rows_of(shape@);
        let ghost half = batch * channels;
        let ghost out_dims = seq![shape@[0], channels, output_time, shape@[3], shape@[4]];
        let len: usize = input.tensor.len();
        proof {
            assert(rows == half * 2) by (nonlinear_arith)
                requires
                    rows == batch * doubled,
                    half == batch * channels,
                    doubled == channels * 2,
            ;
            assert(rows * time * plane == half * output_time * plane) by (nonlinear_arith)
                requires
                    rows == half * 2,
                    output_time == time * 2,
            ;
            layout::lemma_product_small(out_dims);
            let a = batch as int;
            let b = channels as int;
            let d = shape@[3] as int;
            let e = shape@[4] as int;
            let c = output_time as int;
            assert(a * b * c * d * e == (a * b) * c * (d * e)) by (nonlinear_arith);
        }
        let data = input.tensor.data();
        let mut out: Vec<T> = Vec::with_capacity(len);
        let mut k: usize = 0;
        while k < len
            invariant
                k == out@.len() <= len,
                len == half * output_time * plane,
                len == rows * time * plane,
                half == batch * channels,
                rows == batch * doubled,
                doubled == channels * 2,
                doubled == input.array().dims[1],
                0 < plane,
                0 < time,
                0 < channels,
                output_time == time * 2,
                data@ == input.array().data,
                data@.len() == len,
                time == input.array().dims[2],
                plane == plane_of(input.array().dims),
                forall|j: int|
                    0 <= j < k ==> #[trigger] out@[j] == shuffled(input.array()).data[j],
            decreases len - k,
        {
            proof {
                lemma_whereabouts(half, output_time as int, plane as int, k as int);
            }
            let row: usize = k / plane / output_time;
            let t: usize = (k / plane) % output_time;
            let p: usize = k % plane;
            let sample: usize = row / channels;
            let channel: usize = row % channels;
            proof {
                layout::lemma_divide(row as int, batch as int, channels as int);
                assert(0 <= (t % 2) * channels <= channels) by (nonlinear_arith)
                    requires
                        0 <= t % 2 <= 1,
                        0 < channels,
                ;
                layout::lemma_cell(
                    sample as int,
                    batch as int,
                    (t % 2) * channels + channel,
                    doubled as int,
                );
                lemma_place(
                    rows,
                    time as int,
                    plane as int,
                    sample * doubled + (t % 2) * channels + channel,
                    (t / 2) as int,
                    p as int,
                );
                lemma_within(rows, time as int, plane as int);
            }
            let from: usize = sample * doubled + (t % 2) * channels + channel;
            out.push(data[(from * time + t / 2) * plane + p]);
            k = k + 1;
        }
        let out_shape: Vec<usize> = vec![batch, channels, output_time, shape[3], shape[4]];
        proof {
            assert(out_shape@ =~= out_dims);
            assert(out@ =~= shuffled(input.array()).data);
        }
        Ok(owned(out_shape, out))
    }
}

/// The rows of a video are no more than its planes, and its planes no more than its elements.
proof fn lemma_within(rows: int, time: int, plane: int)
    requires
        0 <= rows,
        0 < time,
        0 < plane,
    ensures
        rows <= rows * time <= rows * time * plane,
{
    assert(rows <= rows * time) by (nonlinear_arith)
        requires
            0 <= rows,
            0 < time,
    ;
    let planes = rows * time;
    assert(planes <= planes * plane) by (nonlinear_arith)
        requires
            0 <= planes,
            0 < plane,
    ;
}

/// The number of frames of the first `n` videos, or why they cannot be joined.
pub open spec fn frames_of<T: Copy>(
    inputs: Seq<&DeviceTensor<T>>,
    n: int,
) -> Result<nat, BackendFault>
    decreases n,
{
    if n <= 0 {
        Ok(0)
    } else {
        match frames_of(inputs, n - 1) {
            Err(fault) => Err(fault),
            Ok(total) => {
                let first = inputs[0].array().dims;
                let dims = inputs[n - 1].array().dims;
                match backend::owner_fault(Owned::Tensor, inputs[n - 1].backend) {
                    Some(fault) => Err(fault),
                    None => if dims.len() != 5 {
                        Err(BackendFault::ConcatRank)
                    } else if !same_frame(first, dims) {
                        Err(BackendFault::ConcatDims { first, other: dims })
                    } else if total + dims[2] > usize::MAX {
                        Err(BackendFault::ConcatOverflow)
                    } else {
                        Ok(total + dims[2] as nat)
                    },
                }
            },
        }
    }
}

/// Two videos agree in everything but the number of frames.
pub open spec fn same_frame(first: Seq<usize>, other: Seq<usize>) -> bool {
    first[0] == other[0] && first[1] == other[1] && first[3] == other[3] && first[4] == other[4]
}

/// The number of frames of the first `n` videos.
pub open spec fn total_time<T>(videos: Seq<Array<T>>, n: int) -> int
    decreases n,
{
    if n <= 0 {
        0
    } else {
        total_time(videos, n - 1) + videos[n - 1].dims[2]
    }
}

/// An element of frame `t` of the first `n` videos, one after the other.
pub open spec fn frame_at<T>(videos: Seq<Array<T>>, n: int, row: int, t: int, p: int) -> T
    decreases n,
{
    if n <= 1 || t >= total_time(videos, n - 1) {
        videos[n - 1].data[place(
            videos[n - 1].dims[2] as int,
            plane_of(videos[n - 1].dims),
            row,
            t - total_time(videos, n - 1),
            p,
        )]
    } else {
        frame_at(videos, n - 1, row, t, p)
    }
}

/// Videos one after the other.
pub open spec fn joined<T>(videos: Seq<Array<T>>) -> Array<T> {
    let first = videos[0].dims;
    let time = total_time(videos, videos.len() as int);
    let plane = plane_of(first);
    Array {
        dims: seq![first[0], first[1], time as usize, first[3], first[4]],
        data: Seq::new(
            (rows_of(first) * time * plane) as nat,
            |k: int|
                {
                    let (row, t, p) = whereabouts(time, plane, k);
                    frame_at(videos, videos.len() as int, row, t, p)
                },
        ),
    }
}

/// The contents of owned tensors.
pub open spec fn contents<T: Copy>(inputs: Seq<&DeviceTensor<T>>) -> Seq<Array<T>> {
    Seq::new(inputs.len(), |i: int| inputs[i].array())
}

/// Cutting a video in two and joining the parts gives the video back.
pub proof fn joined_slices_are_the_video<T>(input: Array<T>, cut: usize)
    requires
        input.wf(),
        input.dims.len() == 5,
        0 < cut < input.dims[2],
    ensures
        joined(
            seq![
                sliced(input, 0, cut),
                sliced(input, cut as int, (input.dims[2] - cut) as usize),
            ],
        ) == input,
{
    lemma_video(input.dims);
    let time = input.dims[2] as int;
    let plane = plane_of(input.dims);
    let rows = rows_of(input.dims);
    let rest = (input.dims[2] - cut) as usize;
    let videos = seq![sliced(input, 0, cut), sliced(input, cut as int, rest)];
    reveal_with_fuel(total_time, 3);
    reveal_with_fuel(frame_at, 3);
    let out = joined(videos);
    assert(total_time(videos, 2) == time);
    assert(total_time(videos, 1) == cut);
    assert(out.dims =~= input.dims);
    assert forall|k: int| 0 <= k < input.data.len() implies #[trigger] out.data[k]
        == input.data[k] by {
        lemma_whereabouts(rows, time, plane, k);
        let (row, t, p) = whereabouts(time, plane, k);
        if t < cut {
            lemma_place(rows, cut as int, plane, row, t, p);
            lemma_back(cut as int, plane, row, t, p);
        } else {
            lemma_place(rows, rest as int, plane, row, t - cut, p);
            lemma_back(rest as int, plane, row, t - cut, p);
        }
    }
    assert(out.data =~= input.data);
}

/// The whereabouts of a place are what the place was made of.
pub proof fn lemma_back(time: int, plane: int, row: int, t: int, p: int)
    requires
        0 <= t < time,
        0 <= p < plane,
    ensures
        whereabouts(time, plane, place(time, plane, row, t, p)) == (row, t, p),
{
    layout::lemma_split(row * time + t, p, plane);
    layout::lemma_split(row, t, time);
}

/// Cutting off the frames of zeros gives the video back.
pub proof fn slicing_undoes_prepending<T>(input: Array<T>, count: usize, zero: T)
    requires
        input.wf(),
        input.dims.len() == 5,
        0 < count,
        input.dims[2] + count <= usize::MAX,
    ensures
        sliced(prepended(input, count as int, zero), count as int, input.dims[2]) == input,
{
    lemma_video(input.dims);
    let time = input.dims[2] as int;
    let plane = plane_of(input.dims);
    let rows = rows_of(input.dims);
    let longer = prepended(input, count as int, zero);
    let out = sliced(longer, count as int, input.dims[2]);
    assert(out.dims =~= input.dims);
    assert forall|k: int| 0 <= k < input.data.len() implies #[trigger] out.data[k]
        == input.data[k] by {
        lemma_whereabouts(rows, time, plane, k);
        let (row, t, p) = whereabouts(time, plane, k);
        lemma_place(rows, time + count, plane, row, count + t, p);
        lemma_back(time + count, plane, row, count + t, p);
    }
    assert(out.data =~= input.data);
}

/// What is wrong with some of the videos is wrong with all of them.
proof fn lemma_frames_fault<T: Copy>(inputs: Seq<&DeviceTensor<T>>, n: int, all: int)
    requires
        n <= all,
    ensures
        frames_of(inputs, n) is Err ==> frames_of(inputs, all) == frames_of(inputs, n),
        frames_of(inputs, all) is Ok ==> frames_of(inputs, n) is Ok
            && frames_of(inputs, n)->Ok_0 <= frames_of(inputs, all)->Ok_0,
    decreases all - n,
{
    if n < all {
        lemma_frames_fault(inputs, n, all - 1);
    }
}

/// Videos that can be joined have as many frames as is counted, and the same planes.
proof fn lemma_frames<T: Copy>(inputs: Seq<&DeviceTensor<T>>, n: int)
    requires
        0 <= n <= inputs.len(),
        frames_of(inputs, n) is Ok,
    ensures
        frames_of(inputs, n)->Ok_0 == total_time(contents(inputs), n),
        forall|i: int|
            0 <= i < n ==> (#[trigger] inputs[i]).array().dims.len() == 5 && same_frame(
                inputs[0].array().dims,
                inputs[i].array().dims,
            ),
    decreases n,
{
    if n > 0 {
        lemma_frames(inputs, n - 1);
    }
}

/// An element of frame `t` of videos, one after the other.
fn frame_element<T: Copy>(
    inputs: &[&DeviceTensor<T>],
    rows: usize,
    plane: usize,
    row: usize,
    t: usize,
    p: usize,
) -> (value: T)
    requires
        inputs@.len() > 0,
        forall|i: int| 0 <= i < inputs@.len() ==> (#[trigger] inputs@[i]).wf(),
        frames_of(inputs@, inputs@.len() as int) is Ok,
        rows == rows_of(inputs@[0].array().dims),
        plane == plane_of(inputs@[0].array().dims),
        row < rows,
        p < plane,
        t < frames_of(inputs@, inputs@.len() as int)->Ok_0,
    ensures
        value == frame_at(
            contents(inputs@),
            inputs@.len() as int,
            row as int,
            t as int,
            p as int,
        ),
{
    let ghost videos = contents(inputs@);
    let count: usize = inputs.len();
    assert(count == inputs@.len());
    proof {
        lemma_frames(inputs@, count as int);
        assert(inputs@[0].wf());
    }
    let mut i: usize = 0;
    let mut before: usize = 0;
    let mut time: usize = inputs[0].tensor.shape()[2];
    while t - before >= time
        invariant
            i < count,
            count == inputs@.len() == inputs.len(),
            videos == contents(inputs@),
            before == total_time(videos, i as int),
            before <= t,
            time == inputs@[i as int].array().dims[2],
            t < total_time(videos, count as int) <= usize::MAX,
            forall|j: int|
                0 <= j < count ==> (#[trigger] inputs@[j]).array().dims.len() == 5 && same_frame(
                    inputs@[0].array().dims,
                    inputs@[j].array().dims,
                ),
        decreases count - i,
    {
        proof {
            assert(videos[i as int] == inputs@[i as int].array());
            assert(total_time(videos, i + 1) == before + time);
            if i + 1 == count {
                assert(false);
            }
            lemma_total_grows(videos, i + 1, count as int);
        }
        before = before + time;
        i = i + 1;
        assert(inputs@[i as int].array().dims.len() == 5);
        time = inputs[i].tensor.shape()[2];
    }
    let video = inputs[i];
    proof {
        assert(video == inputs@[i as int]);
        assert(videos[i as int] == video.array());
        assert(video.wf());
        lemma_found(videos, i + 1, count as int, row as int, t as int, p as int);
        lemma_video(video.array().dims);
        lemma_place(
            rows as int,
            time as int,
            plane as int,
            row as int,
            (t - before) as int,
            p as int,
        );
        lemma_within(rows as int, time as int, plane as int);
    }
    video.tensor.data()[(row * time + (t - before)) * plane + p]
}

/// A frame of the first `n` videos is the same frame of all of them.
proof fn lemma_found<T>(videos: Seq<Array<T>>, n: int, all: int, row: int, t: int, p: int)
    requires
        1 <= n <= all <= videos.len(),
        t < total_time(videos, n),
        t >= total_time(videos, n - 1),
    ensures
        frame_at(videos, all, row, t, p) == videos[n - 1].data[place(
            videos[n - 1].dims[2] as int,
            plane_of(videos[n - 1].dims),
            row,
            t - total_time(videos, n - 1),
            p,
        )],
    decreases all - n,
{
    if n < all {
        lemma_found(videos, n, all - 1, row, t, p);
        lemma_total_grows(videos, n, all - 1);
    }
}

/// More videos have more frames.
proof fn lemma_total_grows<T>(videos: Seq<Array<T>>, n: int, all: int)
    requires
        0 <= n <= all,
    ensures
        total_time(videos, n) <= total_time(videos, all),
    decreases all - n,
{
    if n < all {
        lemma_total_grows(videos, n, all - 1);
    }
}

impl ScalarBackend {
    /// Joins videos, one after the other.
    pub fn ncthw_concat_time_device<T: Copy>(&self, inputs: &[&DeviceTensor<T>]) -> (result: Result<
        DeviceTensor<T>,
        BackendError,
    >)
        requires
            forall|i: int| 0 <= i < inputs@.len() ==> (#[trigger] inputs@[i]).wf(),
            inputs@.len() > 0 ==> (frames_of(inputs@, inputs@.len() as int) matches Ok(time)
                ==> rows_of(inputs@[0].array().dims) * time * plane_of(inputs@[0].array().dims)
                <= usize::MAX),
        ensures
            if inputs@.len() == 0 {
                result is Err && result->Err_0@ == BackendFault::ConcatNothing
            } else {
                match frames_of(inputs@, inputs@.len() as int) {
                    Err(fault) => result is Err && result->Err_0@ == fault,
                    Ok(_) => gives(result, joined(contents(inputs@))),
                }
            },
    {
        let count: usize = inputs.len();
        assert(count == inputs@.len());
        if count == 0 {
            return Err(BackendError::ConcatNothing);
        }
        let first = inputs[0];
        assert(first == inputs@[0]);
        let mut total: usize = 0;
        let mut i: usize = 0;
        while i < count
            invariant
                i <= count,
                count == inputs@.len() == inputs.len(),
                first == inputs@[0],
                frames_of(inputs@, i as int) == Ok::<nat, BackendFault>(total as nat),
                i > 0 ==> first.array().dims.len() == 5,
            decreases count - i,
        {
            let video = inputs[i];
            assert(video == inputs@[i as int]);
            proof {
                lemma_frames_fault(inputs@, i + 1, count as int);
            }
            match require_tensor(video) {
                Ok(_) => {},
                Err(error) => {
                    return Err(error);
                },
            }
            let shape = video.tensor.shape();
            let frame = first.tensor.shape();
            assert(shape@.len() == shape.len());
            if shape.len() != 5 {
                return Err(BackendError::ConcatRank);
            }
            assert(frame@.len() == 5);
            if shape[0] != frame[0] || shape[1] != frame[1] || shape[3] != frame[3] || shape[4]
                != frame[4] {
                return Err(
                    BackendError::ConcatDims {
                        first: vstd::slice::slice_to_vec(frame),
                        other: vstd::slice::slice_to_vec(shape),
                    },
                );
            }
            total = match total.checked_add(shape[2]) {
                Some(total) => total,
                None => {
                    return Err(BackendError::ConcatOverflow);
                },
            };
            i = i + 1;
        }
        let shape = first.tensor.shape();
        let ghost videos = contents(inputs@);
        proof {
            lemma_frames(inputs@, count as int);
            lemma_video(shape@);
            lemma_total_grows(videos, 1, count as int);
            reveal_with_fuel(total_time, 2);
            assert(videos[0] == first.array());
        }
        let rows: usize = shape[0] * shape[1];
        let plane: usize = shape[3] * shape[4];
        let ghost out_dims = seq![shape@[0], shape@[1], total, shape@[3], shape@[4]];
        proof {
            assert(rows * total > 0) by (nonlinear_arith)
                requires
                    0 < rows,
                    0 < total,
            ;
            assert(rows * total <= rows * total * plane && rows * total * plane > 0)
                by (nonlinear_arith)
                requires
                    0 < rows * total,
                    0 < plane,
            ;
            layout::lemma_product_small(out_dims);
            let a = shape@[0] as int;
            let b = shape@[1] as int;
            let d = shape@[3] as int;
            let e = shape@[4] as int;
            let c = total as int;
            assert(a * b * c * d * e == (a * b) * c * (d * e)) by (nonlinear_arith);
        }
        let len: usize = rows * total * plane;
        let mut out: Vec<T> = Vec::with_capacity(len);
        let mut k: usize = 0;
        while k < len
            invariant
                k == out@.len() <= len,
                len == rows * total * plane,
                0 < plane,
                0 < total,
                inputs@.len() > 0,
                forall|j: int| 0 <= j < inputs@.len() ==> (#[trigger] inputs@[j]).wf(),
                frames_of(inputs@, inputs@.len() as int) == Ok::<nat, BackendFault>(total as nat),
                total == total_time(contents(inputs@), inputs@.len() as int),
                contents(inputs@)[0] == inputs@[0].array(),
                rows == rows_of(inputs@[0].array().dims),
                plane == plane_of(inputs@[0].array().dims),
                forall|j: int|
                    0 <= j < k ==> #[trigger] out@[j] == joined(contents(inputs@)).data[j],
            decreases len - k,
        {
            proof {
                lemma_whereabouts(rows as int, total as int, plane as int, k as int);
            }
            let row: usize = k / plane / total;
            let t: usize = (k / plane) % total;
            let p: usize = k % plane;
            out.push(frame_element(inputs, rows, plane, row, t, p));
            k = k + 1;
        }
        let out_shape: Vec<usize> = vec![shape[0], shape[1], total, shape[3], shape[4]];
        proof {
            assert(out_shape@ =~= out_dims);
            assert(out@ =~= joined(contents(inputs@)).data);
        }
        Ok(owned(out_shape, out))
    }
}

} // verus!
