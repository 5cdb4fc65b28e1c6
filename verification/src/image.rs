//! Upsampling and channel concatenation of NCHW images.

use vstd::prelude::*;
use crate::conv::cell4;
use crate::layout;
use crate::tensor::{extend, nchw, Tensor};
use crate::tensor_error::{Quantity, TensorError, TensorFault};

verus! {

/// Why nearest-neighbour upsampling refuses its arguments, if it does.
pub open spec fn upsample_refusal(input: Seq<usize>, scale: [usize; 2]) -> Option<TensorFault> {
    if input.len() != 4 {
        Some(TensorFault::NotNchw { shape: input })
    } else if scale[0] == 0 || scale[1] == 0 {
        Some(TensorFault::UpsampleScale)
    } else if input[2] * scale[0] > usize::MAX {
        Some(TensorFault::Overflow(Quantity::UpsampleHeight))
    } else if input[3] * scale[1] > usize::MAX {
        Some(TensorFault::Overflow(Quantity::UpsampleWidth))
    } else if (input[2] * scale[0]) * (input[3] * scale[1]) > usize::MAX {
        Some(TensorFault::Overflow(Quantity::UpsamplePlane))
    } else if input[0] * input[1] * ((input[2] * scale[0]) * (input[3] * scale[1])) > usize::MAX {
        Some(TensorFault::Overflow(Quantity::UpsampleOutput))
    } else {
        None
    }
}

/// Two NCHW shapes agree in all but their channel count.
pub open spec fn same_frame(first: Seq<usize>, other: Seq<usize>) -> bool {
    first[0] == other[0] && first[2] == other[2] && first[3] == other[3]
}

/// The channels of the first `n` tensors together, or what is wrong with the first bad one.
pub open spec fn channels_of<T>(tensors: Seq<&Tensor<T>>, n: int) -> Result<nat, TensorFault>
    decreases n,
{
    if n <= 0 {
        Ok(0)
    } else {
        match channels_of(tensors, n - 1) {
            Err(fault) => Err(fault),
            Ok(total) => {
                let first = tensors[0].dims();
                let dims = tensors[n - 1].dims();
                if dims.len() != 4 {
                    Err(TensorFault::NotNchw { shape: dims })
                } else if !same_frame(first, dims) {
                    Err(TensorFault::ConcatMismatch { first, other: dims })
                } else if total + dims[1] > usize::MAX {
                    Err(TensorFault::Overflow(Quantity::ConcatChannels))
                } else {
                    Ok(total + dims[1] as nat)
                }
            },
        }
    }
}

/// Why channel concatenation refuses its arguments, if it does.
pub open spec fn concat_refusal<T>(tensors: Seq<&Tensor<T>>) -> Option<TensorFault> {
    if tensors.len() == 0 {
        Some(TensorFault::ConcatNothing)
    } else {
        let first = tensors[0].dims();
        match channels_of(tensors, tensors.len() as int) {
            Err(fault) => Some(fault),
            Ok(total) => if first[0] * total * (first[2] * first[3]) > usize::MAX {
                Some(TensorFault::Overflow(Quantity::ConcatOutput))
            } else {
                None
            },
        }
    }
}

/// The elements of one sample of a tensor.
pub open spec fn sample_of<T>(tensor: &Tensor<T>, sample: int) -> Seq<T> {
    let block = tensor.dims()[1] * (tensor.dims()[2] * tensor.dims()[3]);
    tensor@.subrange(sample * block, sample * block + block)
}

/// One sample of the first `n` tensors, one after the other.
pub open spec fn joined_sample<T>(tensors: Seq<&Tensor<T>>, sample: int, n: int) -> Seq<T>
    decreases n,
{
    if n <= 0 {
        Seq::empty()
    } else {
        joined_sample(tensors, sample, n - 1) + sample_of(tensors[n - 1], sample)
    }
}

/// The first `samples` samples of all tensors.
pub open spec fn joined<T>(tensors: Seq<&Tensor<T>>, samples: int) -> Seq<T>
    decreases samples,
{
    if samples <= 0 {
        Seq::empty()
    } else {
        joined(tensors, samples - 1) + joined_sample(tensors, samples - 1, tensors.len() as int)
    }
}

/// What is wrong with a prefix of the tensors is what is wrong with all of them.
proof fn lemma_channels_fault<T>(tensors: Seq<&Tensor<T>>, n: int, all: int)
    requires
        n <= all,
    ensures
        channels_of(tensors, n) is Err ==> channels_of(tensors, all) == channels_of(tensors, n),
        channels_of(tensors, all) is Ok ==> channels_of(tensors, n) is Ok
            && channels_of(tensors, n)->Ok_0 <= channels_of(tensors, all)->Ok_0,
    decreases all - n,
{
    if n < all {
        lemma_channels_fault(tensors, n, all - 1);
    }
}

/// Every tensor of an accepted list is an NCHW tensor in the frame of the first.
proof fn lemma_accepted<T>(tensors: Seq<&Tensor<T>>, n: int, i: int)
    requires
        channels_of(tensors, n) is Ok,
        0 <= i < n,
    ensures
        tensors[i].dims().len() == 4,
        same_frame(tensors[0].dims(), tensors[i].dims()),
    decreases n,
{
    if i < n - 1 {
        lemma_accepted(tensors, n - 1, i);
    }
}

/// One sample of an accepted list has as many elements as its channels fill.
proof fn lemma_joined_sample_len<T>(tensors: Seq<&Tensor<T>>, sample: int, n: int)
    requires
        0 <= n <= tensors.len(),
        channels_of(tensors, n) is Ok,
        forall|i: int| 0 <= i < n ==> (#[trigger] tensors[i]).wf(),
        0 <= sample,
        n > 0 ==> sample < tensors[0].dims()[0],
    ensures
        joined_sample(tensors, sample, n).len() == channels_of(tensors, n)->Ok_0 * (
        tensors[0].dims()[2] * tensors[0].dims()[3]),
    decreases n,
{
    let plane = tensors[0].dims()[2] * tensors[0].dims()[3];
    if n > 0 {
        lemma_joined_sample_len(tensors, sample, n - 1);
        lemma_accepted(tensors, n, n - 1);
        assert(tensors[n - 1].wf());
        lemma_sample_block(tensors[n - 1], sample);
        let before = channels_of(tensors, n - 1)->Ok_0;
        let added = tensors[n - 1].dims()[1] as nat;
        assert((before + added) * plane == before * plane + added * plane) by (nonlinear_arith);
    } else {
        assert(0 * plane == 0) by (nonlinear_arith);
    }
}

/// A sample lies within its tensor.
proof fn lemma_sample_block<T>(tensor: &Tensor<T>, sample: int)
    requires
        tensor.wf(),
        tensor.dims().len() == 4,
        0 <= sample < tensor.dims()[0],
    ensures
        ({
            let plane = tensor.dims()[2] * tensor.dims()[3];
            let block = tensor.dims()[1] * plane;
            &&& 0 < plane <= usize::MAX
            &&& 0 < block <= usize::MAX
            &&& 0 <= sample * block
            &&& sample * block + block <= tensor@.len() <= usize::MAX
            &&& sample_of(tensor, sample).len() == block
        }),
{
    let dims = tensor.dims();
    layout::lemma_product_small(dims);
    layout::lemma_product_positive(dims);
    let plane = dims[2] * dims[3];
    let block = dims[1] * plane;
    assert(plane > 0) by (nonlinear_arith)
        requires
            plane == dims[2] * dims[3],
            dims[2] > 0,
            dims[3] > 0,
    ;
    assert(block > 0 && block >= plane) by (nonlinear_arith)
        requires
            block == dims[1] * plane,
            plane > 0,
            dims[1] > 0,
    ;
    assert(dims[0] * dims[1] * dims[2] * dims[3] == dims[0] * block) by (nonlinear_arith)
        requires
            block == dims[1] * (dims[2] * dims[3]),
    ;
    layout::lemma_cell(sample, dims[0] as int, 0, block);
    assert(block <= dims[0] * block) by (nonlinear_arith)
        requires
            dims[0] > 0,
            block > 0,
    ;
}

impl<T: Copy> Tensor<T> {
    /// Repeats every pixel `scale[0]` times down and `scale[1]` times across.
    pub fn upsample_nearest2d(&self, scale: [usize; 2]) -> (result: Result<Self, TensorError>)
        requires
            self.wf(),
        ensures
            match upsample_refusal(self.dims(), scale) {
                Some(fault) => result is Err && result->Err_0@ == fault,
                None => {
                    &&& result matches Ok(out)
                    &&& out.wf()
                    &&& out.dims() == seq![
                        self.dims()[0],
                        self.dims()[1],
                        (self.dims()[2] * scale[0]) as usize,
                        (self.dims()[3] * scale[1]) as usize,
                    ]
                    &&& forall|n: int, c: int, y: int, x: int|
                        #![trigger layout::offset4(out.dims(), n, c, y, x)]
                        layout::inside4(out.dims(), n, c, y, x) ==> out@[layout::offset4(
                            out.dims(),
                            n,
                            c,
                            y,
                            x,
                        )] == self@[layout::offset4(
                            self.dims(),
                            n,
                            c,
                            y / scale[0] as int,
                            x / scale[1] as int,
                        )]
                },
            },
    {
        let dims: [usize; 4] = match nchw(self.shape()) {
            Ok(dims) => dims,
            Err(error) => {
                return Err(error);
            },
        };
        if scale[0] == 0 || scale[1] == 0 {
            return Err(TensorError::UpsampleScale);
        }
        let out_height: usize = match dims[2].checked_mul(scale[0]) {
            Some(value) => value,
            None => {
                return Err(TensorError::Overflow(Quantity::UpsampleHeight));
            },
        };
        let out_width: usize = match dims[3].checked_mul(scale[1]) {
            Some(value) => value,
            None => {
                return Err(TensorError::Overflow(Quantity::UpsampleWidth));
            },
        };
        let plane: usize = match out_height.checked_mul(out_width) {
            Some(value) => value,
            None => {
                return Err(TensorError::Overflow(Quantity::UpsamplePlane));
            },
        };
        proof {
            layout::lemma_product_positive(self.dims());
            layout::lemma_product_prefix(self.dims(), 2);
            layout::lemma_product_small(self.dims().take(2));
        }
        let planes: usize = dims[0] * dims[1];
        let len: usize = match planes.checked_mul(plane) {
            Some(value) => value,
            None => {
                return Err(TensorError::Overflow(Quantity::UpsampleOutput));
            },
        };
        let shape: Vec<usize> = vec![dims[0], dims[1], out_height, out_width];
        let ghost out_dims = shape@;
        proof {
            layout::lemma_product_small(out_dims);
            assert(planes * out_height * out_width == planes * (out_height * out_width))
                by (nonlinear_arith);
            assert(out_height > 0) by (nonlinear_arith)
                requires
                    out_height == dims[2] * scale[0],
                    dims[2] > 0,
                    scale[0] > 0,
            ;
            assert(out_width > 0) by (nonlinear_arith)
                requires
                    out_width == dims[3] * scale[1],
                    dims[3] > 0,
                    scale[1] > 0,
            ;
            layout::lemma_product_positive(out_dims);
        }
        let mut data: Vec<T> = Vec::with_capacity(len);
        let mut k: usize = 0;
        while k < len
            invariant
                k == data@.len() <= len,
                len == layout::product(out_dims),
                out_dims == seq![dims[0], dims[1], out_height, out_width],
                dims@ == self.dims(),
                self.wf(),
                out_height == dims[2] * scale[0],
                out_width == dims[3] * scale[1],
                scale[0] > 0,
                scale[1] > 0,
                forall|j: int|
                    0 <= j < k ==> ({
                        let (n, c, y, x) = layout::coord4(out_dims, j);
                        #[trigger] data@[j] == self@[layout::offset4(
                            self.dims(),
                            n,
                            c,
                            y / scale[0] as int,
                            x / scale[1] as int,
                        )]
                    }),
            decreases len - k,
        {
            proof {
                layout::lemma_coord4(out_dims, k as int);
                layout::lemma_product_positive(out_dims);
            }
            let x: usize = k % out_width;
            let y: usize = (k / out_width) % out_height;
            let c: usize = (k / out_width / out_height) % dims[1];
            let n: usize = k / out_width / out_height / dims[1];
            proof {
                layout::lemma_divide(y as int, dims[2] as int, scale[0] as int);
                layout::lemma_divide(x as int, dims[3] as int, scale[1] as int);
            }
            let from: usize = cell4(&dims, n, c, y / scale[0], x / scale[1]);
            data.push(self.data()[from]);
            k = k + 1;
        }
        proof {
            assert forall|n: int, c: int, y: int, x: int|
                #![trigger layout::offset4(out_dims, n, c, y, x)]
                layout::inside4(out_dims, n, c, y, x) implies data@[layout::offset4(
                out_dims,
                n,
                c,
                y,
                x,
            )] == self@[layout::offset4(
                self.dims(),
                n,
                c,
                y / scale[0] as int,
                x / scale[1] as int,
            )] by {
                layout::lemma_offset4(out_dims, n, c, y, x);
            }
        }
        Ok(Tensor::from_parts(shape, data))
    }

    /// Joins NCHW tensors along the channel axis.
    pub fn concat_channels(tensors: &[&Self]) -> (result: Result<Self, TensorError>)
        requires
            forall|i: int| 0 <= i < tensors@.len() ==> (#[trigger] tensors@[i]).wf(),
        ensures
            match concat_refusal(tensors@) {
                Some(fault) => result is Err && result->Err_0@ == fault,
                None => {
                    let first = tensors@[0].dims();
                    let channels = channels_of(tensors@, tensors@.len() as int)->Ok_0;
                    &&& result matches Ok(out)
                    &&& out.wf()
                    &&& out.dims() == seq![first[0], channels as usize, first[2], first[3]]
                    &&& out@ == joined(tensors@, first[0] as int)
                },
            },
    {
        if tensors.len() == 0 {
            return Err(TensorError::ConcatNothing);
        }
        let ghost list = tensors@;
        let count: usize = tensors.len();
        proof {
            reveal_with_fuel(channels_of, 2);
            assert(list[0].wf());
            lemma_channels_fault(list, 1, count as int);
        }
        let first: [usize; 4] = match nchw(tensors[0].shape()) {
            Ok(dims) => dims,
            Err(error) => {
                return Err(error);
            },
        };
        let mut total: usize = 0;
        let mut i: usize = 0;
        while i < count
            invariant
                i <= count == list.len(),
                list == tensors@,
                0 < count,
                list[0].dims() == first@,
                channels_of(list, i as int) == Ok::<nat, TensorFault>(total as nat),
            decreases count - i,
        {
            proof {
                lemma_channels_fault(list, i + 1, count as int);
            }
            let dims: [usize; 4] = match nchw(tensors[i].shape()) {
                Ok(dims) => dims,
                Err(error) => {
                    return Err(error);
                },
            };
            if dims[0] != first[0] || dims[2] != first[2] || dims[3] != first[3] {
                return Err(
                    TensorError::ConcatMismatch {
                        first: vstd::slice::slice_to_vec(tensors[0].shape()),
                        other: vstd::slice::slice_to_vec(tensors[i].shape()),
                    },
                );
            }
            total = match total.checked_add(dims[1]) {
                Some(value) => value,
                None => {
                    return Err(TensorError::Overflow(Quantity::ConcatChannels));
                },
            };
            i = i + 1;
        }
        let batch: usize = first[0];
        proof {
            layout::lemma_product_positive(list[0].dims());
            lemma_sample_block(list[0], 0);
        }
        let plane: usize = first[2] * first[3];
        let ghost rows = batch * total;
        proof {
            assert(rows * plane >= rows) by (nonlinear_arith)
                requires
                    plane > 0,
                    rows >= 0,
            ;
        }
        let rows: usize = match batch.checked_mul(total) {
            Some(value) => value,
            None => {
                return Err(TensorError::Overflow(Quantity::ConcatOutput));
            },
        };
        let len: usize = match rows.checked_mul(plane) {
            Some(value) => value,
            None => {
                return Err(TensorError::Overflow(Quantity::ConcatOutput));
            },
        };
        let mut data: Vec<T> = Vec::with_capacity(len);
        let mut sample: usize = 0;
        while sample < batch
            invariant
                sample <= batch,
                batch == first[0],
                plane == first[2] * first[3],
                count == list.len(),
                0 < count,
                list == tensors@,
                list[0].dims() == first@,
                forall|i: int| 0 <= i < list.len() ==> (#[trigger] list[i]).wf(),
                channels_of(list, count as int) == Ok::<nat, TensorFault>(total as nat),
                data@ == joined(list, sample as int),
                data@.len() == sample * (total * plane),
            decreases batch - sample,
        {
            let ghost before = data@;
            let mut i: usize = 0;
            while i < count
                invariant
                    i <= count == list.len(),
                    sample < batch == first[0],
                    plane == first[2] * first[3],
                    list == tensors@,
                    list[0].dims() == first@,
                    forall|i: int| 0 <= i < list.len() ==> (#[trigger] list[i]).wf(),
                    channels_of(list, count as int) is Ok,
                    data@ == before + joined_sample(list, sample as int, i as int),
                decreases count - i,
            {
                let tensor = tensors[i];
                proof {
                    lemma_accepted(list, count as int, i as int);
                    assert(list[i as int].wf());
                    lemma_sample_block(list[i as int], sample as int);
                }
                let block: usize = tensor.shape()[1] * plane;
                let start: usize = sample * block;
                let part = vstd::slice::slice_subrange(tensor.data(), start, start + block);
                extend(&mut data, part);
                proof {
                    assert(data@ =~= before + joined_sample(list, sample as int, i + 1));
                }
                i = i + 1;
            }
            proof {
                lemma_joined_sample_len(list, sample as int, count as int);
                assert((sample + 1) * (total * plane) == sample * (total * plane) + total * plane)
                    by (nonlinear_arith);
            }
            sample = sample + 1;
        }
        let shape: Vec<usize> = vec![batch, total, first[2], first[3]];
        proof {
            layout::lemma_product_small(shape@);
            assert(batch * total * first[2] * first[3] == batch * (total * plane))
                by (nonlinear_arith)
                requires
                    plane == first[2] * first[3],
            ;
            assert(batch * total * plane == batch * (total * plane)) by (nonlinear_arith);
            lemma_channels_fault(list, 1, count as int);
            reveal_with_fuel(channels_of, 2);
            assert(total > 0);
            assert(total * plane > 0) by (nonlinear_arith)
                requires
                    total > 0,
                    plane > 0,
            ;
            assert(batch * (total * plane) > 0) by (nonlinear_arith)
                requires
                    batch > 0,
                    total * plane > 0,
            ;
        }
        Ok(Tensor::from_parts(shape, data))
    }
}

} // verus!
