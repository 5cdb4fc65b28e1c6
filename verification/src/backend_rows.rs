//! Operations of the scalar backend with prepared weights, and along the last axis.

use vstd::prelude::*;
use crate::backend;
use crate::backend::{
    Conv3dWeightHandle, DeviceTensor, LinearWeightHandle, PreparedVectorHandle, ScalarBackend,
};
use crate::backend_error::{BackendError, BackendFault, BackendKind, Owned};
use crate::backend_time::{either, owned, require_tensor};
use crate::float_order;
use crate::float_order::is_finite;
use crate::fold;
use crate::layout;
use crate::norm;
use crate::reshape::Array;
use crate::tensor;
use crate::tensor::{same_dims, Tensor};
use crate::tensor_error::TensorError;

verus! {

/// A copy of an optional tensor.
fn duplicate_bias<T: Copy>(bias: Option<&Tensor<T>>) -> (copy: Option<Tensor<T>>)
    requires
        bias is Some ==> bias->0.wf(),
    ensures
        copy is Some <==> bias is Some,
        copy is Some ==> copy->0.wf() && copy->0.array() == bias->0.array(),
{
    match bias {
        Some(bias) => Some(bias.duplicate()),
        None => None,
    }
}

/// Refuses a vector that another backend owns.
pub(crate) fn require_vector<T: Copy>(
    vector: &PreparedVectorHandle<T>,
) -> (result: Result<(), BackendError>)
    ensures
        match backend::owner_fault(Owned::Vector, vector.backend) {
            Some(fault) => result is Err && result->Err_0@ == fault,
            None => result is Ok,
        },
{
    if vector.backend != BackendKind::ScalarCpu {
        return Err(BackendError::Owner { owned: Owned::Vector, owner: vector.backend });
    }
    Ok(())
}

/// Why weights of a linear projection cannot be prepared, if they cannot.
pub open spec fn linear_fault(
    weight: Seq<usize>,
    bias: Option<Seq<usize>>,
) -> Option<BackendFault> {
    if weight.len() != 2 {
        Some(BackendFault::LinearRank)
    } else {
        match bias {
            Some(shape) => if shape != seq![weight[0]] {
                Some(BackendFault::LinearBias { shape, width: weight[0] })
            } else {
                None
            },
            None => None,
        }
    }
}

/// Why weights of a convolution cannot be prepared, if they cannot.
pub open spec fn conv3d_fault(
    weight: Seq<usize>,
    bias: Option<Seq<usize>>,
) -> Option<BackendFault> {
    if weight.len() != 5 {
        Some(BackendFault::Conv3dRank)
    } else {
        match bias {
            Some(shape) => if shape != seq![weight[0]] {
                Some(BackendFault::Conv3dBias { shape, channels: weight[0] })
            } else {
                None
            },
            None => None,
        }
    }
}

/// Why an axis cannot be convolved, if it cannot.
pub open spec fn axis_fault(input: usize, before: usize, after: usize, kernel: usize) -> Option<
    BackendFault,
> {
    if input + before + after > usize::MAX {
        Some(BackendFault::Conv3dOverflow)
    } else if input + before + after < kernel {
        Some(BackendFault::Conv3dKernel)
    } else {
        None
    }
}

/// Why a video cannot be convolved, if it cannot.
pub open spec fn convolution_fault(
    input: Seq<usize>,
    weight: Seq<usize>,
    before: Seq<usize>,
    after: Seq<usize>,
) -> Option<BackendFault> {
    if input.len() != 5 {
        Some(BackendFault::Conv3dInputRank)
    } else if input[1] != weight[1] {
        Some(BackendFault::Conv3dChannels)
    } else {
        either(
            axis_fault(input[2], before[0], after[0], weight[2]),
            either(
                axis_fault(input[3], before[1], after[1], weight[3]),
                axis_fault(input[4], before[2], after[2], weight[4]),
            ),
        )
    }
}

/// Why a video is not convolved with prepared weights, before the convolution itself.
pub open spec fn prepared_fault<T: Copy>(
    input: &DeviceTensor<T>,
    weights: &Conv3dWeightHandle<T>,
    before: Seq<usize>,
    after: Seq<usize>,
) -> Option<BackendFault> {
    either(
        either(
            backend::owner_fault(Owned::Tensor, input.backend),
            backend::owner_fault(Owned::Conv3dWeights, weights.backend),
        ),
        convolution_fault(input.array().dims, weights.weight.dims(), before, after),
    )
}

/// What the convolution of a video with prepared weights is given.
pub open spec fn convolution_arguments<'a, T>(
    input: &'a DeviceTensor<T>,
    weights: &'a Conv3dWeightHandle<T>,
    before: [usize; 3],
    after: [usize; 3],
) -> (
    &'a Tensor<T>,
    &'a Tensor<T>,
    Option<&'a Tensor<T>>,
    [usize; 3],
    [usize; 3],
    [usize; 3],
    [usize; 3],
    usize,
) {
    (
        &input.tensor,
        &weights.weight,
        match weights.bias {
            Some(bias) => Some(&bias),
            None => None,
        },
        [1, 1, 1],
        before,
        after,
        [1, 1, 1],
        1,
    )
}

/// Refuses an axis that cannot be convolved.
fn check_axis(input: usize, before: usize, after: usize, kernel: usize) -> (result: Result<
    (),
    BackendError,
>)
    ensures
        match axis_fault(input, before, after, kernel) {
            Some(fault) => result is Err && result->Err_0@ == fault,
            None => result is Ok,
        },
{
    let padded: usize = match input.checked_add(before) {
        Some(sum) => match sum.checked_add(after) {
            Some(padded) => padded,
            None => {
                return Err(BackendError::Conv3dOverflow);
            },
        },
        None => {
            return Err(BackendError::Conv3dOverflow);
        },
    };
    if padded < kernel {
        return Err(BackendError::Conv3dKernel);
    }
    Ok(())
}

/// `out` is the projection of the last dimension.
pub open spec fn projected<T: Copy, M: Fn(T, T, T) -> T>(
    mac: M,
    zero: T,
    input: Array<T>,
    weights: LinearWeightHandle<T>,
    out: Array<T>,
) -> bool {
    let weight = weights.weight.array();
    &&& out.dims == input.dims.update(input.dims.len() - 1, weight.dims[0])
    &&& forall|row: int, o: int|
        #![trigger out.data[row * weight.dims[0] + o]]
        0 <= row < input.data.len() / (weight.dims[1] as nat) && 0 <= o < weight.dims[0]
            ==> fold::accumulates(
            mac,
            input.data,
            weight.data,
            fold::run(row * weight.dims[1], o * weight.dims[1], weight.dims[1] as nat),
            match weights.bias {
                Some(bias) => bias@[o],
                None => zero,
            },
            out.data[row * weight.dims[0] + o],
        )
}

impl ScalarBackend {
    /// Projects the last dimension.
    pub fn linear<T: Copy, M: Fn(T, T, T) -> T>(
        &self,
        input: &Tensor<T>,
        weight: &Tensor<T>,
        bias: Option<&Tensor<T>>,
        zero: T,
        mac: M,
    ) -> (result: Result<Tensor<T>, BackendError>)
        requires
            input.wf(),
            weight.wf(),
            bias is Some ==> bias->0.wf(),
            fold::total3(mac),
        ensures
            match tensor::linear_refusal(input.dims(), weight.dims(), tensor::optional_dims(bias)) {
                Some(fault) => result is Err && result->Err_0@ == BackendFault::Tensor(fault),
                None => result is Ok && result->Ok_0.wf() && result->Ok_0.dims()
                    == input.dims().update(input.dims().len() - 1, weight.dims()[0]) && forall|
                    row: int,
                    o: int,
                |
                    #![trigger result->Ok_0@[row * weight.dims()[0] + o]]
                    0 <= row < input@.len() / (weight.dims()[1] as nat) && 0 <= o
                        < weight.dims()[0] ==> fold::accumulates(
                        mac,
                        input@,
                        weight@,
                        fold::run(
                            row * weight.dims()[1],
                            o * weight.dims()[1],
                            weight.dims()[1] as nat,
                        ),
                        tensor::start_value(bias, o, zero),
                        result->Ok_0@[row * weight.dims()[0] + o],
                    ),
            },
    {
        match input.linear(weight, bias, zero, mac) {
            Ok(out) => Ok(out),
            Err(error) => Err(BackendError::Tensor(error)),
        }
    }

    /// Prepares the weights of a linear projection.
    pub fn prepare_linear<T: Copy>(&self, weight: &Tensor<T>, bias: Option<&Tensor<T>>) -> (result:
        Result<LinearWeightHandle<T>, BackendError>)
        requires
            weight.wf(),
            bias is Some ==> bias->0.wf(),
        ensures
            match linear_fault(weight.dims(), tensor::optional_dims(bias)) {
                Some(fault) => result is Err && result->Err_0@ == fault,
                None => {
                    &&& result is Ok
                    &&& result->Ok_0.wf()
                    &&& result->Ok_0.backend == BackendKind::ScalarCpu
                    &&& result->Ok_0.weight.array() == weight.array()
                    &&& result->Ok_0.bias is Some <==> bias is Some
                    &&& bias is Some ==> result->Ok_0.bias->0.array() == bias->0.array()
                },
            },
    {
        let shape = weight.shape();
        assert(shape@.len() == shape.len());
        if shape.len() != 2 {
            return Err(BackendError::LinearRank);
        }
        if let Some(bias) = bias {
            let expected: [usize; 1] = [shape[0]];
            assert(expected@ =~= seq![shape@[0]]);
            if !same_dims(bias.shape(), &expected) {
                return Err(
                    BackendError::LinearBias {
                        shape: vstd::slice::slice_to_vec(bias.shape()),
                        width: shape[0],
                    },
                );
            }
        }
        Ok(
            LinearWeightHandle {
                backend: BackendKind::ScalarCpu,
                weight: weight.duplicate(),
                bias: duplicate_bias(bias),
            },
        )
    }

    /// Projects the last dimension with prepared weights.
    pub fn linear_prepared<T: Copy, M: Fn(T, T, T) -> T>(
        &self,
        input: &DeviceTensor<T>,
        weights: &LinearWeightHandle<T>,
        zero: T,
        mac: M,
    ) -> (result: Result<DeviceTensor<T>, BackendError>)
        requires
            input.wf(),
            weights.wf(),
            fold::total3(mac),
        ensures
            match either(
                either(
                    backend::owner_fault(Owned::Tensor, input.backend),
                    backend::owner_fault(Owned::Weights, weights.backend),
                ),
                if input.array().dims.last() != weights.weight.dims()[1] {
                    Some(
                        BackendFault::LinearInput {
                            shape: input.array().dims,
                            width: weights.weight.dims()[1],
                        },
                    )
                } else {
                    match tensor::linear_refusal(
                        input.array().dims,
                        weights.weight.dims(),
                        backend::bias_dims(weights.bias),
                    ) {
                        Some(fault) => Some(BackendFault::Tensor(fault)),
                        None => None,
                    }
                },
            ) {
                Some(fault) => result is Err && result->Err_0@ == fault,
                None => result is Ok && result->Ok_0.wf() && result->Ok_0.backend
                    == BackendKind::ScalarCpu && projected(
                    mac,
                    zero,
                    input.array(),
                    *weights,
                    result->Ok_0.array(),
                ),
            },
    {
        match require_tensor(input) {
            Ok(_) => {},
            Err(error) => {
                return Err(error);
            },
        }
        if weights.backend != BackendKind::ScalarCpu {
            return Err(BackendError::Owner { owned: Owned::Weights, owner: weights.backend });
        }
        let shape = input.tensor.shape();
        assert(shape@.len() == shape.len());
        let width: usize = weights.weight.shape()[1];
        if shape[shape.len() - 1] != width {
            return Err(
                BackendError::LinearInput { shape: vstd::slice::slice_to_vec(shape), width },
            );
        }
        match input.tensor.linear(&weights.weight, weights.bias.as_ref(), zero, mac) {
            Ok(out) => Ok(DeviceTensor { backend: BackendKind::ScalarCpu, tensor: out }),
            Err(error) => Err(BackendError::Tensor(error)),
        }
    }

    /// Prepares the weights of a convolution over time and space.
    pub fn prepare_conv3d<T: Copy>(&self, weight: &Tensor<T>, bias: Option<&Tensor<T>>) -> (result:
        Result<Conv3dWeightHandle<T>, BackendError>)
        requires
            weight.wf(),
            bias is Some ==> bias->0.wf(),
        ensures
            match conv3d_fault(weight.dims(), tensor::optional_dims(bias)) {
                Some(fault) => result is Err && result->Err_0@ == fault,
                None => {
                    &&& result is Ok
                    &&& result->Ok_0.wf()
                    &&& result->Ok_0.backend == BackendKind::ScalarCpu
                    &&& result->Ok_0.weight.array() == weight.array()
                    &&& result->Ok_0.bias is Some <==> bias is Some
                    &&& bias is Some ==> result->Ok_0.bias->0.array() == bias->0.array()
                },
            },
    {
        let shape = weight.shape();
        assert(shape@.len() == shape.len());
        if shape.len() != 5 {
            return Err(BackendError::Conv3dRank);
        }
        if let Some(bias) = bias {
            let expected: [usize; 1] = [shape[0]];
            assert(expected@ =~= seq![shape@[0]]);
            if !same_dims(bias.shape(), &expected) {
                return Err(
                    BackendError::Conv3dBias {
                        shape: vstd::slice::slice_to_vec(bias.shape()),
                        channels: shape[0],
                    },
                );
            }
        }
        Ok(
            Conv3dWeightHandle {
                backend: BackendKind::ScalarCpu,
                weight: weight.duplicate(),
                bias: duplicate_bias(bias),
            },
        )
    }

    /// Convolves a video with prepared weights, without strides, dilation or groups. The given
    /// convolution takes the video, the weight, the bias, the strides, the padding before and
    /// after, the dilations and the number of groups.
    pub fn conv3d_prepared_device<
        T: Copy,
        F: Fn(
            &Tensor<T>,
            &Tensor<T>,
            Option<&Tensor<T>>,
            [usize; 3],
            [usize; 3],
            [usize; 3],
            [usize; 3],
            usize,
        ) -> Result<Tensor<T>, TensorError>,
    >(
        &self,
        input: &DeviceTensor<T>,
        weights: &Conv3dWeightHandle<T>,
        padding_before: [usize; 3],
        padding_after: [usize; 3],
        convolve: F,
    ) -> (result: Result<DeviceTensor<T>, BackendError>)
        requires
            input.wf(),
            weights.wf(),
            prepared_fault(input, weights, padding_before@, padding_after@) is None ==> {
                &&& call_requires(
                    convolve,
                    convolution_arguments(input, weights, padding_before, padding_after),
                )
                &&& forall|out: Result<Tensor<T>, TensorError>| #[trigger]
                    call_ensures(
                        convolve,
                        convolution_arguments(input, weights, padding_before, padding_after),
                        out,
                    ) ==> out is Err || out->Ok_0.wf()
            },
        ensures
            match prepared_fault(input, weights, padding_before@, padding_after@) {
                Some(fault) => result is Err && result->Err_0@ == fault,
                None => exists|out: Result<Tensor<T>, TensorError>|
                    {
                        &&& #[trigger] call_ensures(
                            convolve,
                            convolution_arguments(input, weights, padding_before, padding_after),
                            out,
                        )
                        &&& match out {
                            Ok(tensor) => {
                                &&& result is Ok
                                &&& result->Ok_0.wf()
                                &&& result->Ok_0.backend == BackendKind::ScalarCpu
                                &&& result->Ok_0.tensor == tensor
                            },
                            Err(error) => result is Err && result->Err_0@ == BackendFault::Tensor(
                                error@,
                            ),
                        }
                    },
            },
    {
        match require_tensor(input) {
            Ok(_) => {},
            Err(error) => {
                return Err(error);
            },
        }
        if weights.backend != BackendKind::ScalarCpu {
            return Err(BackendError::Owner { owned: Owned::Conv3dWeights, owner: weights.backend });
        }
        let shape = input.tensor.shape();
        let kernel = weights.weight.shape();
        assert(shape@.len() == shape.len());
        if shape.len() != 5 {
            return Err(BackendError::Conv3dInputRank);
        }
        if shape[1] != kernel[1] {
            return Err(BackendError::Conv3dChannels);
        }
        let mut axis: usize = 0;
        while axis < 3
            invariant
                axis <= 3,
                shape@.len() == 5,
                kernel@.len() == 5,
                forall|a: int|
                    0 <= a < axis ==> axis_fault(
                        shape@[2 + a],
                        #[trigger] padding_before@[a],
                        padding_after@[a],
                        kernel@[2 + a],
                    ) is None,
                shape@ == input.array().dims,
                kernel@ == weights.weight.dims(),
                shape@[1] == kernel@[1],
                input.backend == BackendKind::ScalarCpu,
                weights.backend == BackendKind::ScalarCpu,
            decreases 3 - axis,
        {
            match check_axis(
                shape[2 + axis],
                padding_before[axis],
                padding_after[axis],
                kernel[2 + axis],
            ) {
                Ok(_) => {},
                Err(error) => {
                    proof {
                        if axis >= 1 {
                            assert(axis_fault(
                                shape@[2],
                                padding_before@[0],
                                padding_after@[0],
                                kernel@[2],
                            ) is None);
                        }
                        if axis >= 2 {
                            assert(axis_fault(
                                shape@[3],
                                padding_before@[1],
                                padding_after@[1],
                                kernel@[3],
                            ) is None);
                        }
                    }
                    return Err(error);
                },
            }
            axis = axis + 1;
        }
        proof {
            assert(
                axis_fault(shape@[2], padding_before@[0], padding_after@[0], kernel@[2]) is None
            );
            assert(
                axis_fault(shape@[3], padding_before@[1], padding_after@[1], kernel@[3]) is None
            );
            assert(
                axis_fault(shape@[4], padding_before@[2], padding_after@[2], kernel@[4]) is None
            );
        }
        let bias = weights.bias.as_ref();
        match convolve(
            &input.tensor,
            &weights.weight,
            bias,
            [1, 1, 1],
            padding_before,
            padding_after,
            [1, 1, 1],
            1,
        ) {
            Ok(tensor) => Ok(DeviceTensor { backend: BackendKind::ScalarCpu, tensor }),
            Err(error) => Err(BackendError::Tensor(error)),
        }
    }

    /// Applies the SiLU activation.
    pub fn silu_device<T: Copy, F: Fn(T) -> T>(&self, input: &DeviceTensor<T>, activation: F) -> (result:
        Result<DeviceTensor<T>, BackendError>)
        requires
            input.wf(),
            fold::total1(activation),
        ensures
            match backend::owner_fault(Owned::Tensor, input.backend) {
                Some(fault) => result is Err && result->Err_0@ == fault,
                None => result is Ok && result->Ok_0.wf() && result->Ok_0.backend
                    == BackendKind::ScalarCpu && backend::activated(
                    activation,
                    input.array(),
                    result->Ok_0.array(),
                ),
            },
    {
        match require_tensor(input) {
            Ok(_) => Ok(
                DeviceTensor {
                    backend: BackendKind::ScalarCpu,
                    tensor: self.silu(&input.tensor, activation),
                },
            ),
            Err(error) => Err(error),
        }
    }

    /// Applies the tanh approximation of the GELU activation.
    pub fn gelu_tanh_device<T: Copy, F: Fn(T) -> T>(
        &self,
        input: &DeviceTensor<T>,
        activation: F,
    ) -> (result: Result<DeviceTensor<T>, BackendError>)
        requires
            input.wf(),
            fold::total1(activation),
        ensures
            match backend::owner_fault(Owned::Tensor, input.backend) {
                Some(fault) => result is Err && result->Err_0@ == fault,
                None => result is Ok && result->Ok_0.wf() && result->Ok_0.backend
                    == BackendKind::ScalarCpu && backend::activated(
                    activation,
                    input.array(),
                    result->Ok_0.array(),
                ),
            },
    {
        match require_tensor(input) {
            Ok(_) => Ok(
                DeviceTensor {
                    backend: BackendKind::ScalarCpu,
                    tensor: self.gelu_tanh(&input.tensor, activation),
                },
            ),
            Err(error) => Err(error),
        }
    }

    /// Adds two tensors of one shape.
    pub fn add_device<T: Copy, F: Fn(T, T) -> T>(
        &self,
        left: &DeviceTensor<T>,
        right: &DeviceTensor<T>,
        plus: F,
    ) -> (result: Result<DeviceTensor<T>, BackendError>)
        requires
            left.wf(),
            right.wf(),
            fold::total2(plus),
        ensures
            match either(
                either(
                    backend::owner_fault(Owned::Tensor, left.backend),
                    backend::owner_fault(Owned::Tensor, right.backend),
                ),
                if left.array().dims != right.array().dims {
                    Some(
                        BackendFault::AddShapes {
                            left: left.array().dims,
                            right: right.array().dims,
                        },
                    )
                } else {
                    None
                },
            ) {
                Some(fault) => result is Err && result->Err_0@ == fault,
                None => result is Ok && result->Ok_0.wf() && result->Ok_0.backend
                    == BackendKind::ScalarCpu && backend::paired(
                    plus,
                    left.array(),
                    right.array(),
                    result->Ok_0.array(),
                ),
            },
    {
        match require_tensor(left) {
            Ok(_) => {},
            Err(error) => {
                return Err(error);
            },
        }
        match require_tensor(right) {
            Ok(_) => {},
            Err(error) => {
                return Err(error);
            },
        }
        if !same_dims(left.tensor.shape(), right.tensor.shape()) {
            return Err(
                BackendError::AddShapes {
                    left: vstd::slice::slice_to_vec(left.tensor.shape()),
                    right: vstd::slice::slice_to_vec(right.tensor.shape()),
                },
            );
        }
        match self.add(&left.tensor, &right.tensor, plus) {
            Ok(out) => Ok(DeviceTensor { backend: BackendKind::ScalarCpu, tensor: out }),
            Err(error) => Err(error),
        }
    }

    /// Multiplies every element by a finite number.
    pub fn scale_device<T: Copy, F: Fn(T, u32) -> T>(
        &self,
        input: &DeviceTensor<T>,
        value: u32,
        times: F,
    ) -> (result: Result<DeviceTensor<T>, BackendError>)
        requires
            input.wf(),
            fold::total2(times),
        ensures
            match either(
                backend::owner_fault(Owned::Tensor, input.backend),
                if !float_order::finite(value) {
                    Some(BackendFault::ScaleFinite)
                } else {
                    None
                },
            ) {
                Some(fault) => result is Err && result->Err_0@ == fault,
                None => result is Ok && result->Ok_0.wf() && result->Ok_0.backend
                    == BackendKind::ScalarCpu && backend::scaled(
                    times,
                    input.array(),
                    value,
                    result->Ok_0.array(),
                ),
            },
    {
        match require_tensor(input) {
            Ok(_) => {},
            Err(error) => {
                return Err(error);
            },
        }
        if !is_finite(value) {
            return Err(BackendError::ScaleFinite);
        }
        Ok(
            DeviceTensor {
                backend: BackendKind::ScalarCpu,
                tensor: self.scale(&input.tensor, value, times),
            },
        )
    }

    /// Prepares a vector.
    pub fn prepare_vector<T: Copy>(&self, vector: &Tensor<T>) -> (result: Result<
        PreparedVectorHandle<T>,
        BackendError,
    >)
        requires
            vector.wf(),
        ensures
            if vector.dims().len() != 1 {
                result is Err && result->Err_0@ == BackendFault::VectorRank
            } else {
                result is Ok && result->Ok_0.wf() && result->Ok_0.backend
                    == BackendKind::ScalarCpu && result->Ok_0.vector.array() == vector.array()
            },
    {
        let shape = vector.shape();
        assert(shape@.len() == shape.len());
        if shape.len() != 1 {
            return Err(BackendError::VectorRank);
        }
        Ok(
            PreparedVectorHandle { backend: BackendKind::ScalarCpu, vector: vector.duplicate() },
        )
    }

    /// Adds a vector of as many elements as the tensor has.
    pub fn add_vector_device<T: Copy, F: Fn(T, T) -> T>(
        &self,
        input: &DeviceTensor<T>,
        vector: &PreparedVectorHandle<T>,
        plus: F,
    ) -> (result: Result<DeviceTensor<T>, BackendError>)
        requires
            input.wf(),
            vector.wf(),
            fold::total2(plus),
        ensures
            match either(
                either(
                    backend::owner_fault(Owned::Tensor, input.backend),
                    backend::owner_fault(Owned::Vector, vector.backend),
                ),
                if layout::product(input.array().dims) != vector.vector.dims()[0] {
                    Some(
                        BackendFault::VectorLength {
                            len: vector.vector.dims()[0],
                            shape: input.array().dims,
                        },
                    )
                } else {
                    None
                },
            ) {
                Some(fault) => result is Err && result->Err_0@ == fault,
                None => result is Ok && result->Ok_0.wf() && result->Ok_0.backend
                    == BackendKind::ScalarCpu && backend::paired(
                    plus,
                    input.array(),
                    vector.vector.array(),
                    result->Ok_0.array(),
                ),
            },
    {
        match require_tensor(input) {
            Ok(_) => {},
            Err(error) => {
                return Err(error);
            },
        }
        match require_vector(vector) {
            Ok(_) => {},
            Err(error) => {
                return Err(error);
            },
        }
        let len: usize = vector.vector.shape()[0];
        if input.tensor.len() != len {
            return Err(
                BackendError::VectorLength {
                    len,
                    shape: vstd::slice::slice_to_vec(input.tensor.shape()),
                },
            );
        }
        proof {
            layout::lemma_product_small(vector.vector.dims());
        }
        let a = input.tensor.data();
        let b = vector.vector.data();
        let mut data: Vec<T> = Vec::with_capacity(len);
        let mut i: usize = 0;
        while i < len
            invariant
                i == data@.len() <= len,
                a@.len() == len,
                b@.len() == len,
                fold::total2(plus),
                forall|j: int|
                    0 <= j < i ==> call_ensures(plus, (a@[j], b@[j]), #[trigger] data@[j]),
            decreases len - i,
        {
            data.push(plus(a[i], b[i]));
            i = i + 1;
        }
        Ok(owned(vstd::slice::slice_to_vec(input.tensor.shape()), data))
    }
}

/// A number is positive and finite.
pub open spec fn positive(bits: u32) -> bool {
    float_order::finite(bits) && float_order::greater(bits, 0)
}

/// `out` is a row changed element by element, with what was found out about the whole row.
pub open spec fn row_changed<T, S, A: Fn(&[T], u32) -> S, B: Fn(usize, T, S) -> T>(
    statistics: A,
    change: B,
    epsilon: u32,
    row: Seq<T>,
    out: Seq<T>,
) -> bool {
    &&& out.len() == row.len()
    &&& exists|values: &[T], s: S|
        {
            &&& values@ == row
            &&& #[trigger] call_ensures(statistics, (values, epsilon), s)
            &&& forall|i: int|
                0 <= i < row.len() ==> call_ensures(
                    change,
                    (i as usize, row[i], s),
                    #[trigger] out[i],
                )
        }
}

/// Changes every row of a tensor element by element.
pub(crate) fn change_rows<T: Copy, S: Copy, A: Fn(&[T], u32) -> S, B: Fn(usize, T, S) -> T>(
    input: &Tensor<T>,
    width: usize,
    epsilon: u32,
    statistics: &A,
    change: &B,
) -> (out: Vec<T>)
    requires
        input.wf(),
        width == input.dims().last(),
        forall|values: &[T], e: u32| #[trigger] call_requires(*statistics, (values, e)),
        forall|i: usize, x: T, s: S| i < width ==> #[trigger] call_requires(*change, (i, x, s)),
    ensures
        out@.len() == input@.len(),
        forall|row: int|
            0 <= row < input@.len() / (width as nat) ==> row_changed(
                *statistics,
                *change,
                epsilon,
                norm::row_of(input@, row, width as int),
                #[trigger] norm::row_of(out@, row, width as int),
            ),
{
    let data = input.data();
    let len: usize = input.len();
    let ghost init = layout::product(input.dims().drop_last()) as int;
    proof {
        layout::lemma_product_positive(input.dims());
        layout::lemma_split(init, 0, width as int);
    }
    let rows: usize = len / width;
    let mut out: Vec<T> = Vec::with_capacity(len);
    let mut row: usize = 0;
    while row < rows
        invariant
            row <= rows,
            0 < width,
            data@ == input@,
            data@.len() == rows * width <= usize::MAX,
            out@.len() == row * width,
            forall|values: &[T], e: u32| #[trigger] call_requires(*statistics, (values, e)),
            forall|i: usize, x: T, s: S| i < width ==> #[trigger] call_requires(*change, (i, x, s)),
            forall|r: int|
                0 <= r < row ==> row_changed(
                    *statistics,
                    *change,
                    epsilon,
                    norm::row_of(data@, r, width as int),
                    #[trigger] norm::row_of(out@, r, width as int),
                ),
        decreases rows - row,
    {
        proof {
            layout::lemma_cell(row as int, rows as int, 0, width as int);
        }
        let ghost before = out@;
        let start: usize = row * width;
        let values = vstd::slice::slice_subrange(data, start, start + width);
        let s = statistics(values, epsilon);
        let mut i: usize = 0;
        while i < width
            invariant
                i <= width,
                values@.len() == width,
                out@.len() == before.len() + i,
                out@.take(before.len() as int) == before,
                forall|c: usize, x: T, t: S|
                    c < width ==> #[trigger] call_requires(*change, (c, x, t)),
                forall|c: int|
                    0 <= c < i ==> call_ensures(
                        *change,
                        (c as usize, values@[c], s),
                        #[trigger] out@[before.len() + c],
                    ),
            decreases width - i,
        {
            out.push(change(i, values[i], s));
            proof {
                assert(out@.take(before.len() as int) =~= before);
            }
            i = i + 1;
        }
        proof {
            let made = norm::row_of(out@, row as int, width as int);
            assert(values@ =~= norm::row_of(data@, row as int, width as int));
            assert(call_ensures(*statistics, (values, epsilon), s));
            assert forall|c: int| 0 <= c < width implies call_ensures(
                *change,
                (c as usize, values@[c], s),
                #[trigger] made[c],
            ) by {
                assert(made[c] == out@[before.len() + c]);
            }
            assert(row_changed(
                *statistics,
                *change,
                epsilon,
                norm::row_of(data@, row as int, width as int),
                made,
            ));
            assert forall|r: int| 0 <= r < row + 1 implies row_changed(
                *statistics,
                *change,
                epsilon,
                norm::row_of(data@, r, width as int),
                #[trigger] norm::row_of(out@, r, width as int),
            ) by {
                if r < row {
                    layout::lemma_cell(r, row as int, 0, width as int);
                    assert(norm::row_of(out@, r, width as int) =~= norm::row_of(
                        before,
                        r,
                        width as int,
                    ));
                }
            }
        }
        row = row + 1;
    }
    out
}

} // verus!
