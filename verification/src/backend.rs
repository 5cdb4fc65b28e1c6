//! Tensor operations of the scalar backend.

use vstd::prelude::*;
use crate::backend_error::{BackendError, BackendFault, BackendKind, Owned};
use crate::float_order;
use crate::float_order::{is_finite, is_greater};
use crate::fold;
use crate::layout;
use crate::reshape::Array;
use crate::tensor;
use crate::tensor::{same_dims, Tensor};

verus! {

broadcast use vstd::string::group_string_axioms;

/// A tensor and its owner.
pub struct DeviceTensor<T> {
    pub backend: BackendKind,
    pub tensor: Tensor<T>,
}

impl<T: Copy> DeviceTensor<T> {
    /// The tensor's contents.
    pub open spec fn array(&self) -> Array<T> {
        self.tensor.array()
    }

    /// The tensor is well-formed.
    pub open spec fn wf(&self) -> bool {
        self.tensor.wf()
    }

    /// The tensor's shape.
    pub fn shape(&self) -> (shape: &[usize])
        ensures
            shape@ == self.array().dims,
    {
        self.tensor.shape()
    }

    /// The number of elements.
    pub fn len(&self) -> (len: usize)
        requires
            self.wf(),
        ensures
            len == layout::product(self.array().dims),
    {
        self.tensor.len()
    }

    /// The number of bytes of single-precision elements.
    pub fn byte_len(&self) -> (len: usize)
        requires
            self.wf(),
            4 * layout::product(self.array().dims) <= usize::MAX,
        ensures
            len == 4 * layout::product(self.array().dims),
    {
        self.tensor.len() * 4
    }

    /// The owner.
    pub fn backend_kind(&self) -> (kind: BackendKind)
        ensures
            kind == self.backend,
    {
        self.backend
    }
}

/// A matrix and perhaps a bias, and their owner.
pub struct LinearWeightHandle<T> {
    pub backend: BackendKind,
    pub weight: Tensor<T>,
    pub bias: Option<Tensor<T>>,
}

/// The shape of an optional tensor.
pub open spec fn bias_dims<T>(bias: Option<Tensor<T>>) -> Option<Seq<usize>> {
    match bias {
        Some(tensor) => Some(tensor.dims()),
        None => None,
    }
}

impl<T> LinearWeightHandle<T> {
    /// The matrix has two dimensions, and the bias one element for each row.
    pub open spec fn wf(&self) -> bool {
        &&& self.weight.wf()
        &&& self.weight.dims().len() == 2
        &&& self.bias is Some ==> self.bias->0.wf() && self.bias->0.dims() == seq![
            self.weight.dims()[0],
        ]
    }
}

/// The weights of a convolution over time and space, and their owner.
pub struct Conv3dWeightHandle<T> {
    pub backend: BackendKind,
    pub weight: Tensor<T>,
    pub bias: Option<Tensor<T>>,
}

impl<T> Conv3dWeightHandle<T> {
    /// The weight has five dimensions, and the bias one element for each output channel.
    pub open spec fn wf(&self) -> bool {
        &&& self.weight.wf()
        &&& self.weight.dims().len() == 5
        &&& self.bias is Some ==> self.bias->0.wf() && self.bias->0.dims() == seq![
            self.weight.dims()[0],
        ]
    }
}

/// A vector and its owner.
pub struct PreparedVectorHandle<T> {
    pub backend: BackendKind,
    pub vector: Tensor<T>,
}

impl<T> PreparedVectorHandle<T> {
    /// The vector has one dimension.
    pub open spec fn wf(&self) -> bool {
        self.vector.wf() && self.vector.dims().len() == 1
    }
}

/// Why something cannot be used, if another backend owns it.
pub open spec fn owner_fault(owned: Owned, owner: BackendKind) -> Option<BackendFault> {
    if owner != BackendKind::ScalarCpu {
        Some(BackendFault::Owner { owned, owner })
    } else {
        None
    }
}

/// Refuses what another backend owns.
fn require_owner(owned: Owned, owner: BackendKind) -> (result: Result<(), BackendError>)
    ensures
        match owner_fault(owned, owner) {
            Some(fault) => result is Err && result->Err_0@ == fault,
            None => result is Ok,
        },
{
    if owner != BackendKind::ScalarCpu {
        return Err(BackendError::Owner { owned, owner });
    }
    Ok(())
}

/// The backend that works on the processor, element by element.
#[derive(Clone, Copy, Debug, PartialEq, Eq, Structural)]
pub struct ScalarBackend;

/// Elements of two tensors of one shape, combined in pairs.
pub open spec fn paired<T, F: Fn(T, T) -> T>(
    step: F,
    a: Array<T>,
    b: Array<T>,
    out: Array<T>,
) -> bool {
    &&& out.dims == a.dims
    &&& out.data.len() == a.data.len()
    &&& forall|i: int|
        0 <= i < a.data.len() ==> call_ensures(
            step,
            (a.data[i], b.data[i]),
            #[trigger] out.data[i],
        )
}

/// Elements of a tensor, each changed by a number.
pub open spec fn scaled<T, F: Fn(T, u32) -> T>(
    step: F,
    a: Array<T>,
    value: u32,
    out: Array<T>,
) -> bool {
    &&& out.dims == a.dims
    &&& out.data.len() == a.data.len()
    &&& forall|i: int|
        0 <= i < a.data.len() ==> call_ensures(step, (a.data[i], value), #[trigger] out.data[i])
}

/// Elements of a tensor, each changed by two numbers.
pub open spec fn clamped<T, F: Fn(T, u32, u32) -> T>(
    step: F,
    a: Array<T>,
    minimum: u32,
    maximum: u32,
    out: Array<T>,
) -> bool {
    &&& out.dims == a.dims
    &&& out.data.len() == a.data.len()
    &&& forall|i: int|
        0 <= i < a.data.len() ==> call_ensures(
            step,
            (a.data[i], minimum, maximum),
            #[trigger] out.data[i],
        )
}

/// Bounds are finite and in order.
pub open spec fn bounds_fit(minimum: u32, maximum: u32) -> bool {
    float_order::finite(minimum) && float_order::finite(maximum) && !float_order::greater(
        minimum,
        maximum,
    )
}

/// A tensor with new elements.
fn with_data<T: Copy>(like: &Tensor<T>, data: Vec<T>) -> (out: Tensor<T>)
    requires
        like.wf(),
        data@.len() == like@.len(),
    ensures
        out.wf(),
        out.dims() == like.dims(),
        out@ == data@,
{
    Tensor::from_parts(vstd::slice::slice_to_vec(like.shape()), data)
}

impl ScalarBackend {
    /// The backend's kind.
    pub fn kind(&self) -> (kind: BackendKind)
        ensures
            kind == BackendKind::ScalarCpu,
    {
        BackendKind::ScalarCpu
    }

    /// The backend's name.
    pub fn name(&self) -> (name: &'static str)
        ensures
            name@ == "scalar-cpu"@,
    {
        "scalar-cpu"
    }

    /// Adds two tensors of one shape.
    pub fn add<T: Copy, F: Fn(T, T) -> T>(&self, left: &Tensor<T>, right: &Tensor<T>, plus: F) -> (result:
        Result<Tensor<T>, BackendError>)
        requires
            left.wf(),
            right.wf(),
            fold::total2(plus),
        ensures
            match tensor::add_refusal(left.dims(), right.dims()) {
                Some(fault) => result is Err && result->Err_0@ == BackendFault::Tensor(fault),
                None => result is Ok && result->Ok_0.wf() && paired(
                    plus,
                    left.array(),
                    right.array(),
                    result->Ok_0.array(),
                ),
            },
    {
        match left.add(right, plus) {
            Ok(out) => Ok(out),
            Err(error) => Err(BackendError::Tensor(error)),
        }
    }

    /// Multiplies two tensors of one shape.
    pub fn multiply<T: Copy, F: Fn(T, T) -> T>(
        &self,
        left: &Tensor<T>,
        right: &Tensor<T>,
        times: F,
    ) -> (result: Result<Tensor<T>, BackendError>)
        requires
            left.wf(),
            right.wf(),
            fold::total2(times),
        ensures
            if left.dims() != right.dims() {
                result is Err && result->Err_0@ == (BackendFault::MultiplyShapes {
                    left: left.dims(),
                    right: right.dims(),
                })
            } else {
                result is Ok && result->Ok_0.wf() && paired(
                    times,
                    left.array(),
                    right.array(),
                    result->Ok_0.array(),
                )
            },
    {
        if !same_dims(left.shape(), right.shape()) {
            return Err(
                BackendError::MultiplyShapes {
                    left: vstd::slice::slice_to_vec(left.shape()),
                    right: vstd::slice::slice_to_vec(right.shape()),
                },
            );
        }
        let a = left.data();
        let b = right.data();
        assert(a@.len() == a.len());
        let mut data: Vec<T> = Vec::with_capacity(a.len());
        let mut i: usize = 0;
        while i < a.len()
            invariant
                i == data@.len() <= a@.len(),
                a@.len() == a.len(),
                b@.len() == a@.len(),
                fold::total2(times),
                forall|j: int|
                    0 <= j < i ==> call_ensures(times, (a@[j], b@[j]), #[trigger] data@[j]),
            decreases a@.len() - i,
        {
            data.push(times(a[i], b[i]));
            i = i + 1;
        }
        Ok(with_data(left, data))
    }

    /// Multiplies every element by a number.
    pub fn scale<T: Copy, F: Fn(T, u32) -> T>(&self, input: &Tensor<T>, value: u32, times: F) -> (out:
        Tensor<T>)
        requires
            input.wf(),
            fold::total2(times),
        ensures
            out.wf(),
            scaled(times, input.array(), value, out.array()),
    {
        let a = input.data();
        assert(a@.len() == a.len());
        let mut data: Vec<T> = Vec::with_capacity(a.len());
        let mut i: usize = 0;
        while i < a.len()
            invariant
                i == data@.len() <= a@.len(),
                a@.len() == a.len(),
                fold::total2(times),
                forall|j: int|
                    0 <= j < i ==> call_ensures(times, (a@[j], value), #[trigger] data@[j]),
            decreases a@.len() - i,
        {
            data.push(times(a[i], value));
            i = i + 1;
        }
        with_data(input, data)
    }

    /// Applies the SiLU activation.
    pub fn silu<T: Copy, F: Fn(T) -> T>(&self, input: &Tensor<T>, activation: F) -> (out: Tensor<T>)
        requires
            input.wf(),
            fold::total1(activation),
        ensures
            out.wf(),
            activated(activation, input.array(), out.array()),
    {
        input.map(activation)
    }

    /// Applies the tanh approximation of the GELU activation.
    pub fn gelu_tanh<T: Copy, F: Fn(T) -> T>(&self, input: &Tensor<T>, activation: F) -> (out: Tensor<
        T,
    >)
        requires
            input.wf(),
            fold::total1(activation),
        ensures
            out.wf(),
            activated(activation, input.array(), out.array()),
    {
        input.map(activation)
    }

    /// Limits every element to bounds.
    pub fn clamp<T: Copy, F: Fn(T, u32, u32) -> T>(
        &self,
        input: &Tensor<T>,
        minimum: u32,
        maximum: u32,
        limit: F,
    ) -> (result: Result<Tensor<T>, BackendError>)
        requires
            input.wf(),
            fold::accepts3(limit),
        ensures
            if bounds_fit(minimum, maximum) {
                result is Ok && result->Ok_0.wf() && clamped(
                    limit,
                    input.array(),
                    minimum,
                    maximum,
                    result->Ok_0.array(),
                )
            } else {
                result is Err && result->Err_0@ == BackendFault::ClampBounds
            },
    {
        if !is_finite(minimum) || !is_finite(maximum) || is_greater(minimum, maximum) {
            return Err(BackendError::ClampBounds);
        }
        let a = input.data();
        assert(a@.len() == a.len());
        let mut data: Vec<T> = Vec::with_capacity(a.len());
        let mut i: usize = 0;
        while i < a.len()
            invariant
                i == data@.len() <= a@.len(),
                a@.len() == a.len(),
                fold::accepts3(limit),
                forall|j: int|
                    0 <= j < i ==> call_ensures(
                        limit,
                        (a@[j], minimum, maximum),
                        #[trigger] data@[j],
                    ),
            decreases a@.len() - i,
        {
            data.push(limit(a[i], minimum, maximum));
            i = i + 1;
        }
        Ok(with_data(input, data))
    }

    /// Takes ownership of a copy of a tensor.
    pub fn upload_tensor<T: Copy>(&self, input: &Tensor<T>) -> (out: DeviceTensor<T>)
        requires
            input.wf(),
        ensures
            out.wf(),
            out.backend == BackendKind::ScalarCpu,
            out.array() == input.array(),
    {
        DeviceTensor { backend: BackendKind::ScalarCpu, tensor: input.duplicate() }
    }

    /// Gives a copy of a tensor back.
    pub fn download_tensor<T: Copy>(&self, input: &DeviceTensor<T>) -> (result: Result<
        Tensor<T>,
        BackendError,
    >)
        requires
            input.wf(),
        ensures
            match owner_fault(Owned::Tensor, input.backend) {
                Some(fault) => result is Err && result->Err_0@ == fault,
                None => result is Ok && result->Ok_0.wf() && result->Ok_0.array()
                    == input.array(),
            },
    {
        match require_owner(Owned::Tensor, input.backend) {
            Ok(_) => Ok(input.tensor.duplicate()),
            Err(error) => Err(error),
        }
    }
}

/// Elements of a tensor, each activated.
pub open spec fn activated<T, F: Fn(T) -> T>(step: F, a: Array<T>, out: Array<T>) -> bool {
    &&& out.dims == a.dims
    &&& out.data.len() == a.data.len()
    &&& forall|i: int|
        0 <= i < a.data.len() ==> call_ensures(step, (a.data[i],), #[trigger] out.data[i])
}

} // verus!
