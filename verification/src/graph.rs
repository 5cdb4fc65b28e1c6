//! Networks as programs for a stack of tensors.
//!
//! A program is a list of [`Op`]s. They work on a stack of tensors, on a second stack that keeps
//! tensors for later (the skip connections of a U-Net), and on up to two tensors that stay
//! available throughout: the text context and the time embedding.

use vstd::prelude::*;
use crate::attention;
use crate::image;
use crate::layers;
use crate::layers::{Kernels, Layer, LayerData, LayerError, LayerFault, Weights};
use crate::layout;
use crate::reshape;
use crate::reshape::{add_channel_bias, sequence_to_nchw, Array};
use crate::safetensors::{SafeTensorFile, Scalar};
use crate::tensor;
use crate::tensor::{nchw, Tensor};
use crate::tensor_error::{Quantity, TensorFault};
use crate::text;
use crate::text::push_usize;

verus! {

broadcast use vstd::string::group_string_axioms;

/// One step of a program.
#[derive(Clone, Debug)]
pub enum Op {
    /// Replaces the top tensor by what a layer makes of it.
    Apply(Layer),
    /// Pushes the top tensor once more.
    Duplicate,
    /// Exchanges the two top tensors.
    Swap,
    /// Moves the third tensor to the top.
    Rotate,
    /// Pushes the text context.
    Context,
    /// Pushes the time embedding.
    Time,
    /// Takes a value for each channel off the stack and adds it to the tensor below.
    Bias,
    /// Takes a tensor off the stack and adds it to the one below.
    Add,
    /// Turns the sequence on top into an image as high and wide as the tensor below.
    Image,
    /// Turns the sequence on top into one head, as wide as the image three places below it has
    /// channels and with a row for each of its positions.
    OneHead,
    /// Takes values, keys and queries off the stack and pushes what the queries read.
    Attention { causal: bool },
    /// Keeps a copy of the top tensor for later.
    Save,
    /// Joins the channels of the tensor kept last to those of the top tensor.
    Join,
    /// Marks the beginning of a group of weights.
    Stage,
}

/// An [`Op`] with texts as sequences.
pub enum OpData {
    Apply(LayerData),
    Duplicate,
    Swap,
    Rotate,
    Context,
    Time,
    Bias,
    Add,
    Image,
    OneHead,
    Attention { causal: bool },
    Save,
    Join,
    Stage,
}

impl View for Op {
    type V = OpData;

    open spec fn view(&self) -> OpData {
        match *self {
            Op::Apply(layer) => OpData::Apply(layer@),
            Op::Duplicate => OpData::Duplicate,
            Op::Swap => OpData::Swap,
            Op::Rotate => OpData::Rotate,
            Op::Context => OpData::Context,
            Op::Time => OpData::Time,
            Op::Bias => OpData::Bias,
            Op::Add => OpData::Add,
            Op::Image => OpData::Image,
            Op::OneHead => OpData::OneHead,
            Op::Attention { causal } => OpData::Attention { causal },
            Op::Save => OpData::Save,
            Op::Join => OpData::Join,
            Op::Stage => OpData::Stage,
        }
    }
}

/// The steps of a program.
pub open spec fn steps(program: Seq<Op>) -> Seq<OpData> {
    Seq::new(program.len(), |i: int| program[i]@)
}

/// Why a program fails.
#[derive(Clone, Debug, PartialEq, Eq)]
pub enum GraphError {
    Layer(LayerError),
    /// A step needs more tensors than there are.
    MissingOperand,
    /// A step asks for a kept tensor where none is left.
    SkipUnderflow,
    /// The program ends while tensors are still kept.
    UnusedSkips { count: usize },
    /// The program does not end with one tensor.
    Results { count: usize },
}

/// What a [`GraphError`] says, with texts and shapes as sequences.
pub enum GraphFault {
    Layer(LayerFault),
    MissingOperand,
    SkipUnderflow,
    UnusedSkips { count: usize },
    Results { count: usize },
}

impl View for GraphError {
    type V = GraphFault;

    open spec fn view(&self) -> GraphFault {
        match *self {
            GraphError::Layer(error) => GraphFault::Layer(error@),
            GraphError::MissingOperand => GraphFault::MissingOperand,
            GraphError::SkipUnderflow => GraphFault::SkipUnderflow,
            GraphError::UnusedSkips { count } => GraphFault::UnusedSkips { count },
            GraphError::Results { count } => GraphFault::Results { count },
        }
    }
}

impl GraphFault {
    /// The message for people.
    pub open spec fn text(self) -> Seq<char> {
        match self {
            GraphFault::Layer(fault) => fault.text(),
            GraphFault::MissingOperand => "a step of the network lacks a tensor"@,
            GraphFault::SkipUnderflow => "UNet skip stack underflow"@,
            GraphFault::UnusedSkips { count } => "UNet left "@ + text::decimal(count as nat)
                + " unused skip tensors"@,
            GraphFault::Results { count } => "the network left "@ + text::decimal(count as nat)
                + " tensors"@,
        }
    }
}

impl GraphError {
    /// The message for people.
    pub fn message(&self) -> (message: String)
        ensures
            message@ == self@.text(),
    {
        let mut out = String::new();
        match self {
            GraphError::Layer(error) => {
                return error.message();
            },
            GraphError::MissingOperand => {
                out.append("a step of the network lacks a tensor");
            },
            GraphError::SkipUnderflow => {
                out.append("UNet skip stack underflow");
            },
            GraphError::UnusedSkips { count } => {
                out.append("UNet left ");
                push_usize(&mut out, *count);
                out.append(" unused skip tensors");
            },
            GraphError::Results { count } => {
                out.append("the network left ");
                push_usize(&mut out, *count);
                out.append(" tensors");
            },
        }
        out
    }
}

/// The tensors that a program works on.
pub struct Memory<T> {
    pub stack: Seq<Array<T>>,
    pub skips: Seq<Array<T>>,
}

impl<T> Memory<T> {
    /// The tensor `depth` places below the top.
    pub open spec fn peek(self, depth: int) -> Array<T> {
        self.stack[self.stack.len() - 1 - depth]
    }

    /// The `n` top tensors replaced by one.
    pub open spec fn replace(self, n: int, array: Array<T>) -> Memory<T> {
        Memory { stack: self.stack.take(self.stack.len() - n).push(array), skips: self.skips }
    }

    /// One tensor more on the stack.
    pub open spec fn with(self, array: Array<T>) -> Memory<T> {
        Memory { stack: self.stack.push(array), skips: self.skips }
    }

    /// Every tensor has as many elements as its shape asks for.
    pub open spec fn wf(self) -> bool {
        &&& forall|i: int| 0 <= i < self.stack.len() ==> (#[trigger] self.stack[i]).wf()
        &&& forall|i: int| 0 <= i < self.skips.len() ==> (#[trigger] self.skips[i]).wf()
    }
}

/// The tensors that stay available, where a program is given them.
pub struct Inputs<T> {
    pub context: Option<Array<T>>,
    pub time: Option<Array<T>>,
}

/// How many tensors a step needs on the stack.
pub open spec fn needs(op: OpData) -> nat {
    match op {
        OpData::Apply(_) | OpData::Duplicate | OpData::Save | OpData::Join => 1,
        OpData::Swap | OpData::Bias | OpData::Add | OpData::Image => 2,
        OpData::Rotate | OpData::Attention { .. } => 3,
        OpData::OneHead => 4,
        OpData::Context | OpData::Time | OpData::Stage => 0,
    }
}

/// Why two tensors cannot be joined along their channels, if they cannot.
pub open spec fn join_fault(a: Seq<usize>, b: Seq<usize>) -> Option<TensorFault> {
    if a.len() != 4 {
        Some(TensorFault::NotNchw { shape: a })
    } else if b.len() != 4 {
        Some(TensorFault::NotNchw { shape: b })
    } else if !image::same_frame(a, b) {
        Some(TensorFault::ConcatMismatch { first: a, other: b })
    } else if a[1] + b[1] > usize::MAX {
        Some(TensorFault::Overflow(Quantity::ConcatChannels))
    } else if a[0] * (a[1] + b[1]) * (a[2] * a[3]) > usize::MAX {
        Some(TensorFault::Overflow(Quantity::ConcatOutput))
    } else {
        None
    }
}

/// The elements of one sample of a tensor.
pub open spec fn sample<T>(array: Array<T>, n: int) -> Seq<T> {
    let block = array.dims[1] * (array.dims[2] * array.dims[3]);
    array.data.subrange(n * block, n * block + block)
}

/// The first `n` samples of two tensors, joined along their channels.
pub open spec fn joined_samples<T>(a: Array<T>, b: Array<T>, n: int) -> Seq<T>
    decreases n,
{
    if n <= 0 {
        Seq::empty()
    } else {
        joined_samples(a, b, n - 1) + sample(a, n - 1) + sample(b, n - 1)
    }
}

/// Two tensors joined along their channels.
pub open spec fn joined<T>(a: Array<T>, b: Array<T>) -> Array<T> {
    Array {
        dims: seq![a.dims[0], (a.dims[1] + b.dims[1]) as usize, a.dims[2], a.dims[3]],
        data: joined_samples(a, b, a.dims[0] as int),
    }
}

/// A fault of a layer is one of the program.
pub open spec fn layer_fault(fault: Option<LayerFault>) -> Option<GraphFault> {
    match fault {
        Some(fault) => Some(GraphFault::Layer(fault)),
        None => None,
    }
}

/// The shape of one head over the positions of an image.
pub open spec fn one_head(dims: Seq<usize>) -> Seq<usize> {
    seq![dims[0], 1, (dims[2] * dims[3]) as usize, dims[1]]
}

/// Why a sequence of so many elements is no head over the positions of an image, if it is none.
pub open spec fn head_fault(dims: Seq<usize>, len: nat) -> Option<TensorFault> {
    if dims.len() != 4 {
        Some(TensorFault::NotNchw { shape: dims })
    } else if layout::product(dims) != len {
        Some(
            TensorFault::LengthMismatch {
                shape: one_head(dims),
                expected: layout::product(dims) as usize,
                actual: len as usize,
            },
        )
    } else {
        None
    }
}

/// One head over the positions of an image has as many elements as the image.
proof fn lemma_one_head(dims: Seq<usize>)
    requires
        dims.len() == 4,
        tensor::valid_shape(dims),
    ensures
        dims[2] * dims[3] <= usize::MAX,
        tensor::valid_shape(one_head(dims)),
        layout::product(one_head(dims)) == layout::product(dims),
{
    layout::lemma_product_small(dims);
    let b = dims[0] as int;
    let c = dims[1] as int;
    let p = dims[2] * dims[3];
    assert(b * c * dims[2] * dims[3] == (b * c) * p) by (nonlinear_arith)
        requires
            p == dims[2] * dims[3],
    ;
    assert(p <= (b * c) * p) by (nonlinear_arith)
        requires
            (b * c) * p > 0,
            b >= 0,
            c >= 0,
            p >= 0,
    ;
    layout::lemma_product_small(one_head(dims));
    assert(b * 1 * p * c == (b * c) * p) by (nonlinear_arith);
}

/// Why a step fails, if it does.
pub open spec fn step_fault<T>(
    weights: Weights,
    inputs: Inputs<T>,
    op: OpData,
    memory: Memory<T>,
) -> Option<GraphFault> {
    if memory.stack.len() < needs(op) {
        Some(GraphFault::MissingOperand)
    } else {
        match op {
            OpData::Apply(layer) => layer_fault(
                layers::fault(weights, layer, memory.peek(0).dims),
            ),
            OpData::Bias => layer_fault(
                layers::layout_fault(
                    reshape::bias_refusal(memory.peek(1).dims, memory.peek(0).dims),
                ),
            ),
            OpData::Add => layer_fault(
                layers::tensor_fault(
                    tensor::add_refusal(memory.peek(1).dims, memory.peek(0).dims),
                ),
            ),
            OpData::Image => if memory.peek(1).dims.len() != 4 {
                Some(
                    GraphFault::Layer(
                        LayerFault::Tensor(
                            TensorFault::NotNchw { shape: memory.peek(1).dims },
                        ),
                    ),
                )
            } else {
                layer_fault(
                    layers::layout_fault(
                        reshape::image_refusal(
                            memory.peek(0).dims,
                            memory.peek(1).dims[2],
                            memory.peek(1).dims[3],
                        ),
                    ),
                )
            },
            OpData::OneHead => layer_fault(
                layers::tensor_fault(
                    head_fault(memory.peek(3).dims, memory.peek(0).data.len()),
                ),
            ),
            OpData::Attention { causal } => layer_fault(
                layers::tensor_fault(
                    attention::attention_refusal(
                        memory.peek(2).dims,
                        memory.peek(1).dims,
                        memory.peek(0).dims,
                        causal,
                    ),
                ),
            ),
            OpData::Join => if memory.skips.len() == 0 {
                Some(GraphFault::SkipUnderflow)
            } else {
                layer_fault(
                    layers::tensor_fault(
                        join_fault(memory.peek(0).dims, memory.skips.last().dims),
                    ),
                )
            },
            OpData::Context => if inputs.context is None {
                Some(GraphFault::MissingOperand)
            } else {
                None
            },
            OpData::Time => if inputs.time is None {
                Some(GraphFault::MissingOperand)
            } else {
                None
            },
            _ => None,
        }
    }
}

/// Why a finished program's tensors are no result, if they are none.
pub open spec fn end_fault<T>(memory: Memory<T>) -> Option<GraphFault> {
    if memory.skips.len() > 0 {
        Some(GraphFault::UnusedSkips { count: memory.skips.len() as usize })
    } else if memory.stack.len() != 1 {
        Some(GraphFault::Results { count: memory.stack.len() as usize })
    } else {
        None
    }
}

/// The contents of an optional tensor.
pub open spec fn optional_array<T>(tensor: Option<&Tensor<T>>) -> Option<Array<T>> {
    match tensor {
        Some(tensor) => Some(tensor.array()),
        None => None,
    }
}

/// The contents of the tensors that stay available.
pub open spec fn given<T>(context: Option<&Tensor<T>>, time: Option<&Tensor<T>>) -> Inputs<T> {
    Inputs { context: optional_array(context), time: optional_array(time) }
}

/// The tensors of a running program.
struct Machine<T> {
    stack: Vec<Tensor<T>>,
    skips: Vec<Tensor<T>>,
}

/// The contents of tensors.
spec fn arrays<T>(tensors: Seq<Tensor<T>>) -> Seq<Array<T>> {
    Seq::new(tensors.len(), |i: int| tensors[i].array())
}

impl<T: Copy> Machine<T> {
    spec fn memory(&self) -> Memory<T> {
        Memory { stack: arrays(self.stack@), skips: arrays(self.skips@) }
    }

    spec fn wf(&self) -> bool {
        &&& forall|i: int| 0 <= i < self.stack@.len() ==> (#[trigger] self.stack@[i]).wf()
        &&& forall|i: int| 0 <= i < self.skips@.len() ==> (#[trigger] self.skips@[i]).wf()
    }

    /// Takes the top tensor off.
    fn pop(&mut self) -> (tensor: Tensor<T>)
        requires
            old(self).wf(),
            old(self).stack@.len() > 0,
        ensures
            final(self).wf(),
            final(self).skips == old(self).skips,
            final(self).stack@ == old(self).stack@.drop_last(),
            tensor == old(self).stack@.last(),
            tensor.wf(),
    {
        let tensor = self.stack.pop();
        tensor.unwrap()
    }

    /// Puts a tensor on top.
    fn push(&mut self, tensor: Tensor<T>)
        requires
            old(self).wf(),
            tensor.wf(),
        ensures
            final(self).wf(),
            final(self).skips == old(self).skips,
            final(self).stack@ == old(self).stack@.push(tensor),
    {
        self.stack.push(tensor);
    }
}

impl<
    T: Copy,
    S: Copy,
    M: Fn(T, T, T) -> T + Copy,
    P: Fn(T, T) -> T + Copy,
    G: Fn(T, T) -> T + Copy,
    L: Fn(T) -> T + Copy,
    E: Fn(T) -> T + Copy,
    Q: Fn(T) -> T + Copy,
    A: Fn(&[T], u32) -> S + Copy,
    B: Fn(T, S, T, T) -> T + Copy,
    C: Fn(T, usize) -> T + Copy,
    H: Fn(Vec<T>) -> Vec<T> + Copy,
    N: Fn(Scalar) -> T + Copy,
> Kernels<T, M, P, G, L, E, Q, A, B, C, H, N> {
    /// `out` is what queries read from keys and values.
    pub open spec fn reads(
        self,
        query: Array<T>,
        key: Array<T>,
        value: Array<T>,
        causal: bool,
        out: Array<T>,
    ) -> bool {
        let queries = query.dims[2] as int;
        let keys = key.dims[2] as int;
        let width = query.dims[3];
        &&& out.dims == query.dims
        &&& forall|row: int|
            0 <= row < query.dims[0] * query.dims[1] * queries ==> attention::attends(
                self.mac,
                self.scale,
                self.softmax,
                self.zero,
                query.data,
                key.data,
                value.data,
                row * width,
                (row / queries) * keys,
                attention::visible_keys(causal, row % queries, keys) as nat,
                width,
                #[trigger] out.data.subrange(row * width, row * width + width),
            )
    }

    /// A step turns the tensors `before` into the tensors `after`.
    pub open spec fn performs(
        self,
        weights: Weights,
        inputs: Inputs<T>,
        op: OpData,
        before: Memory<T>,
        after: Memory<T>,
    ) -> bool {
        match op {
            OpData::Apply(layer) => exists|out: Array<T>|
                {
                    &&& #[trigger] self.applies(weights, layer, before.peek(0), out)
                    &&& after == before.replace(1, out)
                },
            OpData::Duplicate => after == before.with(before.peek(0)),
            OpData::Swap => after == before.replace(2, before.peek(0)).with(before.peek(1)),
            OpData::Rotate => after == before.replace(3, before.peek(1)).with(before.peek(0)).with(
                before.peek(2),
            ),
            OpData::Context => after == before.with(inputs.context->0),
            OpData::Time => after == before.with(inputs.time->0),
            OpData::Bias => exists|out: Array<T>|
                {
                    &&& out.wf()
                    &&& #[trigger] reshape::biased(
                        self.plus,
                        before.peek(1),
                        before.peek(0).data,
                        out,
                    )
                    &&& after == before.replace(2, out)
                },
            OpData::Add => exists|out: Array<T>|
                {
                    &&& out.wf()
                    &&& #[trigger] self.adds(before.peek(1), before.peek(0), out)
                    &&& after == before.replace(2, out)
                },
            OpData::Image => after == before.replace(
                1,
                reshape::imaged(
                    before.peek(0),
                    before.peek(1).dims[2],
                    before.peek(1).dims[3],
                ),
            ),
            OpData::OneHead => after == before.replace(
                1,
                (Array { dims: one_head(before.peek(3).dims), data: before.peek(0).data }),
            ),
            OpData::Attention { causal } => exists|out: Array<T>|
                {
                    &&& out.wf()
                    &&& #[trigger] self.reads(
                        before.peek(2),
                        before.peek(1),
                        before.peek(0),
                        causal,
                        out,
                    )
                    &&& after == before.replace(3, out)
                },
            OpData::Save => after == (Memory {
                stack: before.stack,
                skips: before.skips.push(before.peek(0)),
            }),
            OpData::Join => after == (Memory {
                stack: before.replace(1, joined(before.peek(0), before.skips.last())).stack,
                skips: before.skips.drop_last(),
            }),
            OpData::Stage => after == before,
        }
    }

    /// The steps of a program, one after the other, turn the tensors `before` into `after`, and
    /// none of them fails.
    pub open spec fn runs(
        self,
        weights: Weights,
        inputs: Inputs<T>,
        program: Seq<OpData>,
        before: Memory<T>,
        after: Memory<T>,
    ) -> bool
        decreases program.len(),
    {
        if program.len() == 0 {
            after == before
        } else {
            exists|middle: Memory<T>|
                {
                    &&& self.runs(weights, inputs, program.drop_last(), before, middle)
                    &&& step_fault(weights, inputs, program.last(), middle) is None
                    &&& #[trigger] self.performs(weights, inputs, program.last(), middle, after)
                }
        }
    }

    /// Some step of the program fails with this fault, after the steps before it have run.
    pub open spec fn fails(
        self,
        weights: Weights,
        inputs: Inputs<T>,
        program: Seq<OpData>,
        before: Memory<T>,
        fault: GraphFault,
    ) -> bool {
        exists|k: int, middle: Memory<T>|
            {
                &&& 0 <= k < program.len()
                &&& #[trigger] self.runs(weights, inputs, program.take(k), before, middle)
                &&& step_fault(weights, inputs, program[k], middle) == Some(fault)
            }
    }

    /// The program turns `input` into `out`.
    pub open spec fn computes(
        self,
        weights: Weights,
        inputs: Inputs<T>,
        program: Seq<OpData>,
        input: Array<T>,
        out: Array<T>,
    ) -> bool {
        self.runs(
            weights,
            inputs,
            program,
            (Memory { stack: seq![input], skips: Seq::empty() }),
            (Memory { stack: seq![out], skips: Seq::empty() }),
        )
    }

    /// The program fails on `input` with this fault: at a step, or at its end.
    pub open spec fn breaks(
        self,
        weights: Weights,
        inputs: Inputs<T>,
        program: Seq<OpData>,
        input: Array<T>,
        fault: GraphFault,
    ) -> bool {
        let start = Memory { stack: seq![input], skips: Seq::empty() };
        ||| self.fails(weights, inputs, program, start, fault)
        ||| exists|end: Memory<T>| #[trigger]
            self.runs(weights, inputs, program, start, end) && end_fault(end) == Some(fault)
    }

    /// One more step extends a run.
    pub proof fn lemma_runs_push(
        self,
        weights: Weights,
        inputs: Inputs<T>,
        program: Seq<OpData>,
        op: OpData,
        before: Memory<T>,
        middle: Memory<T>,
        after: Memory<T>,
    )
        requires
            self.runs(weights, inputs, program, before, middle),
            step_fault(weights, inputs, op, middle) is None,
            self.performs(weights, inputs, op, middle, after),
        ensures
            self.runs(weights, inputs, program.push(op), before, after),
    {
        let longer = program.push(op);
        assert(longer.drop_last() =~= program);
        assert(longer.last() == op);
        assert(self.performs(weights, inputs, longer.last(), middle, after));
    }

    /// Joins the kept tensor to the top tensor.
    fn join(&self, top: &Tensor<T>, kept: &Tensor<T>) -> (result: Result<Tensor<T>, GraphError>)
        requires
            top.wf(),
            kept.wf(),
        ensures
            match join_fault(top.dims(), kept.dims()) {
                Some(fault) => result is Err && result->Err_0@ == GraphFault::Layer(
                    LayerFault::Tensor(fault),
                ),
                None => result is Ok && result->Ok_0.wf() && result->Ok_0.array() == joined(
                    top.array(),
                    kept.array(),
                ),
            },
    {
        let both: [&Tensor<T>; 2] = [top, kept];
        proof {
            let tensors: Seq<&Tensor<T>> = both@;
            assert(tensors[0] == top && tensors[1] == kept);
            reveal_with_fuel(image::channels_of, 3);
            assert forall|n: int| 0 <= n implies #[trigger] image::joined(tensors, n)
                == joined_samples(top.array(), kept.array(), n) by {
                lemma_joined_samples(tensors, top, kept, n);
            }
        }
        match Tensor::concat_channels(&both) {
            Ok(out) => Ok(out),
            Err(error) => Err(GraphError::Layer(LayerError::Tensor(error))),
        }
    }

    /// Performs one step.
    fn perform(
        &self,
        file: &SafeTensorFile,
        context: Option<&Tensor<T>>,
        time: Option<&Tensor<T>>,
        op: &Op,
        machine: &mut Machine<T>,
    ) -> (result: Result<(), GraphError>)
        requires
            self.usable(),
            file.wf(),
            context is Some ==> context->0.wf(),
            time is Some ==> time->0.wf(),
            old(machine).wf(),
        ensures
            match step_fault(
                file.weights(),
                given(context, time),
                op@,
                old(machine).memory(),
            ) {
                Some(fault) => result is Err && result->Err_0@ == fault,
                None => result is Ok && final(machine).wf() && self.performs(
                    file.weights(),
                    given(context, time),
                    op@,
                    old(machine).memory(),
                    final(machine).memory(),
                ),
            },
    {
        let depth: usize = machine.stack.len();
        let ghost before = machine.memory();
        match op {
            Op::Apply(layer) => {
                if depth < 1 {
                    return Err(GraphError::MissingOperand);
                }
                let top = machine.pop();
                match self.apply(file, layer, &top) {
                    Ok(out) => {
                        let ghost array = out.array();
                        machine.push(out);
                        proof {
                            assert(self.applies(file.weights(), layer@, before.peek(0), array));
                            assert(machine.memory().stack =~= before.replace(1, array).stack);
                        }
                    },
                    Err(error) => {
                        return Err(GraphError::Layer(error));
                    },
                }
            },
            Op::Duplicate => {
                if depth < 1 {
                    return Err(GraphError::MissingOperand);
                }
                let copy = machine.stack[depth - 1].duplicate();
                machine.push(copy);
                proof {
                    assert(machine.memory().stack =~= before.with(before.peek(0)).stack);
                }
            },
            Op::Swap => {
                if depth < 2 {
                    return Err(GraphError::MissingOperand);
                }
                let a = machine.pop();
                let b = machine.pop();
                machine.push(a);
                machine.push(b);
                proof {
                    assert(machine.memory().stack =~= before.replace(2, before.peek(0)).with(
                        before.peek(1),
                    ).stack);
                }
            },
            Op::Rotate => {
                if depth < 3 {
                    return Err(GraphError::MissingOperand);
                }
                let a = machine.pop();
                let b = machine.pop();
                let c = machine.pop();
                machine.push(b);
                machine.push(a);
                machine.push(c);
                proof {
                    assert(machine.memory().stack =~= before.replace(3, before.peek(1)).with(
                        before.peek(0),
                    ).with(before.peek(2)).stack);
                }
            },
            Op::Context => {
                let tensor = match context {
                    Some(tensor) => tensor,
                    None => {
                        return Err(GraphError::MissingOperand);
                    },
                };
                machine.push(tensor.duplicate());
                proof {
                    assert(machine.memory().stack =~= before.with(tensor.array()).stack);
                }
            },
            Op::Time => {
                let tensor = match time {
                    Some(tensor) => tensor,
                    None => {
                        return Err(GraphError::MissingOperand);
                    },
                };
                machine.push(tensor.duplicate());
                proof {
                    assert(machine.memory().stack =~= before.with(tensor.array()).stack);
                }
            },
            Op::Bias => {
                if depth < 2 {
                    return Err(GraphError::MissingOperand);
                }
                let bias = machine.pop();
                let top = machine.pop();
                match add_channel_bias(&top, &bias, self.plus) {
                    Ok(out) => {
                        let ghost array = out.array();
                        machine.push(out);
                        proof {
                            assert(reshape::biased(
                                self.plus,
                                before.peek(1),
                                before.peek(0).data,
                                array,
                            ));
                            assert(machine.memory().stack =~= before.replace(2, array).stack);
                        }
                    },
                    Err(error) => {
                        return Err(GraphError::Layer(LayerError::Layout(error)));
                    },
                }
            },
            Op::Add => {
                if depth < 2 {
                    return Err(GraphError::MissingOperand);
                }
                let b = machine.pop();
                let a = machine.pop();
                match a.add(&b, self.plus) {
                    Ok(out) => {
                        let ghost array = out.array();
                        machine.push(out);
                        proof {
                            assert(self.adds(before.peek(1), before.peek(0), array));
                            assert(machine.memory().stack =~= before.replace(2, array).stack);
                        }
                    },
                    Err(error) => {
                        return Err(GraphError::Layer(LayerError::Tensor(error)));
                    },
                }
            },
            Op::Image => {
                if depth < 2 {
                    return Err(GraphError::MissingOperand);
                }
                let top = machine.pop();
                let frame: [usize; 4] = match nchw(machine.stack[depth - 2].shape()) {
                    Ok(frame) => frame,
                    Err(error) => {
                        return Err(GraphError::Layer(LayerError::Tensor(error)));
                    },
                };
                match sequence_to_nchw(&top, frame[2], frame[3]) {
                    Ok(out) => {
                        let ghost array = out.array();
                        machine.push(out);
                        proof {
                            assert(machine.memory().stack =~= before.replace(1, array).stack);
                        }
                    },
                    Err(error) => {
                        return Err(GraphError::Layer(LayerError::Layout(error)));
                    },
                }
            },
            Op::OneHead => {
                if depth < 4 {
                    return Err(GraphError::MissingOperand);
                }
                let top = machine.pop();
                let frame: [usize; 4] = match nchw(machine.stack[depth - 4].shape()) {
                    Ok(frame) => frame,
                    Err(error) => {
                        return Err(GraphError::Layer(LayerError::Tensor(error)));
                    },
                };
                proof {
                    assert(frame@ == before.peek(3).dims);
                    lemma_one_head(frame@);
                    tensor::lemma_counted(one_head(frame@));
                }
                let shape: Vec<usize> = vec![frame[0], 1, frame[2] * frame[3], frame[1]];
                proof {
                    assert(shape@ =~= one_head(frame@));
                }
                match Tensor::new(shape, vstd::slice::slice_to_vec(top.data())) {
                    Ok(out) => {
                        let ghost array = out.array();
                        machine.push(out);
                        proof {
                            assert(machine.memory().stack =~= before.replace(1, array).stack);
                        }
                    },
                    Err(error) => {
                        return Err(GraphError::Layer(LayerError::Tensor(error)));
                    },
                }
            },
            Op::Attention { causal } => {
                if depth < 3 {
                    return Err(GraphError::MissingOperand);
                }
                let value = machine.pop();
                let key = machine.pop();
                let query = machine.pop();
                let read = if *causal {
                    Tensor::attention_causal(
                        &query,
                        &key,
                        &value,
                        self.zero,
                        self.mac,
                        self.scale,
                        self.softmax,
                    )
                } else {
                    Tensor::attention(
                        &query,
                        &key,
                        &value,
                        self.zero,
                        self.mac,
                        self.scale,
                        self.softmax,
                    )
                };
                match read {
                    Ok(out) => {
                        let ghost array = out.array();
                        machine.push(out);
                        proof {
                            assert(self.reads(
                                before.peek(2),
                                before.peek(1),
                                before.peek(0),
                                *causal,
                                array,
                            ));
                            assert(machine.memory().stack =~= before.replace(3, array).stack);
                        }
                    },
                    Err(error) => {
                        return Err(GraphError::Layer(LayerError::Tensor(error)));
                    },
                }
            },
            Op::Save => {
                if depth < 1 {
                    return Err(GraphError::MissingOperand);
                }
                let copy = machine.stack[depth - 1].duplicate();
                machine.skips.push(copy);
                proof {
                    assert(machine.memory().skips =~= before.skips.push(before.peek(0)));
                }
            },
            Op::Join => {
                if depth < 1 {
                    return Err(GraphError::MissingOperand);
                }
                let kept = match machine.skips.pop() {
                    Some(kept) => kept,
                    None => {
                        return Err(GraphError::SkipUnderflow);
                    },
                };
                let top = machine.pop();
                match self.join(&top, &kept) {
                    Ok(out) => {
                        let ghost array = out.array();
                        machine.push(out);
                        proof {
                            assert(machine.memory().stack =~= before.replace(1, array).stack);
                            assert(machine.memory().skips =~= before.skips.drop_last());
                        }
                    },
                    Err(error) => {
                        return Err(error);
                    },
                }
            },
            Op::Stage => {},
        }
        Ok(())
    }

    /// Runs a program on a tensor.
    pub fn run(
        &self,
        file: &SafeTensorFile,
        context: Option<&Tensor<T>>,
        time: Option<&Tensor<T>>,
        program: &Vec<Op>,
        input: Tensor<T>,
    ) -> (result: Result<Tensor<T>, GraphError>)
        requires
            self.usable(),
            file.wf(),
            context is Some ==> context->0.wf(),
            time is Some ==> time->0.wf(),
            input.wf(),
        ensures
            match result {
                Ok(out) => out.wf() && self.computes(
                    file.weights(),
                    given(context, time),
                    steps(program@),
                    input.array(),
                    out.array(),
                ),
                Err(error) => self.breaks(
                    file.weights(),
                    given(context, time),
                    steps(program@),
                    input.array(),
                    error@,
                ),
            },
    {
        let ghost weights = file.weights();
        let ghost inputs = given(context, time);
        let ghost ops = steps(program@);
        let ghost start = Memory { stack: seq![input.array()], skips: Seq::empty() };
        let mut machine = Machine { stack: vec![input], skips: Vec::new() };
        proof {
            assert(machine.memory().stack =~= start.stack);
            assert(machine.memory().skips =~= start.skips);
            assert(ops.take(0) =~= Seq::empty());
        }
        let mut k: usize = 0;
        while k < program.len()
            invariant
                k <= program.len(),
                self.usable(),
                file.wf(),
                context is Some ==> context->0.wf(),
                time is Some ==> time->0.wf(),
                machine.wf(),
                weights == file.weights(),
                inputs == given(context, time),
                ops == steps(program@),
                self.runs(weights, inputs, ops.take(k as int), start, machine.memory()),
                start == (Memory { stack: seq![input.array()], skips: Seq::empty() }),
            decreases program.len() - k,
        {
            let ghost middle = machine.memory();
            match self.perform(file, context, time, &program[k], &mut machine) {
                Ok(_) => {},
                Err(error) => {
                    proof {
                        assert(step_fault(weights, inputs, ops[k as int], middle) == Some(error@));
                    }
                    return Err(error);
                },
            }
            proof {
                self.lemma_runs_push(
                    weights,
                    inputs,
                    ops.take(k as int),
                    ops[k as int],
                    start,
                    middle,
                    machine.memory(),
                );
                assert(ops.take(k as int).push(ops[k as int]) =~= ops.take(k + 1));
            }
            k = k + 1;
        }
        proof {
            assert(ops.take(k as int) =~= ops);
        }
        if machine.skips.len() > 0 {
            return Err(GraphError::UnusedSkips { count: machine.skips.len() });
        }
        if machine.stack.len() != 1 {
            return Err(GraphError::Results { count: machine.stack.len() });
        }
        let ghost end = machine.memory();
        let out = machine.pop();
        proof {
            assert(end.stack =~= seq![out.array()]);
            assert(end.skips =~= Seq::empty());
        }
        Ok(out)
    }
}

/// Joining a list of two tensors joins their samples.
proof fn lemma_joined_samples<T>(
    tensors: Seq<&Tensor<T>>,
    a: &Tensor<T>,
    b: &Tensor<T>,
    n: int,
)
    requires
        tensors.len() == 2,
        tensors[0] == a,
        tensors[1] == b,
    ensures
        image::joined(tensors, n) == joined_samples(a.array(), b.array(), n),
    decreases n,
{
    if n > 0 {
        lemma_joined_samples(tensors, a, b, n - 1);
        reveal_with_fuel(image::joined_sample, 3);
        assert(image::joined(tensors, n) =~= joined_samples(a.array(), b.array(), n));
    }
}

/// The number of tensors on the stack and the number of those kept.
pub struct Level {
    pub stack: int,
    pub skips: int,
}

/// How a step changes the numbers of tensors, or nothing where it lacks one.
pub open spec fn level_after(inputs: bool, op: OpData, level: Level) -> Option<Level> {
    if level.stack < needs(op) {
        None
    } else {
        match op {
            OpData::Apply(_)
            | OpData::Swap
            | OpData::Rotate
            | OpData::Image
            | OpData::OneHead
            | OpData::Stage => Some(level),
            OpData::Duplicate => Some(Level { stack: level.stack + 1, skips: level.skips }),
            OpData::Context | OpData::Time => if inputs {
                Some(Level { stack: level.stack + 1, skips: level.skips })
            } else {
                None
            },
            OpData::Bias | OpData::Add => Some(
                Level { stack: level.stack - 1, skips: level.skips },
            ),
            OpData::Attention { .. } => Some(Level { stack: level.stack - 2, skips: level.skips }),
            OpData::Save => Some(Level { stack: level.stack, skips: level.skips + 1 }),
            OpData::Join => if level.skips > 0 {
                Some(Level { stack: level.stack, skips: level.skips - 1 })
            } else {
                None
            },
        }
    }
}

/// How the first `n` steps of a program change the numbers of tensors.
pub open spec fn levels(inputs: bool, program: Seq<OpData>, level: Level, n: int) -> Option<Level>
    decreases n,
{
    if n <= 0 {
        Some(level)
    } else {
        match levels(inputs, program, level, n - 1) {
            Some(before) => level_after(inputs, program[n - 1], before),
            None => None,
        }
    }
}

/// The program changes the numbers of tensors from `before` to `after`, and none of its steps
/// lacks a tensor.
pub open spec fn leads(inputs: bool, program: Seq<OpData>, before: Level, after: Level) -> bool {
    levels(inputs, program, before, program.len() as int) == Some(after)
}

/// The program turns one tensor into one, keeps as many tensors as it asks for, and none of its
/// steps lacks one.
pub open spec fn balanced(inputs: bool, program: Seq<OpData>) -> bool {
    leads(inputs, program, (Level { stack: 1, skips: 0 }), (Level { stack: 1, skips: 0 }))
}

/// Steps that agree change the numbers alike.
proof fn lemma_levels_same(
    inputs: bool,
    program: Seq<OpData>,
    other: Seq<OpData>,
    level: Level,
    n: int,
)
    requires
        forall|i: int| 0 <= i < n ==> program[i] == #[trigger] other[i],
    ensures
        levels(inputs, program, level, n) == levels(inputs, other, level, n),
    decreases n,
{
    if n > 0 {
        lemma_levels_same(inputs, program, other, level, n - 1);
        assert(program[n - 1] == other[n - 1]);
    }
}

/// The steps of the second of two programs start where the first ends.
proof fn lemma_levels_add(
    inputs: bool,
    first: Seq<OpData>,
    second: Seq<OpData>,
    level: Level,
    middle: Level,
    n: int,
)
    requires
        leads(inputs, first, level, middle),
        0 <= n <= second.len(),
    ensures
        levels(inputs, first + second, level, first.len() + n) == levels(
            inputs,
            second,
            middle,
            n,
        ),
    decreases n,
{
    if n == 0 {
        lemma_levels_same(inputs, first + second, first, level, first.len() as int);
    } else {
        lemma_levels_add(inputs, first, second, level, middle, n - 1);
        assert((first + second)[first.len() + n - 1] == second[n - 1]);
    }
}

/// One program after another.
pub proof fn lemma_leads(
    inputs: bool,
    first: Seq<OpData>,
    second: Seq<OpData>,
    before: Level,
    middle: Level,
    after: Level,
)
    requires
        leads(inputs, first, before, middle),
        leads(inputs, second, middle, after),
    ensures
        leads(inputs, first + second, before, after),
{
    lemma_levels_add(inputs, first, second, before, middle, second.len() as int);
    assert((first + second).len() == first.len() + second.len());
}

impl<
    T: Copy,
    S: Copy,
    M: Fn(T, T, T) -> T + Copy,
    P: Fn(T, T) -> T + Copy,
    G: Fn(T, T) -> T + Copy,
    L: Fn(T) -> T + Copy,
    E: Fn(T) -> T + Copy,
    Q: Fn(T) -> T + Copy,
    A: Fn(&[T], u32) -> S + Copy,
    B: Fn(T, S, T, T) -> T + Copy,
    C: Fn(T, usize) -> T + Copy,
    H: Fn(Vec<T>) -> Vec<T> + Copy,
    N: Fn(Scalar) -> T + Copy,
> Kernels<T, M, P, G, L, E, Q, A, B, C, H, N> {
    /// A run changes the numbers of tensors as its steps do.
    proof fn lemma_run_levels(
        self,
        weights: Weights,
        inputs: Inputs<T>,
        program: Seq<OpData>,
        n: int,
        before: Memory<T>,
        after: Memory<T>,
    )
        requires
            0 <= n <= program.len(),
            self.runs(weights, inputs, program.take(n), before, after),
        ensures
            levels(
                inputs.context is Some && inputs.time is Some,
                program,
                (Level { stack: before.stack.len() as int, skips: before.skips.len() as int }),
                n,
            ) matches Some(level) ==> level == (Level {
                stack: after.stack.len() as int,
                skips: after.skips.len() as int,
            }),
        decreases n,
    {
        if n > 0 {
            let part = program.take(n);
            let middle = choose|middle: Memory<T>|
                {
                    &&& self.runs(weights, inputs, part.drop_last(), before, middle)
                    &&& step_fault(weights, inputs, part.last(), middle) is None
                    &&& #[trigger] self.performs(weights, inputs, part.last(), middle, after)
                };
            assert(part.drop_last() =~= program.take(n - 1));
            assert(part.last() == program[n - 1]);
            self.lemma_run_levels(weights, inputs, program, n - 1, before, middle);
        }
    }

    /// A balanced program never lacks a tensor and leaves none over: where it fails, a layer has
    /// refused its tensor or its weights.
    pub proof fn balanced_programs_do_not_run_dry(
        self,
        weights: Weights,
        inputs: Inputs<T>,
        program: Seq<OpData>,
        input: Array<T>,
        fault: GraphFault,
    )
        requires
            balanced(inputs.context is Some && inputs.time is Some, program),
            self.breaks(weights, inputs, program, input, fault),
        ensures
            fault is Layer,
    {
        let available = inputs.context is Some && inputs.time is Some;
        let start = Memory { stack: seq![input], skips: Seq::empty() };
        let level = Level { stack: 1, skips: 0 };
        if self.fails(weights, inputs, program, start, fault) {
            let (k, middle) = choose|k: int, middle: Memory<T>|
                {
                    &&& 0 <= k < program.len()
                    &&& #[trigger] self.runs(weights, inputs, program.take(k), start, middle)
                    &&& step_fault(weights, inputs, program[k], middle) == Some(fault)
                };
            self.lemma_run_levels(weights, inputs, program, k, start, middle);
            lemma_levels_some(available, program, level, k + 1, program.len() as int);
            lemma_levels_some(available, program, level, k, program.len() as int);
        } else {
            let end = choose|end: Memory<T>| #[trigger]
                self.runs(weights, inputs, program, start, end) && end_fault(end) == Some(fault);
            assert(program.take(program.len() as int) =~= program);
            self.lemma_run_levels(
                weights,
                inputs,
                program,
                program.len() as int,
                start,
                end,
            );
        }
    }
}

/// No step of a program that can be taken to its end lacks a tensor.
proof fn lemma_levels_some(inputs: bool, program: Seq<OpData>, level: Level, k: int, n: int)
    requires
        0 <= k <= n,
        levels(inputs, program, level, n) is Some,
    ensures
        levels(inputs, program, level, k) is Some,
    decreases n,
{
    if k < n {
        lemma_levels_some(inputs, program, level, k, n - 1);
    }
}

/// Three sequences, one after the other.
pub proof fn lemma_joined<A>(first: Seq<A>, second: Seq<A>, third: Seq<A>)
    ensures
        first + second + third == first + (second + third),
{
    assert(first + second + third =~= first + (second + third));
}

} // verus!
