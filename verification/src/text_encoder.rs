//! Text encoders: token embeddings and layers of causal attention.

use vstd::prelude::*;
use crate::blocks;
use crate::blocks::{numbered, put, text_attention, text_exact, text_quick};
use crate::graph;
use crate::graph::{GraphError, GraphFault, Level, Op, OpData};
use crate::layers;
use crate::layers::{require_view, Kernels, Layer, LayerData, LayerError, LayerFault, Weights};
use crate::layout;
use crate::pack;
use crate::reshape::Array;
use crate::safetensors;
use crate::safetensors::{SafeTensorFile, Scalar, TensorView};
use crate::sd_unet;
use crate::sdxl_clip::ClipEncoderSpec;
use crate::tensor::Tensor;
use crate::text;
use crate::text::push_usize;

verus! {

broadcast use vstd::string::group_string_axioms;

/// The number of tokens of a text.
pub const SEQUENCE: usize = 77;

/// Why a text is not encoded.
#[derive(Clone, Debug, PartialEq, Eq)]
#[allow(inconsistent_fields)]
pub enum EncoderError {
    Layer(LayerError),
    Token { token: usize, vocab: usize },
    Sd15Token { token: usize },
    NoLayers,
    Graph(GraphError),
}

/// What an [`EncoderError`] says, with texts and shapes as sequences.
#[allow(inconsistent_fields)]
pub enum EncoderFault {
    Layer(LayerFault),
    Token { token: usize, vocab: usize },
    Sd15Token { token: usize },
    NoLayers,
    Graph(GraphFault),
}

impl View for EncoderError {
    type V = EncoderFault;

    open spec fn view(&self) -> EncoderFault {
        match *self {
            EncoderError::Layer(error) => EncoderFault::Layer(error@),
            EncoderError::Token { token, vocab } => EncoderFault::Token { token, vocab },
            EncoderError::Sd15Token { token } => EncoderFault::Sd15Token { token },
            EncoderError::NoLayers => EncoderFault::NoLayers,
            EncoderError::Graph(error) => EncoderFault::Graph(error@),
        }
    }
}

impl EncoderFault {
    /// The message for people.
    pub open spec fn text(self) -> Seq<char> {
        match self {
            EncoderFault::Layer(fault) => fault.text(),
            EncoderFault::Token { token, vocab } => "CLIP token ID "@ + text::decimal(
                token as nat,
            ) + " is outside the "@ + text::decimal(vocab as nat) + "-entry vocabulary"@,
            EncoderFault::Sd15Token { token } => "CLIP token ID "@ + text::decimal(token as nat)
                + " is outside the SD1.5 vocabulary"@,
            EncoderFault::NoLayers => "CLIP encoder spec must have at least one layer"@,
            EncoderFault::Graph(fault) => fault.text(),
        }
    }
}

impl EncoderError {
    /// The message for people.
    pub fn message(&self) -> (message: String)
        ensures
            message@ == self@.text(),
    {
        let mut out = String::new();
        match self {
            EncoderError::Layer(error) => {
                return error.message();
            },
            EncoderError::Token { token, vocab } => {
                out.append("CLIP token ID ");
                push_usize(&mut out, *token);
                out.append(" is outside the ");
                push_usize(&mut out, *vocab);
                out.append("-entry vocabulary");
            },
            EncoderError::Sd15Token { token } => {
                out.append("CLIP token ID ");
                push_usize(&mut out, *token);
                out.append(" is outside the SD1.5 vocabulary");
            },
            EncoderError::NoLayers => {
                out.append("CLIP encoder spec must have at least one layer");
            },
            EncoderError::Graph(error) => {
                return error.message();
            },
        }
        out
    }
}

/// The name of the token embeddings.
pub open spec fn token_name() -> Seq<char> {
    "text_model.embeddings.token_embedding.weight"@
}

/// The name of the position embeddings.
pub open spec fn position_name() -> Seq<char> {
    "text_model.embeddings.position_embedding.weight"@
}

/// The first of `tokens` from `from` on that the vocabulary lacks.
pub open spec fn stray_token(tokens: Seq<u32>, vocab: usize, from: int) -> Option<u32>
    decreases tokens.len() - from,
{
    if from < 0 || from >= tokens.len() {
        None
    } else if tokens[from] >= vocab {
        Some(tokens[from])
    } else {
        stray_token(tokens, vocab, from + 1)
    }
}

/// A fault of a layer is one of the encoder.
pub open spec fn layer_fault(fault: Option<LayerFault>) -> Option<EncoderFault> {
    match fault {
        Some(fault) => Some(EncoderFault::Layer(fault)),
        None => None,
    }
}

/// Why tokens are not embedded, if they are not.
pub open spec fn embedding_fault(
    weights: Weights,
    tokens: Seq<u32>,
    spec: ClipEncoderSpec,
) -> Option<EncoderFault> {
    pack::either(
        layer_fault(
            pack::either(
                pack::either(weights.absence(token_name()), weights.absence(position_name())),
                pack::either(
                    weights.view_fault(token_name(), seq![spec.vocab, spec.hidden]),
                    weights.view_fault(position_name(), seq![SEQUENCE, spec.hidden]),
                ),
            ),
        ),
        match stray_token(tokens, spec.vocab, 0) {
            Some(token) => Some(EncoderFault::Token { token: token as usize, vocab: spec.vocab }),
            None => None,
        },
    )
}

/// `value` is an element of a token's embedding added to one of its position's.
pub open spec fn embedded<
    T: Copy,
    Z: Copy,
    M: Fn(T, T, T) -> T + Copy,
    P: Fn(T, T) -> T + Copy,
    G: Fn(T, T) -> T + Copy,
    L: Fn(T) -> T + Copy,
    E: Fn(T) -> T + Copy,
    Q: Fn(T) -> T + Copy,
    A: Fn(&[T], u32) -> Z + Copy,
    B: Fn(T, Z, T, T) -> T + Copy,
    C: Fn(T, usize) -> T + Copy,
    H: Fn(Vec<T>) -> Vec<T> + Copy,
    N: Fn(Scalar) -> T + Copy,
>(
    kernels: Kernels<T, M, P, G, L, E, Q, A, B, C, H, N>,
    weights: Weights,
    token: int,
    position: int,
    hidden: int,
    element: int,
    value: T,
) -> bool {
    exists|a: T, b: T|
        {
            &&& kernels.loads_element(weights, token_name(), token * hidden + element, a)
            &&& kernels.loads_element(weights, position_name(), position * hidden + element, b)
            &&& #[trigger] call_ensures(kernels.plus, (a, b), value)
        }
}

/// `out` is the embedding of tokens.
pub open spec fn embeds<
    T: Copy,
    Z: Copy,
    M: Fn(T, T, T) -> T + Copy,
    P: Fn(T, T) -> T + Copy,
    G: Fn(T, T) -> T + Copy,
    L: Fn(T) -> T + Copy,
    E: Fn(T) -> T + Copy,
    Q: Fn(T) -> T + Copy,
    A: Fn(&[T], u32) -> Z + Copy,
    B: Fn(T, Z, T, T) -> T + Copy,
    C: Fn(T, usize) -> T + Copy,
    H: Fn(Vec<T>) -> Vec<T> + Copy,
    N: Fn(Scalar) -> T + Copy,
>(
    kernels: Kernels<T, M, P, G, L, E, Q, A, B, C, H, N>,
    weights: Weights,
    tokens: Seq<u32>,
    hidden: usize,
    out: Array<T>,
) -> bool {
    &&& out.wf()
    &&& out.dims == seq![1usize, SEQUENCE, hidden]
    &&& forall|k: int|
        0 <= k < out.data.len() ==> embedded(
            kernels,
            weights,
            tokens[k / hidden as int] as int,
            k / hidden as int,
            hidden as int,
            k % hidden as int,
            #[trigger] out.data[k],
        )
}

/// What an element of a tensor of the file stands for.
fn element<
    T: Copy,
    Z: Copy,
    M: Fn(T, T, T) -> T + Copy,
    P: Fn(T, T) -> T + Copy,
    G: Fn(T, T) -> T + Copy,
    L: Fn(T) -> T + Copy,
    E: Fn(T) -> T + Copy,
    Q: Fn(T) -> T + Copy,
    A: Fn(&[T], u32) -> Z + Copy,
    B: Fn(T, Z, T, T) -> T + Copy,
    C: Fn(T, usize) -> T + Copy,
    H: Fn(Vec<T>) -> Vec<T> + Copy,
    N: Fn(Scalar) -> T + Copy,
>(
    kernels: &Kernels<T, M, P, G, L, E, Q, A, B, C, H, N>,
    file: &SafeTensorFile,
    view: &TensorView,
    name: &str,
    index: usize,
) -> (value: T)
    requires
        kernels.usable(),
        view.wf(),
        file.weights().has(name@),
        view.dtype == safetensors::lookup(file.tensors(), name@)->0.dtype,
        view.payload@ == file.file().subrange(
            safetensors::lookup(file.tensors(), name@)->0.start as int,
            safetensors::lookup(file.tensors(), name@)->0.end as int,
        ),
        index < layout::product(view.shape@),
    ensures
        kernels.loads_element(file.weights(), name@, index as int, value),
{
    let scalar = view.value(index);
    let value = (kernels.number)(scalar);
    assert(call_ensures(kernels.number, (scalar,), value));
    value
}

/// Embeds tokens.
pub fn embed_tokens<
    T: Copy,
    Z: Copy,
    M: Fn(T, T, T) -> T + Copy,
    P: Fn(T, T) -> T + Copy,
    G: Fn(T, T) -> T + Copy,
    L: Fn(T) -> T + Copy,
    E: Fn(T) -> T + Copy,
    Q: Fn(T) -> T + Copy,
    A: Fn(&[T], u32) -> Z + Copy,
    B: Fn(T, Z, T, T) -> T + Copy,
    C: Fn(T, usize) -> T + Copy,
    H: Fn(Vec<T>) -> Vec<T> + Copy,
    N: Fn(Scalar) -> T + Copy,
>(
    kernels: &Kernels<T, M, P, G, L, E, Q, A, B, C, H, N>,
    file: &SafeTensorFile,
    tokens: &[u32; 77],
    spec: &ClipEncoderSpec,
) -> (result: Result<Tensor<T>, EncoderError>)
    requires
        kernels.usable(),
        file.wf(),
    ensures
        match embedding_fault(file.weights(), tokens@, *spec) {
            Some(fault) => result is Err && result->Err_0@ == fault,
            None => result is Ok && result->Ok_0.wf() && embeds(
                *kernels,
                file.weights(),
                tokens@,
                spec.hidden,
                result->Ok_0.array(),
            ),
        },
{
    let token_text = "text_model.embeddings.token_embedding.weight";
    let position_text = "text_model.embeddings.position_embedding.weight";
    let token_view = match file.view(token_text) {
        Ok(view) => view,
        Err(error) => {
            return Err(EncoderError::Layer(LayerError::Access(error)));
        },
    };
    let position_view = match file.view(position_text) {
        Ok(view) => view,
        Err(error) => {
            return Err(EncoderError::Layer(LayerError::Access(error)));
        },
    };
    let token_shape: [usize; 2] = [spec.vocab, spec.hidden];
    let position_shape: [usize; 2] = [SEQUENCE, spec.hidden];
    proof {
        assert(token_shape@ =~= seq![spec.vocab, spec.hidden]);
        assert(position_shape@ =~= seq![SEQUENCE, spec.hidden]);
    }
    if let Some(error) = require_view(&token_view, token_text, &token_shape) {
        return Err(EncoderError::Layer(error));
    }
    if let Some(error) = require_view(&position_view, position_text, &position_shape) {
        return Err(EncoderError::Layer(error));
    }
    let mut from: usize = 0;
    while from < 77
        invariant
            from <= 77,
            stray_token(tokens@, spec.vocab, 0) == stray_token(tokens@, spec.vocab, from as int),
            forall|j: int| 0 <= j < from ==> #[trigger] tokens@[j] < spec.vocab,
            layer_fault(
                pack::either(
                    pack::either(
                        file.weights().absence(token_name()),
                        file.weights().absence(position_name()),
                    ),
                    pack::either(
                        file.weights().view_fault(token_name(), seq![spec.vocab, spec.hidden]),
                        file.weights().view_fault(position_name(), seq![SEQUENCE, spec.hidden]),
                    ),
                ),
            ) is None,
        decreases 77 - from,
    {
        let token: usize = tokens[from] as usize;
        if token >= spec.vocab {
            return Err(EncoderError::Token { token, vocab: spec.vocab });
        }
        from = from + 1;
    }
    let hidden: usize = spec.hidden;
    proof {
        layout::lemma_product_small(token_view.shape@);
        layout::lemma_product_small(position_view.shape@);
        layout::lemma_product_positive(position_view.shape@);
    }
    let len: usize = SEQUENCE * hidden;
    let mut data: Vec<T> = Vec::with_capacity(len);
    let mut k: usize = 0;
    while k < len
        invariant
            k == data@.len() <= len,
            len == 77 * hidden,
            0 < hidden,
            hidden == spec.hidden,
            kernels.usable(),
            file.wf(),
            token_text@ == token_name(),
            position_text@ == position_name(),
            token_view.wf(),
            position_view.wf(),
            file.weights().has(token_name()),
            file.weights().has(position_name()),
            token_view.dtype == safetensors::lookup(file.tensors(), token_name())->0.dtype,
            token_view.payload@ == file.file().subrange(
                safetensors::lookup(file.tensors(), token_name())->0.start as int,
                safetensors::lookup(file.tensors(), token_name())->0.end as int,
            ),
            position_view.dtype == safetensors::lookup(file.tensors(), position_name())->0.dtype,
            position_view.payload@ == file.file().subrange(
                safetensors::lookup(file.tensors(), position_name())->0.start as int,
                safetensors::lookup(file.tensors(), position_name())->0.end as int,
            ),
            layout::product(token_view.shape@) == spec.vocab * hidden,
            spec.vocab * hidden <= usize::MAX,
            layout::product(position_view.shape@) == 77 * hidden,
            forall|j: int| 0 <= j < 77 ==> #[trigger] tokens@[j] < spec.vocab,
            forall|j: int|
                0 <= j < k ==> embedded(
                    *kernels,
                    file.weights(),
                    tokens@[j / hidden as int] as int,
                    j / hidden as int,
                    hidden as int,
                    j % hidden as int,
                    #[trigger] data@[j],
                ),
        decreases len - k,
    {
        let position: usize = k / hidden;
        let element_index: usize = k % hidden;
        proof {
            layout::lemma_divide(k as int, 77, hidden as int);
        }
        assert(tokens@[position as int] < spec.vocab);
        let token: usize = tokens[position] as usize;
        proof {
            assert(position * hidden + element_index == k) by (nonlinear_arith)
                requires
                    position == k / hidden,
                    element_index == k % hidden,
                    0 < hidden,
            ;
            assert(0 <= token * hidden && token * hidden + hidden <= spec.vocab * hidden)
                by (nonlinear_arith)
                requires
                    0 <= token < spec.vocab,
                    0 < hidden,
            ;
        }
        let a = element(kernels, file, &token_view, token_text, token * hidden + element_index);
        let b = element(kernels, file, &position_view, position_text, k);
        let value = (kernels.plus)(a, b);
        proof {
            assert(call_ensures(kernels.plus, (a, b), value));
            assert(embedded(
                *kernels,
                file.weights(),
                tokens@[k as int / hidden as int] as int,
                k as int / hidden as int,
                hidden as int,
                k as int % hidden as int,
                value,
            ));
        }
        data.push(value);
        k = k + 1;
    }
    let shape: Vec<usize> = vec![1, SEQUENCE, hidden];
    proof {
        assert(shape@ =~= seq![1usize, SEQUENCE, hidden]);
        layout::lemma_product_small(shape@);
        assert(1 * 77 * hidden == 77 * hidden) by (nonlinear_arith);
    }
    Ok(Tensor::from_parts(shape, data))
}

/// The name of a layer.
pub open spec fn layer_name(index: int) -> Seq<char> {
    "text_model.encoder.layers."@ + text::decimal(index as nat)
}

/// One layer of the encoder.
pub open spec fn layer_steps(spec: ClipEncoderSpec, index: int) -> Seq<OpData> {
    blocks::text_attention_steps(layer_name(index), spec.hidden, spec.heads) + (
    if spec.gelu_exact {
        blocks::text_exact_steps(layer_name(index))
    } else {
        blocks::text_quick_steps(layer_name(index))
    })
}

/// Layers `from` to `to`.
pub open spec fn layers_steps(spec: ClipEncoderSpec, from: int, to: int) -> Seq<OpData>
    decreases to - from,
{
    if from >= to {
        Seq::empty()
    } else {
        layers_steps(spec, from, to - 1) + layer_steps(spec, to - 1)
    }
}

/// The check of the shape of a text.
pub open spec fn check_steps(spec: ClipEncoderSpec) -> Seq<OpData> {
    seq![OpData::Apply(LayerData::TextRows { hidden: spec.hidden })]
}

/// The normalization after the last layer, and the check of the text's shape.
pub open spec fn final_steps(spec: ClipEncoderSpec) -> Seq<OpData> {
    seq![
        blocks::text_norm("text_model.final_layer_norm"@),
        OpData::Apply(LayerData::TextRows { hidden: spec.hidden }),
    ]
}

/// Adds one layer of the encoder.
fn layer(program: &mut Vec<Op>, spec: &ClipEncoderSpec, index: usize)
    ensures
        graph::steps(final(program)@) == graph::steps(old(program)@) + layer_steps(
            *spec,
            index as int,
        ),
{
    let name = numbered("text_model.encoder.layers.", index);
    text_attention(program, name.as_str(), spec.hidden, spec.heads);
    if spec.gelu_exact {
        text_exact(program, name.as_str());
    } else {
        text_quick(program, name.as_str());
    }
    proof {
        graph::lemma_joined(
            graph::steps(old(program)@),
            blocks::text_attention_steps(layer_name(index as int), spec.hidden, spec.heads),
            if spec.gelu_exact {
                blocks::text_exact_steps(layer_name(index as int))
            } else {
                blocks::text_quick_steps(layer_name(index as int))
            },
        );
    }
}

/// Layers `from` to `to` as a program.
pub fn layers_program(spec: &ClipEncoderSpec, from: usize, to: usize) -> (program: Vec<Op>)
    requires
        from <= to,
    ensures
        graph::steps(program@) == layers_steps(*spec, from as int, to as int),
{
    let mut program: Vec<Op> = Vec::new();
    proof {
        assert(graph::steps(program@) =~= Seq::empty());
    }
    let mut index: usize = from;
    while index < to
        invariant
            from <= index <= to,
            graph::steps(program@) == layers_steps(*spec, from as int, index as int),
        decreases to - index,
    {
        layer(&mut program, spec, index);
        index = index + 1;
    }
    program
}

/// Adds the check of the shape of a text.
pub fn check(program: &mut Vec<Op>, spec: &ClipEncoderSpec)
    ensures
        graph::steps(final(program)@) == graph::steps(old(program)@) + check_steps(*spec),
{
    put(program, Op::Apply(Layer::TextRows { hidden: spec.hidden }));
    proof {
        assert(graph::steps(program@) =~= graph::steps(old(program)@) + check_steps(*spec));
    }
}

/// Adds the normalization after the last layer, and the check of the text's shape.
pub fn finish(program: &mut Vec<Op>, spec: &ClipEncoderSpec)
    ensures
        graph::steps(final(program)@) == graph::steps(old(program)@) + final_steps(*spec),
{
    put(
        program,
        Op::Apply(
            Layer::TextNorm {
                prefix: "text_model.final_layer_norm".to_owned(),
                epsilon: layers::EPSILON_5,
            },
        ),
    );
    put(program, Op::Apply(Layer::TextRows { hidden: spec.hidden }));
    proof {
        assert(graph::steps(program@) =~= graph::steps(old(program)@) + final_steps(*spec));
    }
}

/// Layers change no number of tensors.
proof fn lemma_layers(spec: ClipEncoderSpec, from: int, to: int, numbers: Level)
    requires
        numbers.stack >= 1,
    ensures
        graph::leads(false, layers_steps(spec, from, to), numbers, numbers),
    decreases to - from,
{
    if from < to {
        let name = layer_name(to - 1);
        let a = blocks::text_attention_steps(name, spec.hidden, spec.heads);
        lemma_layers(spec, from, to - 1, numbers);
        blocks::lemma_text_attention(false, name, spec.hidden, spec.heads, numbers);
        blocks::lemma_text_exact(false, name, numbers);
        blocks::lemma_text_quick(false, name, numbers);
        if spec.gelu_exact {
            graph::lemma_leads(
                false,
                a,
                blocks::text_exact_steps(name),
                numbers,
                numbers,
                numbers,
            );
        } else {
            graph::lemma_leads(
                false,
                a,
                blocks::text_quick_steps(name),
                numbers,
                numbers,
                numbers,
            );
        }
        graph::lemma_leads(
            false,
            layers_steps(spec, from, to - 1),
            layer_steps(spec, to - 1),
            numbers,
            numbers,
            numbers,
        );
    }
}

/// An encoder turns one text into one, without context or time, and never lacks a tensor.
pub proof fn encoders_are_balanced(spec: ClipEncoderSpec, from: int, to: int)
    ensures
        graph::balanced(false, layers_steps(spec, from, to) + check_steps(spec)),
        graph::balanced(false, layers_steps(spec, from, to) + final_steps(spec)),
{
    let one = Level { stack: 1, skips: 0 };
    lemma_layers(spec, from, to, one);
    assert(graph::leads(false, final_steps(spec), one, one)) by {
        reveal_with_fuel(graph::levels, 3);
    }
    assert(graph::leads(false, check_steps(spec), one, one)) by {
        reveal_with_fuel(graph::levels, 2);
    }
    graph::lemma_leads(
        false,
        layers_steps(spec, from, to),
        final_steps(spec),
        one,
        one,
        one,
    );
    graph::lemma_leads(
        false,
        layers_steps(spec, from, to),
        check_steps(spec),
        one,
        one,
        one,
    );
}

/// Runs a program on a text.
pub fn run<
    T: Copy,
    Z: Copy,
    M: Fn(T, T, T) -> T + Copy,
    P: Fn(T, T) -> T + Copy,
    G: Fn(T, T) -> T + Copy,
    L: Fn(T) -> T + Copy,
    E: Fn(T) -> T + Copy,
    Q: Fn(T) -> T + Copy,
    A: Fn(&[T], u32) -> Z + Copy,
    B: Fn(T, Z, T, T) -> T + Copy,
    C: Fn(T, usize) -> T + Copy,
    H: Fn(Vec<T>) -> Vec<T> + Copy,
    N: Fn(Scalar) -> T + Copy,
>(
    kernels: &Kernels<T, M, P, G, L, E, Q, A, B, C, H, N>,
    file: &SafeTensorFile,
    program: &Vec<Op>,
    input: Tensor<T>,
) -> (result: Result<Tensor<T>, EncoderError>)
    requires
        kernels.usable(),
        file.wf(),
        input.wf(),
        graph::balanced(false, graph::steps(program@)),
    ensures
        match result {
            Ok(out) => out.wf() && kernels.computes(
                file.weights(),
                sd_unet::nothing_given(),
                graph::steps(program@),
                input.array(),
                out.array(),
            ),
            Err(error) => error@ matches EncoderFault::Graph(fault) && fault is Layer
                && kernels.breaks(
                file.weights(),
                sd_unet::nothing_given(),
                graph::steps(program@),
                input.array(),
                fault,
            ),
        },
{
    let ghost array = input.array();
    match kernels.run(file, None, None, program, input) {
        Ok(out) => Ok(out),
        Err(error) => {
            proof {
                kernels.balanced_programs_do_not_run_dry(
                    file.weights(),
                    sd_unet::nothing_given(),
                    graph::steps(program@),
                    array,
                    error@,
                );
            }
            Err(EncoderError::Graph(error))
        },
    }
}

} // verus!
