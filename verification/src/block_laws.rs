//! What the building blocks of the diffusion networks compute.

use vstd::prelude::*;
use crate::blocks;
use crate::graph;
use crate::graph::{Inputs, Memory, OpData};
use crate::layers::{Kernels, LayerData, Weights};
use crate::reshape;
use crate::reshape::Array;
use crate::safetensors::Scalar;
use crate::text;

verus! {

impl<
    T: Copy,
    S: Copy,
    M: Fn(T, T, T) -> T + Copy,
    P: Fn(T, T) -> T + Copy,
    G: Fn(T, T) -> T + Copy,
    L: Fn(T) -> T + Copy,
    E: Fn(T) -> T + Copy,
    Q: Fn(T) -> T + Copy,
    A: Fn(&[T], u32) -> S + Copy,
    B: Fn(T, S, T, T) -> T + Copy,
    C: Fn(T, usize) -> T + Copy,
    H: Fn(Vec<T>) -> Vec<T> + Copy,
    N: Fn(Scalar) -> T + Copy,
> Kernels<T, M, P, G, L, E, Q, A, B, C, H, N> {
    /// The tensors between the steps of a run.
    pub proof fn lemma_trace(
        self,
        weights: Weights,
        inputs: Inputs<T>,
        program: Seq<OpData>,
        before: Memory<T>,
        after: Memory<T>,
    ) -> (states: Seq<Memory<T>>)
        requires
            self.runs(weights, inputs, program, before, after),
        ensures
            states.len() == program.len() + 1,
            states[0] == before,
            states[program.len() as int] == after,
            forall|i: int|
                0 <= i < program.len() ==> self.goes(
                    weights,
                    inputs,
                    #[trigger] program[i],
                    states[i],
                    states[i + 1],
                ),
        decreases program.len(),
    {
        if program.len() == 0 {
            seq![before]
        } else {
            let init = program.drop_last();
            let middle = choose|middle: Memory<T>|
                {
                    &&& self.runs(weights, inputs, init, before, middle)
                    &&& graph::step_fault(weights, inputs, program.last(), middle) is None
                    &&& #[trigger] self.performs(weights, inputs, program.last(), middle, after)
                };
            let states = self.lemma_trace(weights, inputs, init, before, middle);
            let longer = states.push(after);
            assert forall|i: int| 0 <= i < program.len() implies self.goes(
                weights,
                inputs,
                #[trigger] program[i],
                longer[i],
                longer[i + 1],
            ) by {
                if i < init.len() {
                    assert(init[i] == program[i]);
                }
            }
            longer
        }
    }

    /// A step goes from one state to the next without a fault.
    pub open spec fn goes(
        self,
        weights: Weights,
        inputs: Inputs<T>,
        op: OpData,
        before: Memory<T>,
        after: Memory<T>,
    ) -> bool {
        &&& graph::step_fault(weights, inputs, op, before) is None
        &&& self.performs(weights, inputs, op, before, after)
    }

    /// A run of two programs is a run of the first and one of the second.
    pub proof fn lemma_runs_split(
        self,
        weights: Weights,
        inputs: Inputs<T>,
        first: Seq<OpData>,
        second: Seq<OpData>,
        before: Memory<T>,
        after: Memory<T>,
    ) -> (middle: Memory<T>)
        requires
            self.runs(weights, inputs, first + second, before, after),
        ensures
            self.runs(weights, inputs, first, before, middle),
            self.runs(weights, inputs, second, middle, after),
        decreases second.len(),
    {
        let program = first + second;
        if second.len() == 0 {
            assert(program =~= first);
            after
        } else {
            assert(program.drop_last() =~= first + second.drop_last());
            assert(program.last() == second.last());
            let last = choose|last: Memory<T>|
                {
                    &&& self.runs(weights, inputs, program.drop_last(), before, last)
                    &&& graph::step_fault(weights, inputs, program.last(), last) is None
                    &&& #[trigger] self.performs(weights, inputs, program.last(), last, after)
                };
            let middle = self.lemma_runs_split(
                weights,
                inputs,
                first,
                second.drop_last(),
                before,
                last,
            );
            assert(self.performs(weights, inputs, second.last(), last, after));
            middle
        }
    }

    /// A layer works on the top tensor.
    pub proof fn lemma_apply(
        self,
        weights: Weights,
        inputs: Inputs<T>,
        layer: LayerData,
        before: Memory<T>,
        after: Memory<T>,
        rest: Seq<Array<T>>,
        x: Array<T>,
    ) -> (out: Array<T>)
        requires
            self.goes(weights, inputs, OpData::Apply(layer), before, after),
            before.stack == rest.push(x),
        ensures
            self.applies(weights, layer, x, out),
            after.stack == rest.push(out),
            after.skips == before.skips,
    {
        assert(before.peek(0) == x);
        let out = choose|out: Array<T>|
            {
                &&& #[trigger] self.applies(weights, layer, before.peek(0), out)
                &&& after == before.replace(1, out)
            };
        assert(after.stack =~= rest.push(out));
        out
    }

    proof fn lemma_duplicate(
        self,
        weights: Weights,
        inputs: Inputs<T>,
        before: Memory<T>,
        after: Memory<T>,
        rest: Seq<Array<T>>,
        x: Array<T>,
    )
        requires
            self.goes(weights, inputs, OpData::Duplicate, before, after),
            before.stack == rest.push(x),
        ensures
            after.stack == rest.push(x).push(x),
            after.skips == before.skips,
    {
        assert(before.peek(0) == x);
    }

    proof fn lemma_swap(
        self,
        weights: Weights,
        inputs: Inputs<T>,
        before: Memory<T>,
        after: Memory<T>,
        rest: Seq<Array<T>>,
        x: Array<T>,
        y: Array<T>,
    )
        requires
            self.goes(weights, inputs, OpData::Swap, before, after),
            before.stack == rest.push(x).push(y),
        ensures
            after.stack == rest.push(y).push(x),
            after.skips == before.skips,
    {
        assert(before.peek(0) == y && before.peek(1) == x);
        assert(after.stack =~= rest.push(y).push(x));
    }

    proof fn lemma_rotate(
        self,
        weights: Weights,
        inputs: Inputs<T>,
        before: Memory<T>,
        after: Memory<T>,
        rest: Seq<Array<T>>,
        x: Array<T>,
        y: Array<T>,
        z: Array<T>,
    )
        requires
            self.goes(weights, inputs, OpData::Rotate, before, after),
            before.stack == rest.push(x).push(y).push(z),
        ensures
            after.stack == rest.push(y).push(z).push(x),
            after.skips == before.skips,
    {
        assert(before.peek(0) == z && before.peek(1) == y && before.peek(2) == x);
        assert(after.stack =~= rest.push(y).push(z).push(x));
    }

    /// Attention takes the queries from below the keys, and the values from above them.
    proof fn lemma_attention(
        self,
        weights: Weights,
        inputs: Inputs<T>,
        causal: bool,
        before: Memory<T>,
        after: Memory<T>,
        rest: Seq<Array<T>>,
        query: Array<T>,
        key: Array<T>,
        value: Array<T>,
    ) -> (out: Array<T>)
        requires
            self.goes(weights, inputs, OpData::Attention { causal }, before, after),
            before.stack == rest.push(query).push(key).push(value),
        ensures
            out.wf(),
            self.reads(query, key, value, causal, out),
            after.stack == rest.push(out),
            after.skips == before.skips,
    {
        assert(before.peek(0) == value && before.peek(1) == key && before.peek(2) == query);
        let out = choose|out: Array<T>|
            {
                &&& out.wf()
                &&& #[trigger] self.reads(
                    before.peek(2),
                    before.peek(1),
                    before.peek(0),
                    causal,
                    out,
                )
                &&& after == before.replace(3, out)
            };
        assert(after.stack =~= rest.push(out));
        out
    }

    proof fn lemma_add(
        self,
        weights: Weights,
        inputs: Inputs<T>,
        before: Memory<T>,
        after: Memory<T>,
        rest: Seq<Array<T>>,
        x: Array<T>,
        y: Array<T>,
    ) -> (out: Array<T>)
        requires
            self.goes(weights, inputs, OpData::Add, before, after),
            before.stack == rest.push(x).push(y),
        ensures
            out.wf(),
            self.adds(x, y, out),
            after.stack == rest.push(out),
            after.skips == before.skips,
    {
        assert(before.peek(0) == y && before.peek(1) == x);
        let out = choose|out: Array<T>|
            {
                &&& out.wf()
                &&& #[trigger] self.adds(before.peek(1), before.peek(0), out)
                &&& after == before.replace(2, out)
            };
        assert(after.stack =~= rest.push(out));
        out
    }

    proof fn lemma_bias(
        self,
        weights: Weights,
        inputs: Inputs<T>,
        before: Memory<T>,
        after: Memory<T>,
        rest: Seq<Array<T>>,
        x: Array<T>,
        y: Array<T>,
    ) -> (out: Array<T>)
        requires
            self.goes(weights, inputs, OpData::Bias, before, after),
            before.stack == rest.push(x).push(y),
        ensures
            out.wf(),
            reshape::biased(self.plus, x, y.data, out),
            after.stack == rest.push(out),
            after.skips == before.skips,
    {
        assert(before.peek(0) == y && before.peek(1) == x);
        let out = choose|out: Array<T>|
            {
                &&& out.wf()
                &&& #[trigger] reshape::biased(
                    self.plus,
                    before.peek(1),
                    before.peek(0).data,
                    out,
                )
                &&& after == before.replace(2, out)
            };
        assert(after.stack =~= rest.push(out));
        out
    }

    proof fn lemma_image(
        self,
        weights: Weights,
        inputs: Inputs<T>,
        before: Memory<T>,
        after: Memory<T>,
        rest: Seq<Array<T>>,
        x: Array<T>,
        y: Array<T>,
    )
        requires
            self.goes(weights, inputs, OpData::Image, before, after),
            before.stack == rest.push(x).push(y),
        ensures
            after.stack == rest.push(x).push(reshape::imaged(y, x.dims[2], x.dims[3])),
            after.skips == before.skips,
    {
        assert(before.peek(0) == y && before.peek(1) == x);
        assert(after.stack =~= rest.push(x).push(reshape::imaged(y, x.dims[2], x.dims[3])));
    }

    proof fn lemma_one_head_step(
        self,
        weights: Weights,
        inputs: Inputs<T>,
        before: Memory<T>,
        after: Memory<T>,
        rest: Seq<Array<T>>,
        image: Array<T>,
        x: Array<T>,
        y: Array<T>,
        z: Array<T>,
    )
        requires
            self.goes(weights, inputs, OpData::OneHead, before, after),
            before.stack == rest.push(image).push(x).push(y).push(z),
        ensures
            after.stack == rest.push(image).push(x).push(y).push(single_head(image, z)),
            after.skips == before.skips,
    {
        assert(before.peek(0) == z && before.peek(3) == image);
        assert(after.stack =~= rest.push(image).push(x).push(y).push(single_head(image, z)));
    }

    /// Attention over `heads` heads, with these intermediate tensors: the queries are a projection
    /// of `x`, the keys and the values are two projections of `context`, each is split into heads,
    /// the queries read the values by their likeness to the keys, and what they read is merged and
    /// projected.
    pub open spec fn mixes_by(
        self,
        weights: Weights,
        prefix: Seq<char>,
        heads: usize,
        x: Array<T>,
        context: Array<T>,
        m: Mixing<T>,
        out: Array<T>,
    ) -> bool {
        &&& self.applies(weights, LayerData::Linear { prefix: prefix + ".to_q"@ }, x, m.query)
        &&& self.applies(weights, LayerData::Linear { prefix: prefix + ".to_k"@ }, context, m.key)
        &&& self.applies(
            weights,
            LayerData::Linear { prefix: prefix + ".to_v"@ },
            context,
            m.value,
        )
        &&& self.applies(weights, LayerData::Split { heads }, m.query, m.query_heads)
        &&& self.applies(weights, LayerData::Split { heads }, m.key, m.key_heads)
        &&& self.applies(weights, LayerData::Split { heads }, m.value, m.value_heads)
        &&& self.reads(m.query_heads, m.key_heads, m.value_heads, false, m.read)
        &&& self.applies(weights, LayerData::Merge, m.read, m.merged)
        &&& self.applies(
            weights,
            LayerData::Linear { prefix: prefix + ".to_out.0"@ },
            m.merged,
            out,
        )
    }

    /// `out` is attention of `x` to `context`.
    pub open spec fn mixes(
        self,
        weights: Weights,
        prefix: Seq<char>,
        heads: usize,
        x: Array<T>,
        context: Array<T>,
        out: Array<T>,
    ) -> bool {
        exists|m: Mixing<T>| #[trigger]
            self.mixes_by(weights, prefix, heads, x, context, m, out)
    }

    /// `out` is `x` and, added to it, causal attention of the normalized `x` to itself.
    pub open spec fn text_mixes_by(
        self,
        weights: Weights,
        prefix: Seq<char>,
        heads: usize,
        x: Array<T>,
        m: TextMixing<T>,
        out: Array<T>,
    ) -> bool {
        &&& self.applies(
            weights,
            LayerData::TextNorm { prefix: prefix + ".layer_norm1"@, epsilon: 0x3727_c5ac },
            x,
            m.normed,
        )
        &&& self.applies(
            weights,
            LayerData::TextLinear { prefix: prefix + ".self_attn.q_proj"@ },
            m.normed,
            m.query,
        )
        &&& self.applies(
            weights,
            LayerData::TextLinear { prefix: prefix + ".self_attn.k_proj"@ },
            m.normed,
            m.key,
        )
        &&& self.applies(
            weights,
            LayerData::TextLinear { prefix: prefix + ".self_attn.v_proj"@ },
            m.normed,
            m.value,
        )
        &&& self.applies(weights, LayerData::Split { heads }, m.query, m.query_heads)
        &&& self.applies(weights, LayerData::Split { heads }, m.key, m.key_heads)
        &&& self.applies(weights, LayerData::Split { heads }, m.value, m.value_heads)
        &&& self.reads(m.query_heads, m.key_heads, m.value_heads, true, m.read)
        &&& self.applies(weights, LayerData::Merge, m.read, m.merged)
        &&& self.applies(
            weights,
            LayerData::TextLinear { prefix: prefix + ".self_attn.out_proj"@ },
            m.merged,
            m.projected,
        )
        &&& self.adds(x, m.projected, out)
    }

    /// `out` is the image `x` and, added to it, what its normalized positions read from each other
    /// with a single head.
    pub open spec fn image_mixes_by(
        self,
        weights: Weights,
        prefix: Seq<char>,
        x: Array<T>,
        m: ImageMixing<T>,
        out: Array<T>,
    ) -> bool {
        &&& self.applies(
            weights,
            LayerData::GroupNorm { prefix: prefix + ".group_norm"@, epsilon: 0x3586_37bd },
            x,
            m.normed,
        )
        &&& self.applies(weights, LayerData::Sequence, m.normed, m.positions)
        &&& self.applies(
            weights,
            LayerData::Linear { prefix: prefix + ".to_q"@ },
            m.positions,
            m.query,
        )
        &&& self.applies(
            weights,
            LayerData::Linear { prefix: prefix + ".to_k"@ },
            m.positions,
            m.key,
        )
        &&& self.applies(
            weights,
            LayerData::Linear { prefix: prefix + ".to_v"@ },
            m.positions,
            m.value,
        )
        &&& self.reads(
            single_head(x, m.query),
            single_head(x, m.key),
            single_head(x, m.value),
            false,
            m.read,
        )
        &&& self.applies(weights, LayerData::Merge, m.read, m.merged)
        &&& self.applies(
            weights,
            LayerData::Linear { prefix: prefix + ".to_out.0"@ },
            m.merged,
            m.projected,
        )
        &&& self.adds(x, reshape::imaged(m.projected, x.dims[2], x.dims[3]), out)
    }

    /// `out` is the shortcut of `x` and, added to it, two convolutions of `x`, each after a
    /// normalization and an activation; between them comes a bias for each channel, where there is
    /// a time embedding.
    pub open spec fn refines_by(
        self,
        weights: Weights,
        prefix: Seq<char>,
        epsilon: u32,
        x: Array<T>,
        time: Option<Array<T>>,
        m: Refining<T>,
        out: Array<T>,
    ) -> bool {
        &&& self.applies(
            weights,
            LayerData::Shortcut { prefix: prefix + ".conv_shortcut"@ },
            x,
            m.shortcut,
        )
        &&& self.applies(
            weights,
            LayerData::GroupNorm { prefix: prefix + ".norm1"@, epsilon },
            x,
            m.normed,
        )
        &&& self.applies(weights, LayerData::Silu, m.normed, m.active)
        &&& self.applies(
            weights,
            LayerData::Conv { prefix: prefix + ".conv1"@, stride: 1, padding: 1 },
            m.active,
            m.first,
        )
        &&& match time {
            Some(time) => {
                &&& self.applies(weights, LayerData::Silu, time, m.time_active)
                &&& self.applies(
                    weights,
                    LayerData::Linear { prefix: prefix + ".time_emb_proj"@ },
                    m.time_active,
                    m.time_bias,
                )
                &&& reshape::biased(self.plus, m.first, m.time_bias.data, m.timed)
            },
            None => m.timed == m.first,
        }
        &&& self.applies(
            weights,
            LayerData::GroupNorm { prefix: prefix + ".norm2"@, epsilon },
            m.timed,
            m.normed2,
        )
        &&& self.applies(weights, LayerData::Silu, m.normed2, m.active2)
        &&& self.applies(
            weights,
            LayerData::Conv { prefix: prefix + ".conv2"@, stride: 1, padding: 1 },
            m.active2,
            m.second,
        )
        &&& self.adds(m.shortcut, m.second, out)
    }

    /// `out` is what a transformer block makes of `x`: attention to itself, attention to `context`
    /// and a gated feed-forward network, each after a normalization, and each added to what it
    /// starts from.
    pub open spec fn transforms_by(
        self,
        weights: Weights,
        prefix: Seq<char>,
        heads: usize,
        x: Array<T>,
        context: Array<T>,
        m: Transforming<T>,
        out: Array<T>,
    ) -> bool {
        &&& self.applies(
            weights,
            LayerData::LayerNorm { prefix: prefix + ".norm1"@, epsilon: 0x3727_c5ac },
            x,
            m.normed1,
        )
        &&& self.mixes(weights, prefix + ".attn1"@, heads, m.normed1, m.normed1, m.mixed1)
        &&& self.adds(x, m.mixed1, m.sum1)
        &&& self.applies(
            weights,
            LayerData::LayerNorm { prefix: prefix + ".norm2"@, epsilon: 0x3727_c5ac },
            m.sum1,
            m.normed2,
        )
        &&& self.mixes(weights, prefix + ".attn2"@, heads, m.normed2, context, m.mixed2)
        &&& self.adds(m.sum1, m.mixed2, m.sum2)
        &&& self.applies(
            weights,
            LayerData::LayerNorm { prefix: prefix + ".norm3"@, epsilon: 0x3727_c5ac },
            m.sum2,
            m.normed3,
        )
        &&& self.applies(
            weights,
            LayerData::Linear { prefix: prefix + ".ff.net.0.proj"@ },
            m.normed3,
            m.wide,
        )
        &&& self.applies(weights, LayerData::Geglu, m.wide, m.gated)
        &&& self.applies(
            weights,
            LayerData::Linear { prefix: prefix + ".ff.net.2"@ },
            m.gated,
            m.narrow,
        )
        &&& self.adds(m.sum2, m.narrow, out)
    }

    /// `out` is what a transformer block makes of `x`.
    pub open spec fn transforms(
        self,
        weights: Weights,
        prefix: Seq<char>,
        heads: usize,
        x: Array<T>,
        context: Array<T>,
        out: Array<T>,
    ) -> bool {
        exists|m: Transforming<T>| #[trigger]
            self.transforms_by(weights, prefix, heads, x, context, m, out)
    }

    /// Cross-attention: the top tensor asks, and the context answers with its keys and values.
    pub proof fn cross_attention_reads_the_context(
        self,
        weights: Weights,
        inputs: Inputs<T>,
        prefix: Seq<char>,
        heads: usize,
        before: Memory<T>,
        after: Memory<T>,
    ) -> (out: Array<T>)
        requires
            self.runs(weights, inputs, blocks::cross_attention_steps(prefix, heads), before, after),
        ensures
            before.stack.len() >= 1,
            inputs.context is Some,
            self.mixes(
                weights,
                prefix,
                heads,
                before.stack.last(),
                inputs.context->0,
                out,
            ),
            after.stack == before.stack.drop_last().push(out),
            after.skips == before.skips,
    {
        let program = blocks::cross_attention_steps(prefix, heads);
        let s = self.lemma_trace(weights, inputs, program, before, after);
        assert(self.goes(weights, inputs, program[0], s[0], s[1]));
        let rest = before.stack.drop_last();
        let x = before.stack.last();
        assert(before.stack =~= rest.push(x));
        assert(self.goes(weights, inputs, program[1], s[1], s[2]));
        let context = inputs.context->0;
        assert(program[0] == OpData::Apply(LayerData::Linear { prefix: prefix + ".to_q"@ }));
        let query = self.lemma_apply(
            weights,
            inputs,
            LayerData::Linear { prefix: prefix + ".to_q"@ },
            s[0],
            s[1],
            rest,
            x,
        );
        assert(program[1] == OpData::Context);
        assert(s[2].stack =~= rest.push(query).push(context));
        assert(program[2] == OpData::Apply(LayerData::Linear { prefix: prefix + ".to_k"@ }));
        let key = self.lemma_apply(
            weights,
            inputs,
            LayerData::Linear { prefix: prefix + ".to_k"@ },
            s[2],
            s[3],
            rest.push(query),
            context,
        );
        assert(program[3] == OpData::Context);
        assert(s[4].stack =~= rest.push(query).push(key).push(context));
        assert(program[4] == OpData::Apply(LayerData::Linear { prefix: prefix + ".to_v"@ }));
        let value = self.lemma_apply(
            weights,
            inputs,
            LayerData::Linear { prefix: prefix + ".to_v"@ },
            s[4],
            s[5],
            rest.push(query).push(key),
            context,
        );
        assert(program[5] == OpData::Rotate);
        self.lemma_rotate(weights, inputs, s[5], s[6], rest, query, key, value);
        assert(program[6] == OpData::Apply(LayerData::Split { heads }));
        let query_heads = self.lemma_apply(
            weights,
            inputs,
            LayerData::Split { heads },
            s[6],
            s[7],
            rest.push(key).push(value),
            query,
        );
        assert(program[7] == OpData::Rotate);
        self.lemma_rotate(weights, inputs, s[7], s[8], rest, key, value, query_heads);
        assert(program[8] == OpData::Apply(LayerData::Split { heads }));
        let key_heads = self.lemma_apply(
            weights,
            inputs,
            LayerData::Split { heads },
            s[8],
            s[9],
            rest.push(value).push(query_heads),
            key,
        );
        assert(program[9] == OpData::Rotate);
        self.lemma_rotate(weights, inputs, s[9], s[10], rest, value, query_heads, key_heads);
        assert(program[10] == OpData::Apply(LayerData::Split { heads }));
        let value_heads = self.lemma_apply(
            weights,
            inputs,
            LayerData::Split { heads },
            s[10],
            s[11],
            rest.push(query_heads).push(key_heads),
            value,
        );
        assert(program[11] == OpData::Attention { causal: false });
        let read = self.lemma_attention(
            weights,
            inputs,
            false,
            s[11],
            s[12],
            rest,
            query_heads,
            key_heads,
            value_heads,
        );
        assert(program[12] == OpData::Apply(LayerData::Merge));
        let merged = self.lemma_apply(weights, inputs, LayerData::Merge, s[12], s[13], rest, read);
        assert(program[13] == OpData::Apply(LayerData::Linear { prefix: prefix + ".to_out.0"@ }));
        let out = self.lemma_apply(
            weights,
            inputs,
            LayerData::Linear { prefix: prefix + ".to_out.0"@ },
            s[13],
            s[14],
            rest,
            merged,
        );
        let m = Mixing {
            query,
            key,
            value,
            query_heads,
            key_heads,
            value_heads,
            read,
            merged,
        };
        assert(self.mixes_by(weights, prefix, heads, x, context, m, out));
        out
    }

    /// Self-attention: the top tensor asks, and answers with its own keys and values.
    pub proof fn self_attention_reads_itself(
        self,
        weights: Weights,
        inputs: Inputs<T>,
        prefix: Seq<char>,
        heads: usize,
        before: Memory<T>,
        after: Memory<T>,
    ) -> (out: Array<T>)
        requires
            self.runs(weights, inputs, blocks::self_attention_steps(prefix, heads), before, after),
        ensures
            before.stack.len() >= 1,
            self.mixes(
                weights,
                prefix,
                heads,
                before.stack.last(),
                before.stack.last(),
                out,
            ),
            after.stack == before.stack.drop_last().push(out),
            after.skips == before.skips,
    {
        let program = blocks::self_attention_steps(prefix, heads);
        let s = self.lemma_trace(weights, inputs, program, before, after);
        assert(self.goes(weights, inputs, program[0], s[0], s[1]));
        let rest = before.stack.drop_last();
        let x = before.stack.last();
        assert(before.stack =~= rest.push(x));
        assert(program[0] == OpData::Duplicate);
        self.lemma_duplicate(weights, inputs, s[0], s[1], rest, x);
        assert(program[1] == OpData::Apply(LayerData::Linear { prefix: prefix + ".to_q"@ }));
        let query = self.lemma_apply(
            weights,
            inputs,
            LayerData::Linear { prefix: prefix + ".to_q"@ },
            s[1],
            s[2],
            rest.push(x),
            x,
        );
        assert(program[2] == OpData::Swap);
        self.lemma_swap(weights, inputs, s[2], s[3], rest, x, query);
        assert(program[3] == OpData::Duplicate);
        self.lemma_duplicate(weights, inputs, s[3], s[4], rest.push(query), x);
        assert(program[4] == OpData::Apply(LayerData::Linear { prefix: prefix + ".to_k"@ }));
        let key = self.lemma_apply(
            weights,
            inputs,
            LayerData::Linear { prefix: prefix + ".to_k"@ },
            s[4],
            s[5],
            rest.push(query).push(x),
            x,
        );
        assert(program[5] == OpData::Swap);
        self.lemma_swap(weights, inputs, s[5], s[6], rest.push(query), x, key);
        assert(program[6] == OpData::Apply(LayerData::Linear { prefix: prefix + ".to_v"@ }));
        let value = self.lemma_apply(
            weights,
            inputs,
            LayerData::Linear { prefix: prefix + ".to_v"@ },
            s[6],
            s[7],
            rest.push(query).push(key),
            x,
        );
        assert(program[7] == OpData::Rotate);
        self.lemma_rotate(weights, inputs, s[7], s[8], rest, query, key, value);
        assert(program[8] == OpData::Apply(LayerData::Split { heads }));
        let query_heads = self.lemma_apply(
            weights,
            inputs,
            LayerData::Split { heads },
            s[8],
            s[9],
            rest.push(key).push(value),
            query,
        );
        assert(program[9] == OpData::Rotate);
        self.lemma_rotate(weights, inputs, s[9], s[10], rest, key, value, query_heads);
        assert(program[10] == OpData::Apply(LayerData::Split { heads }));
        let key_heads = self.lemma_apply(
            weights,
            inputs,
            LayerData::Split { heads },
            s[10],
            s[11],
            rest.push(value).push(query_heads),
            key,
        );
        assert(program[11] == OpData::Rotate);
        self.lemma_rotate(weights, inputs, s[11], s[12], rest, value, query_heads, key_heads);
        assert(program[12] == OpData::Apply(LayerData::Split { heads }));
        let value_heads = self.lemma_apply(
            weights,
            inputs,
            LayerData::Split { heads },
            s[12],
            s[13],
            rest.push(query_heads).push(key_heads),
            value,
        );
        assert(program[13] == OpData::Attention { causal: false });
        let read = self.lemma_attention(
            weights,
            inputs,
            false,
            s[13],
            s[14],
            rest,
            query_heads,
            key_heads,
            value_heads,
        );
        assert(program[14] == OpData::Apply(LayerData::Merge));
        let merged = self.lemma_apply(weights, inputs, LayerData::Merge, s[14], s[15], rest, read);
        assert(program[15] == OpData::Apply(LayerData::Linear { prefix: prefix + ".to_out.0"@ }));
        let out = self.lemma_apply(
            weights,
            inputs,
            LayerData::Linear { prefix: prefix + ".to_out.0"@ },
            s[15],
            s[16],
            rest,
            merged,
        );
        let m = Mixing {
            query,
            key,
            value,
            query_heads,
            key_heads,
            value_heads,
            read,
            merged,
        };
        assert(self.mixes_by(weights, prefix, heads, x, x, m, out));
        out
    }

    /// Attention of a text layer: the normalized tokens read from themselves and the tokens before
    /// them, and what they read is added to them.
    pub proof fn text_attention_reads_what_came_before(
        self,
        weights: Weights,
        inputs: Inputs<T>,
        prefix: Seq<char>,
        hidden: usize,
        heads: usize,
        before: Memory<T>,
        after: Memory<T>,
    ) -> (out: Array<T>)
        requires
            self.runs(
                weights,
                inputs,
                blocks::text_attention_steps(prefix, hidden, heads),
                before,
                after,
            ),
        ensures
            before.stack.len() >= 1,
            exists|m: TextMixing<T>| #[trigger]
                self.text_mixes_by(weights, prefix, heads, before.stack.last(), m, out),
            after.stack == before.stack.drop_last().push(out),
            after.skips == before.skips,
    {
        let program = blocks::text_attention_steps(prefix, hidden, heads);
        let s = self.lemma_trace(weights, inputs, program, before, after);
        assert(self.goes(weights, inputs, program[0], s[0], s[1]));
        let rest = before.stack.drop_last();
        let x = before.stack.last();
        assert(before.stack =~= rest.push(x));
        assert(program[0] == OpData::Duplicate);
        self.lemma_duplicate(weights, inputs, s[0], s[1], rest, x);
        assert(program[1] == OpData::Apply(
            LayerData::TextNorm { prefix: prefix + ".layer_norm1"@, epsilon: 0x3727_c5ac },
        ));
        let normed = self.lemma_apply(
            weights,
            inputs,
            LayerData::TextNorm { prefix: prefix + ".layer_norm1"@, epsilon: 0x3727_c5ac },
            s[1],
            s[2],
            rest.push(x),
            x,
        );
        assert(program[2] == OpData::Duplicate);
        self.lemma_duplicate(weights, inputs, s[2], s[3], rest.push(x), normed);
        assert(program[3] == OpData::Apply(
            LayerData::TextLinear { prefix: prefix + ".self_attn.q_proj"@ },
        ));
        let query = self.lemma_apply(
            weights,
            inputs,
            LayerData::TextLinear { prefix: prefix + ".self_attn.q_proj"@ },
            s[3],
            s[4],
            rest.push(x).push(normed),
            normed,
        );
        assert(program[4] == OpData::Apply(LayerData::TextRows { hidden }));
        let query_rows = self.lemma_apply(
            weights,
            inputs,
            LayerData::TextRows { hidden },
            s[4],
            s[5],
            rest.push(x).push(normed),
            query,
        );
        assert(program[5] == OpData::Apply(LayerData::Split { heads }));
        let query_heads = self.lemma_apply(
            weights,
            inputs,
            LayerData::Split { heads },
            s[5],
            s[6],
            rest.push(x).push(normed),
            query_rows,
        );
        assert(program[6] == OpData::Swap);
        self.lemma_swap(weights, inputs, s[6], s[7], rest.push(x), normed, query_heads);
        assert(program[7] == OpData::Duplicate);
        self.lemma_duplicate(weights, inputs, s[7], s[8], rest.push(x).push(query_heads), normed);
        assert(program[8] == OpData::Apply(
            LayerData::TextLinear { prefix: prefix + ".self_attn.k_proj"@ },
        ));
        let key = self.lemma_apply(
            weights,
            inputs,
            LayerData::TextLinear { prefix: prefix + ".self_attn.k_proj"@ },
            s[8],
            s[9],
            rest.push(x).push(query_heads).push(normed),
            normed,
        );
        assert(program[9] == OpData::Apply(LayerData::TextRows { hidden }));
        let key_rows = self.lemma_apply(
            weights,
            inputs,
            LayerData::TextRows { hidden },
            s[9],
            s[10],
            rest.push(x).push(query_heads).push(normed),
            key,
        );
        assert(program[10] == OpData::Apply(LayerData::Split { heads }));
        let key_heads = self.lemma_apply(
            weights,
            inputs,
            LayerData::Split { heads },
            s[10],
            s[11],
            rest.push(x).push(query_heads).push(normed),
            key_rows,
        );
        assert(program[11] == OpData::Swap);
        self.lemma_swap(
            weights,
            inputs,
            s[11],
            s[12],
            rest.push(x).push(query_heads),
            normed,
            key_heads,
        );
        assert(program[12] == OpData::Apply(
            LayerData::TextLinear { prefix: prefix + ".self_attn.v_proj"@ },
        ));
        let value = self.lemma_apply(
            weights,
            inputs,
            LayerData::TextLinear { prefix: prefix + ".self_attn.v_proj"@ },
            s[12],
            s[13],
            rest.push(x).push(query_heads).push(key_heads),
            normed,
        );
        assert(program[13] == OpData::Apply(LayerData::TextRows { hidden }));
        let value_rows = self.lemma_apply(
            weights,
            inputs,
            LayerData::TextRows { hidden },
            s[13],
            s[14],
            rest.push(x).push(query_heads).push(key_heads),
            value,
        );
        assert(program[14] == OpData::Apply(LayerData::Split { heads }));
        let value_heads = self.lemma_apply(
            weights,
            inputs,
            LayerData::Split { heads },
            s[14],
            s[15],
            rest.push(x).push(query_heads).push(key_heads),
            value_rows,
        );
        assert(program[15] == OpData::Attention { causal: true });
        let read = self.lemma_attention(
            weights,
            inputs,
            true,
            s[15],
            s[16],
            rest.push(x),
            query_heads,
            key_heads,
            value_heads,
        );
        assert(program[16] == OpData::Apply(LayerData::Merge));
        let merged = self.lemma_apply(
            weights,
            inputs,
            LayerData::Merge,
            s[16],
            s[17],
            rest.push(x),
            read,
        );
        assert(program[17] == OpData::Apply(
            LayerData::TextLinear { prefix: prefix + ".self_attn.out_proj"@ },
        ));
        let projected = self.lemma_apply(
            weights,
            inputs,
            LayerData::TextLinear { prefix: prefix + ".self_attn.out_proj"@ },
            s[17],
            s[18],
            rest.push(x),
            merged,
        );
        assert(program[18] == OpData::Add);
        let out = self.lemma_add(weights, inputs, s[18], s[19], rest, x, projected);
        let m = TextMixing {
            normed,
            query,
            key,
            value,
            query_heads,
            key_heads,
            value_heads,
            read,
            merged,
            projected,
        };
        assert(self.text_mixes_by(weights, prefix, heads, x, m, out));
        out
    }

    /// Attention of an image: its normalized positions read from each other, and what they read is
    /// added to the image.
    pub proof fn image_attention_reads_every_position(
        self,
        weights: Weights,
        inputs: Inputs<T>,
        prefix: Seq<char>,
        before: Memory<T>,
        after: Memory<T>,
    ) -> (out: Array<T>)
        requires
            self.runs(weights, inputs, blocks::image_attention_steps(prefix), before, after),
        ensures
            before.stack.len() >= 1,
            exists|m: ImageMixing<T>| #[trigger]
                self.image_mixes_by(weights, prefix, before.stack.last(), m, out),
            after.stack == before.stack.drop_last().push(out),
            after.skips == before.skips,
    {
        let program = blocks::image_attention_steps(prefix);
        let s = self.lemma_trace(weights, inputs, program, before, after);
        assert(self.goes(weights, inputs, program[0], s[0], s[1]));
        let rest = before.stack.drop_last();
        let x = before.stack.last();
        assert(before.stack =~= rest.push(x));
        assert(program[0] == OpData::Duplicate);
        self.lemma_duplicate(weights, inputs, s[0], s[1], rest, x);
        assert(program[1] == OpData::Apply(
            LayerData::GroupNorm { prefix: prefix + ".group_norm"@, epsilon: 0x3586_37bd },
        ));
        let normed = self.lemma_apply(
            weights,
            inputs,
            LayerData::GroupNorm { prefix: prefix + ".group_norm"@, epsilon: 0x3586_37bd },
            s[1],
            s[2],
            rest.push(x),
            x,
        );
        assert(program[2] == OpData::Apply(LayerData::Sequence));
        let positions = self.lemma_apply(
            weights,
            inputs,
            LayerData::Sequence,
            s[2],
            s[3],
            rest.push(x),
            normed,
        );
        assert(program[3] == OpData::Duplicate);
        self.lemma_duplicate(weights, inputs, s[3], s[4], rest.push(x), positions);
        assert(program[4] == OpData::Apply(LayerData::Linear { prefix: prefix + ".to_q"@ }));
        let query = self.lemma_apply(
            weights,
            inputs,
            LayerData::Linear { prefix: prefix + ".to_q"@ },
            s[4],
            s[5],
            rest.push(x).push(positions),
            positions,
        );
        assert(program[5] == OpData::Swap);
        self.lemma_swap(weights, inputs, s[5], s[6], rest.push(x), positions, query);
        assert(program[6] == OpData::Duplicate);
        self.lemma_duplicate(weights, inputs, s[6], s[7], rest.push(x).push(query), positions);
        assert(program[7] == OpData::Apply(LayerData::Linear { prefix: prefix + ".to_k"@ }));
        let key = self.lemma_apply(
            weights,
            inputs,
            LayerData::Linear { prefix: prefix + ".to_k"@ },
            s[7],
            s[8],
            rest.push(x).push(query).push(positions),
            positions,
        );
        assert(program[8] == OpData::Swap);
        self.lemma_swap(weights, inputs, s[8], s[9], rest.push(x).push(query), positions, key);
        assert(program[9] == OpData::Apply(LayerData::Linear { prefix: prefix + ".to_v"@ }));
        let value = self.lemma_apply(
            weights,
            inputs,
            LayerData::Linear { prefix: prefix + ".to_v"@ },
            s[9],
            s[10],
            rest.push(x).push(query).push(key),
            positions,
        );
        assert(program[10] == OpData::Rotate);
        self.lemma_rotate(weights, inputs, s[10], s[11], rest.push(x), query, key, value);
        assert(program[11] == OpData::OneHead);
        self.lemma_one_head_step(weights, inputs, s[11], s[12], rest, x, key, value, query);
        let query_head = single_head(x, query);
        assert(program[12] == OpData::Rotate);
        self.lemma_rotate(weights, inputs, s[12], s[13], rest.push(x), key, value, query_head);
        assert(program[13] == OpData::OneHead);
        self.lemma_one_head_step(weights, inputs, s[13], s[14], rest, x, value, query_head, key);
        let key_head = single_head(x, key);
        assert(program[14] == OpData::Rotate);
        self.lemma_rotate(weights, inputs, s[14], s[15], rest.push(x), value, query_head, key_head);
        assert(program[15] == OpData::OneHead);
        self.lemma_one_head_step(
            weights,
            inputs,
            s[15],
            s[16],
            rest,
            x,
            query_head,
            key_head,
            value,
        );
        let value_head = single_head(x, value);
        assert(program[16] == OpData::Attention { causal: false });
        let read = self.lemma_attention(
            weights,
            inputs,
            false,
            s[16],
            s[17],
            rest.push(x),
            query_head,
            key_head,
            value_head,
        );
        assert(program[17] == OpData::Apply(LayerData::Merge));
        let merged = self.lemma_apply(
            weights,
            inputs,
            LayerData::Merge,
            s[17],
            s[18],
            rest.push(x),
            read,
        );
        assert(program[18] == OpData::Apply(LayerData::Linear { prefix: prefix + ".to_out.0"@ }));
        let projected = self.lemma_apply(
            weights,
            inputs,
            LayerData::Linear { prefix: prefix + ".to_out.0"@ },
            s[18],
            s[19],
            rest.push(x),
            merged,
        );
        assert(program[19] == OpData::Image);
        self.lemma_image(weights, inputs, s[19], s[20], rest, x, projected);
        let imaged = reshape::imaged(projected, x.dims[2], x.dims[3]);
        assert(program[20] == OpData::Add);
        let out = self.lemma_add(weights, inputs, s[20], s[21], rest, x, imaged);
        let m = ImageMixing {
            normed,
            positions,
            query,
            key,
            value,
            read,
            merged,
            projected,
        };
        assert(self.image_mixes_by(weights, prefix, x, m, out));
        out
    }

    /// A residual block with a time embedding.
    pub proof fn a_timed_block_adds_to_its_shortcut(
        self,
        weights: Weights,
        inputs: Inputs<T>,
        prefix: Seq<char>,
        before: Memory<T>,
        after: Memory<T>,
    ) -> (out: Array<T>)
        requires
            self.runs(weights, inputs, blocks::timed_resnet_steps(prefix), before, after),
            before.stack.len() >= 1,
        ensures
            inputs.time is Some,
            exists|m: Refining<T>| #[trigger]
                self.refines_by(
                    weights,
                    prefix,
                    0x3727_c5ac,
                    before.stack.last(),
                    inputs.time,
                    m,
                    out,
                ),
            after.stack == before.stack.drop_last().push(out),
            after.skips == before.skips,
    {
        let program = blocks::timed_resnet_steps(prefix);
        let s = self.lemma_trace(weights, inputs, program, before, after);
        assert(self.goes(weights, inputs, program[0], s[0], s[1]));
        let rest = before.stack.drop_last();
        let x = before.stack.last();
        assert(before.stack =~= rest.push(x));
        let time = inputs.time->0;
        assert(program[0] == OpData::Time);
        assert(s[1].stack =~= rest.push(x).push(time));
        assert(program[1] == OpData::Apply(LayerData::Silu));
        let time_active = self.lemma_apply(
            weights,
            inputs,
            LayerData::Silu,
            s[1],
            s[2],
            rest.push(x),
            time,
        );
        assert(program[2] == OpData::Apply(
            LayerData::Linear { prefix: prefix + ".time_emb_proj"@ },
        ));
        let time_bias = self.lemma_apply(
            weights,
            inputs,
            LayerData::Linear { prefix: prefix + ".time_emb_proj"@ },
            s[2],
            s[3],
            rest.push(x),
            time_active,
        );
        assert(program[3] == OpData::Swap);
        self.lemma_swap(weights, inputs, s[3], s[4], rest, x, time_bias);
        assert(program[4] == OpData::Duplicate);
        self.lemma_duplicate(weights, inputs, s[4], s[5], rest.push(time_bias), x);
        assert(program[5] == OpData::Apply(
            LayerData::Shortcut { prefix: prefix + ".conv_shortcut"@ },
        ));
        let shortcut = self.lemma_apply(
            weights,
            inputs,
            LayerData::Shortcut { prefix: prefix + ".conv_shortcut"@ },
            s[5],
            s[6],
            rest.push(time_bias).push(x),
            x,
        );
        assert(program[6] == OpData::Swap);
        self.lemma_swap(weights, inputs, s[6], s[7], rest.push(time_bias), x, shortcut);
        assert(program[7] == OpData::Apply(
            LayerData::GroupNorm { prefix: prefix + ".norm1"@, epsilon: 0x3727_c5ac },
        ));
        let normed = self.lemma_apply(
            weights,
            inputs,
            LayerData::GroupNorm { prefix: prefix + ".norm1"@, epsilon: 0x3727_c5ac },
            s[7],
            s[8],
            rest.push(time_bias).push(shortcut),
            x,
        );
        assert(program[8] == OpData::Apply(LayerData::Silu));
        let active = self.lemma_apply(
            weights,
            inputs,
            LayerData::Silu,
            s[8],
            s[9],
            rest.push(time_bias).push(shortcut),
            normed,
        );
        assert(program[9] == OpData::Apply(
            LayerData::Conv { prefix: prefix + ".conv1"@, stride: 1, padding: 1 },
        ));
        let first = self.lemma_apply(
            weights,
            inputs,
            LayerData::Conv { prefix: prefix + ".conv1"@, stride: 1, padding: 1 },
            s[9],
            s[10],
            rest.push(time_bias).push(shortcut),
            active,
        );
        assert(program[10] == OpData::Rotate);
        self.lemma_rotate(weights, inputs, s[10], s[11], rest, time_bias, shortcut, first);
        assert(program[11] == OpData::Bias);
        let timed = self.lemma_bias(
            weights,
            inputs,
            s[11],
            s[12],
            rest.push(shortcut),
            first,
            time_bias,
        );
        assert(program[12] == OpData::Apply(
            LayerData::GroupNorm { prefix: prefix + ".norm2"@, epsilon: 0x3727_c5ac },
        ));
        let normed2 = self.lemma_apply(
            weights,
            inputs,
            LayerData::GroupNorm { prefix: prefix + ".norm2"@, epsilon: 0x3727_c5ac },
            s[12],
            s[13],
            rest.push(shortcut),
            timed,
        );
        assert(program[13] == OpData::Apply(LayerData::Silu));
        let active2 = self.lemma_apply(
            weights,
            inputs,
            LayerData::Silu,
            s[13],
            s[14],
            rest.push(shortcut),
            normed2,
        );
        assert(program[14] == OpData::Apply(
            LayerData::Conv { prefix: prefix + ".conv2"@, stride: 1, padding: 1 },
        ));
        let second = self.lemma_apply(
            weights,
            inputs,
            LayerData::Conv { prefix: prefix + ".conv2"@, stride: 1, padding: 1 },
            s[14],
            s[15],
            rest.push(shortcut),
            active2,
        );
        assert(program[15] == OpData::Add);
        let out = self.lemma_add(weights, inputs, s[15], s[16], rest, shortcut, second);
        let m = Refining {
            shortcut,
            normed,
            active,
            first,
            time_active: time_active,
            time_bias: time_bias,
            timed: timed,
            normed2,
            active2,
            second,
        };
        assert(self.refines_by(weights, prefix, 0x3727_c5ac, x, inputs.time, m, out));
        out
    }

    /// A residual block.
    pub proof fn a_block_adds_to_its_shortcut(
        self,
        weights: Weights,
        inputs: Inputs<T>,
        prefix: Seq<char>,
        epsilon: u32,
        before: Memory<T>,
        after: Memory<T>,
    ) -> (out: Array<T>)
        requires
            self.runs(weights, inputs, blocks::resnet_steps(prefix, epsilon), before, after),
        ensures
            before.stack.len() >= 1,
            exists|m: Refining<T>| #[trigger]
                self.refines_by(
                    weights,
                    prefix,
                    epsilon,
                    before.stack.last(),
                    None,
                    m,
                    out,
                ),
            after.stack == before.stack.drop_last().push(out),
            after.skips == before.skips,
    {
        let program = blocks::resnet_steps(prefix, epsilon);
        let s = self.lemma_trace(weights, inputs, program, before, after);
        assert(self.goes(weights, inputs, program[0], s[0], s[1]));
        let rest = before.stack.drop_last();
        let x = before.stack.last();
        assert(before.stack =~= rest.push(x));
        assert(program[0] == OpData::Duplicate);
        self.lemma_duplicate(weights, inputs, s[0], s[1], rest, x);
        assert(program[1] == OpData::Apply(
            LayerData::Shortcut { prefix: prefix + ".conv_shortcut"@ },
        ));
        let shortcut = self.lemma_apply(
            weights,
            inputs,
            LayerData::Shortcut { prefix: prefix + ".conv_shortcut"@ },
            s[1],
            s[2],
            rest.push(x),
            x,
        );
        assert(program[2] == OpData::Swap);
        self.lemma_swap(weights, inputs, s[2], s[3], rest, x, shortcut);
        assert(program[3] == OpData::Apply(
            LayerData::GroupNorm { prefix: prefix + ".norm1"@, epsilon: epsilon },
        ));
        let normed = self.lemma_apply(
            weights,
            inputs,
            LayerData::GroupNorm { prefix: prefix + ".norm1"@, epsilon: epsilon },
            s[3],
            s[4],
            rest.push(shortcut),
            x,
        );
        assert(program[4] == OpData::Apply(LayerData::Silu));
        let active = self.lemma_apply(
            weights,
            inputs,
            LayerData::Silu,
            s[4],
            s[5],
            rest.push(shortcut),
            normed,
        );
        assert(program[5] == OpData::Apply(
            LayerData::Conv { prefix: prefix + ".conv1"@, stride: 1, padding: 1 },
        ));
        let first = self.lemma_apply(
            weights,
            inputs,
            LayerData::Conv { prefix: prefix + ".conv1"@, stride: 1, padding: 1 },
            s[5],
            s[6],
            rest.push(shortcut),
            active,
        );
        assert(program[6] == OpData::Apply(
            LayerData::GroupNorm { prefix: prefix + ".norm2"@, epsilon: epsilon },
        ));
        let normed2 = self.lemma_apply(
            weights,
            inputs,
            LayerData::GroupNorm { prefix: prefix + ".norm2"@, epsilon: epsilon },
            s[6],
            s[7],
            rest.push(shortcut),
            first,
        );
        assert(program[7] == OpData::Apply(LayerData::Silu));
        let active2 = self.lemma_apply(
            weights,
            inputs,
            LayerData::Silu,
            s[7],
            s[8],
            rest.push(shortcut),
            normed2,
        );
        assert(program[8] == OpData::Apply(
            LayerData::Conv { prefix: prefix + ".conv2"@, stride: 1, padding: 1 },
        ));
        let second = self.lemma_apply(
            weights,
            inputs,
            LayerData::Conv { prefix: prefix + ".conv2"@, stride: 1, padding: 1 },
            s[8],
            s[9],
            rest.push(shortcut),
            active2,
        );
        assert(program[9] == OpData::Add);
        let out = self.lemma_add(weights, inputs, s[9], s[10], rest, shortcut, second);
        let m = Refining {
            shortcut,
            normed,
            active,
            first,
            time_active: first,
            time_bias: first,
            timed: first,
            normed2,
            active2,
            second,
        };
        assert(self.refines_by(weights, prefix, epsilon, x, None::<Array<T>>, m, out));
        out
    }

    /// The network of a text layer with the exact activation: two projections of the normalized
    /// tokens with the activation between them, added to the tokens.
    pub proof fn an_exact_text_layer_adds_its_network(
        self,
        weights: Weights,
        inputs: Inputs<T>,
        prefix: Seq<char>,
        before: Memory<T>,
        after: Memory<T>,
    ) -> (out: Array<T>)
        requires
            self.runs(weights, inputs, blocks::text_exact_steps(prefix), before, after),
        ensures
            before.stack.len() >= 1,
            exists|normed: Array<T>, wide: Array<T>, active: Array<T>, narrow: Array<T>|
                {
                    &&& #[trigger] self.applies(
                        weights,
                        LayerData::TextNorm {
                            prefix: prefix + ".layer_norm2"@,
                            epsilon: 0x3727_c5ac,
                        },
                        before.stack.last(),
                        normed,
                    )
                    &&& #[trigger] self.applies(
                        weights,
                        LayerData::TextLinear { prefix: prefix + ".mlp.fc1"@ },
                        normed,
                        wide,
                    )
                    &&& #[trigger] self.applies(weights, LayerData::Gelu, wide, active)
                    &&& #[trigger] self.applies(
                        weights,
                        LayerData::TextLinear { prefix: prefix + ".mlp.fc2"@ },
                        active,
                        narrow,
                    )
                    &&& #[trigger] self.adds(before.stack.last(), narrow, out)
                },
            after.stack == before.stack.drop_last().push(out),
            after.skips == before.skips,
    {
        let program = blocks::text_exact_steps(prefix);
        let s = self.lemma_trace(weights, inputs, program, before, after);
        assert(self.goes(weights, inputs, program[0], s[0], s[1]));
        let rest = before.stack.drop_last();
        let x = before.stack.last();
        assert(before.stack =~= rest.push(x));
        assert(program[0] == OpData::Duplicate);
        self.lemma_duplicate(weights, inputs, s[0], s[1], rest, x);
        assert(program[1] == OpData::Apply(
            LayerData::TextNorm { prefix: prefix + ".layer_norm2"@, epsilon: 0x3727_c5ac },
        ));
        let normed = self.lemma_apply(
            weights,
            inputs,
            LayerData::TextNorm { prefix: prefix + ".layer_norm2"@, epsilon: 0x3727_c5ac },
            s[1],
            s[2],
            rest.push(x),
            x,
        );
        assert(program[2] == OpData::Apply(LayerData::TextLinear { prefix: prefix + ".mlp.fc1"@ }));
        let wide = self.lemma_apply(
            weights,
            inputs,
            LayerData::TextLinear { prefix: prefix + ".mlp.fc1"@ },
            s[2],
            s[3],
            rest.push(x),
            normed,
        );
        assert(program[3] == OpData::Apply(LayerData::Gelu));
        let active = self.lemma_apply(
            weights,
            inputs,
            LayerData::Gelu,
            s[3],
            s[4],
            rest.push(x),
            wide,
        );
        assert(program[4] == OpData::Apply(LayerData::TextLinear { prefix: prefix + ".mlp.fc2"@ }));
        let narrow = self.lemma_apply(
            weights,
            inputs,
            LayerData::TextLinear { prefix: prefix + ".mlp.fc2"@ },
            s[4],
            s[5],
            rest.push(x),
            active,
        );
        assert(program[5] == OpData::Add);
        let out = self.lemma_add(weights, inputs, s[5], s[6], rest, x, narrow);
        out
    }

    /// The network of a text layer with the quick activation: two projections of the normalized
    /// tokens with the activation between them, added to the tokens.
    pub proof fn a_quick_text_layer_adds_its_network(
        self,
        weights: Weights,
        inputs: Inputs<T>,
        prefix: Seq<char>,
        before: Memory<T>,
        after: Memory<T>,
    ) -> (out: Array<T>)
        requires
            self.runs(weights, inputs, blocks::text_quick_steps(prefix), before, after),
        ensures
            before.stack.len() >= 1,
            exists|normed: Array<T>, wide: Array<T>, active: Array<T>, narrow: Array<T>|
                {
                    &&& #[trigger] self.applies(
                        weights,
                        LayerData::TextNorm {
                            prefix: prefix + ".layer_norm2"@,
                            epsilon: 0x3727_c5ac,
                        },
                        before.stack.last(),
                        normed,
                    )
                    &&& #[trigger] self.applies(
                        weights,
                        LayerData::TextLinear { prefix: prefix + ".mlp.fc1"@ },
                        normed,
                        wide,
                    )
                    &&& #[trigger] self.applies(weights, LayerData::QuickGelu, wide, active)
                    &&& #[trigger] self.applies(
                        weights,
                        LayerData::TextLinear { prefix: prefix + ".mlp.fc2"@ },
                        active,
                        narrow,
                    )
                    &&& #[trigger] self.adds(before.stack.last(), narrow, out)
                },
            after.stack == before.stack.drop_last().push(out),
            after.skips == before.skips,
    {
        let program = blocks::text_quick_steps(prefix);
        let s = self.lemma_trace(weights, inputs, program, before, after);
        assert(self.goes(weights, inputs, program[0], s[0], s[1]));
        let rest = before.stack.drop_last();
        let x = before.stack.last();
        assert(before.stack =~= rest.push(x));
        assert(program[0] == OpData::Duplicate);
        self.lemma_duplicate(weights, inputs, s[0], s[1], rest, x);
        assert(program[1] == OpData::Apply(
            LayerData::TextNorm { prefix: prefix + ".layer_norm2"@, epsilon: 0x3727_c5ac },
        ));
        let normed = self.lemma_apply(
            weights,
            inputs,
            LayerData::TextNorm { prefix: prefix + ".layer_norm2"@, epsilon: 0x3727_c5ac },
            s[1],
            s[2],
            rest.push(x),
            x,
        );
        assert(program[2] == OpData::Apply(LayerData::TextLinear { prefix: prefix + ".mlp.fc1"@ }));
        let wide = self.lemma_apply(
            weights,
            inputs,
            LayerData::TextLinear { prefix: prefix + ".mlp.fc1"@ },
            s[2],
            s[3],
            rest.push(x),
            normed,
        );
        assert(program[3] == OpData::Apply(LayerData::QuickGelu));
        let active = self.lemma_apply(
            weights,
            inputs,
            LayerData::QuickGelu,
            s[3],
            s[4],
            rest.push(x),
            wide,
        );
        assert(program[4] == OpData::Apply(LayerData::TextLinear { prefix: prefix + ".mlp.fc2"@ }));
        let narrow = self.lemma_apply(
            weights,
            inputs,
            LayerData::TextLinear { prefix: prefix + ".mlp.fc2"@ },
            s[4],
            s[5],
            rest.push(x),
            active,
        );
        assert(program[5] == OpData::Add);
        let out = self.lemma_add(weights, inputs, s[5], s[6], rest, x, narrow);
        out
    }

    /// The steps before self-attention.
    proof fn lemma_before_self(
        self,
        weights: Weights,
        inputs: Inputs<T>,
        prefix: Seq<char>,
        before: Memory<T>,
        after: Memory<T>,
    ) -> (out: Array<T>)
        requires
            self.runs(weights, inputs, blocks::before_self_steps(prefix), before, after),
        ensures
            before.stack.len() >= 1,
            self.applies(
                weights,
                LayerData::LayerNorm { prefix: prefix + ".norm1"@, epsilon: 0x3727_c5ac },
                before.stack.last(),
                out,
            ),
            after.stack == before.stack.push(out),
            after.skips == before.skips,
    {
        let program = blocks::before_self_steps(prefix);
        let s = self.lemma_trace(weights, inputs, program, before, after);
        assert(self.goes(weights, inputs, program[0], s[0], s[1]));
        let rest = before.stack.drop_last();
        let x = before.stack.last();
        assert(before.stack =~= rest.push(x));
        assert(program[0] == OpData::Duplicate);
        self.lemma_duplicate(weights, inputs, s[0], s[1], rest, x);
        assert(program[1] == OpData::Apply(
            LayerData::LayerNorm { prefix: prefix + ".norm1"@, epsilon: 0x3727_c5ac },
        ));
        let out = self.lemma_apply(
            weights,
            inputs,
            LayerData::LayerNorm { prefix: prefix + ".norm1"@, epsilon: 0x3727_c5ac },
            s[1],
            s[2],
            rest.push(x),
            x,
        );
        out
    }

    /// The steps before cross-attention.
    proof fn lemma_before_cross(
        self,
        weights: Weights,
        inputs: Inputs<T>,
        prefix: Seq<char>,
        before: Memory<T>,
        after: Memory<T>,
    ) -> (out: (Array<T>, Array<T>))
        requires
            self.runs(weights, inputs, blocks::before_cross_steps(prefix), before, after),
        ensures
            before.stack.len() >= 2,
            self.adds(before.stack[before.stack.len() - 2], before.stack.last(), out.0),
            self.applies(
                weights,
                LayerData::LayerNorm { prefix: prefix + ".norm2"@, epsilon: 0x3727_c5ac },
                out.0,
                out.1,
            ),
            after.stack == before.stack.drop_last().drop_last().push(out.0).push(out.1),
            after.skips == before.skips,
    {
        let program = blocks::before_cross_steps(prefix);
        let s = self.lemma_trace(weights, inputs, program, before, after);
        assert(self.goes(weights, inputs, program[0], s[0], s[1]));
        let rest = before.stack.drop_last().drop_last();
        let base = before.stack[before.stack.len() - 2];
        let x = before.stack.last();
        assert(before.stack =~= rest.push(base).push(x));
        assert(program[0] == OpData::Add);
        let total = self.lemma_add(weights, inputs, s[0], s[1], rest, base, x);
        assert(program[1] == OpData::Duplicate);
        self.lemma_duplicate(weights, inputs, s[1], s[2], rest, total);
        assert(program[2] == OpData::Apply(
            LayerData::LayerNorm { prefix: prefix + ".norm2"@, epsilon: 0x3727_c5ac },
        ));
        let normed = self.lemma_apply(
            weights,
            inputs,
            LayerData::LayerNorm { prefix: prefix + ".norm2"@, epsilon: 0x3727_c5ac },
            s[2],
            s[3],
            rest.push(total),
            total,
        );
        (total, normed)
    }

    /// The steps of the feed-forward network.
    proof fn lemma_feed_forward(
        self,
        weights: Weights,
        inputs: Inputs<T>,
        prefix: Seq<char>,
        before: Memory<T>,
        after: Memory<T>,
    ) -> (r: (Transforming<T>, Array<T>))
        requires
            self.runs(weights, inputs, blocks::feed_forward_steps(prefix), before, after),
        ensures
            before.stack.len() >= 2,
            self.adds(before.stack[before.stack.len() - 2], before.stack.last(), r.0.sum2),
            self.applies(
                weights,
                LayerData::LayerNorm { prefix: prefix + ".norm3"@, epsilon: 0x3727_c5ac },
                r.0.sum2,
                r.0.normed3,
            ),
            self.applies(
                weights,
                LayerData::Linear { prefix: prefix + ".ff.net.0.proj"@ },
                r.0.normed3,
                r.0.wide,
            ),
            self.applies(weights, LayerData::Geglu, r.0.wide, r.0.gated),
            self.applies(
                weights,
                LayerData::Linear { prefix: prefix + ".ff.net.2"@ },
                r.0.gated,
                r.0.narrow,
            ),
            self.adds(r.0.sum2, r.0.narrow, r.1),
            after.stack == before.stack.drop_last().drop_last().push(r.1),
            after.skips == before.skips,
    {
        let program = blocks::feed_forward_steps(prefix);
        let s = self.lemma_trace(weights, inputs, program, before, after);
        assert(self.goes(weights, inputs, program[0], s[0], s[1]));
        let rest = before.stack.drop_last().drop_last();
        let base = before.stack[before.stack.len() - 2];
        let x = before.stack.last();
        assert(before.stack =~= rest.push(base).push(x));
        assert(program[0] == OpData::Add);
        let sum2 = self.lemma_add(weights, inputs, s[0], s[1], rest, base, x);
        assert(program[1] == OpData::Duplicate);
        self.lemma_duplicate(weights, inputs, s[1], s[2], rest, sum2);
        assert(program[2] == OpData::Apply(
            LayerData::LayerNorm { prefix: prefix + ".norm3"@, epsilon: 0x3727_c5ac },
        ));
        let normed3 = self.lemma_apply(
            weights,
            inputs,
            LayerData::LayerNorm { prefix: prefix + ".norm3"@, epsilon: 0x3727_c5ac },
            s[2],
            s[3],
            rest.push(sum2),
            sum2,
        );
        assert(program[3] == OpData::Apply(
            LayerData::Linear { prefix: prefix + ".ff.net.0.proj"@ },
        ));
        let wide = self.lemma_apply(
            weights,
            inputs,
            LayerData::Linear { prefix: prefix + ".ff.net.0.proj"@ },
            s[3],
            s[4],
            rest.push(sum2),
            normed3,
        );
        assert(program[4] == OpData::Apply(LayerData::Geglu));
        let gated = self.lemma_apply(
            weights,
            inputs,
            LayerData::Geglu,
            s[4],
            s[5],
            rest.push(sum2),
            wide,
        );
        assert(program[5] == OpData::Apply(LayerData::Linear { prefix: prefix + ".ff.net.2"@ }));
        let narrow = self.lemma_apply(
            weights,
            inputs,
            LayerData::Linear { prefix: prefix + ".ff.net.2"@ },
            s[5],
            s[6],
            rest.push(sum2),
            gated,
        );
        assert(program[6] == OpData::Add);
        let out = self.lemma_add(weights, inputs, s[6], s[7], rest, sum2, narrow);
        let m = Transforming {
            normed1: x,
            mixed1: x,
            sum1: x,
            normed2: x,
            mixed2: x,
            sum2,
            normed3,
            wide,
            gated,
            narrow,
        };
        (m, out)
    }

    /// A transformer block attends to itself, then to the context, and then thinks for itself.
    pub proof fn a_transformer_block_adds_three_times(
        self,
        weights: Weights,
        inputs: Inputs<T>,
        prefix: Seq<char>,
        heads: usize,
        before: Memory<T>,
        after: Memory<T>,
    ) -> (out: Array<T>)
        requires
            self.runs(weights, inputs, blocks::block_steps(prefix, heads), before, after),
        ensures
            before.stack.len() >= 1,
            inputs.context is Some,
            self.transforms(
                weights,
                prefix,
                heads,
                before.stack.last(),
                inputs.context->0,
                out,
            ),
            after.stack == before.stack.drop_last().push(out),
            after.skips == before.skips,
    {
        let p1 = blocks::before_self_steps(prefix);
        let p2 = blocks::self_attention_steps(prefix + ".attn1"@, heads);
        let p3 = blocks::before_cross_steps(prefix);
        let p4 = blocks::cross_attention_steps(prefix + ".attn2"@, heads);
        let p5 = blocks::feed_forward_steps(prefix);
        let s4 = self.lemma_runs_split(weights, inputs, p1 + p2 + p3 + p4, p5, before, after);
        let s3 = self.lemma_runs_split(weights, inputs, p1 + p2 + p3, p4, before, s4);
        let s2 = self.lemma_runs_split(weights, inputs, p1 + p2, p3, before, s3);
        let s1 = self.lemma_runs_split(weights, inputs, p1, p2, before, s2);
        let normed1 = self.lemma_before_self(weights, inputs, prefix, before, s1);
        let rest = before.stack.drop_last();
        let x = before.stack.last();
        let mixed1 = self.self_attention_reads_itself(
            weights,
            inputs,
            prefix + ".attn1"@,
            heads,
            s1,
            s2,
        );
        assert(s2.stack =~= rest.push(x).push(mixed1));
        let (sum1, normed2) = self.lemma_before_cross(weights, inputs, prefix, s2, s3);
        assert(s3.stack =~= rest.push(sum1).push(normed2));
        let mixed2 = self.cross_attention_reads_the_context(
            weights,
            inputs,
            prefix + ".attn2"@,
            heads,
            s3,
            s4,
        );
        assert(s4.stack =~= rest.push(sum1).push(mixed2));
        let (r, out) = self.lemma_feed_forward(weights, inputs, prefix, s4, after);
        assert(after.stack =~= rest.push(out));
        let m = Transforming { normed1, mixed1, sum1, normed2, mixed2, ..r };
        assert(self.transforms_by(weights, prefix, heads, x, inputs.context->0, m, out));
        out
    }

    /// The transformer blocks of a chain work one after the other: each takes what the one before
    /// it gives.
    pub proof fn blocks_work_one_after_the_other(
        self,
        weights: Weights,
        inputs: Inputs<T>,
        prefix: Seq<char>,
        heads: usize,
        depth: int,
        before: Memory<T>,
        after: Memory<T>,
    ) -> (chain: Seq<Array<T>>)
        requires
            0 < depth,
            self.runs(weights, inputs, blocks::blocks_steps(prefix, heads, depth), before, after),
        ensures
            before.stack.len() >= 1,
            inputs.context is Some,
            chain.len() == depth + 1,
            chain[0] == before.stack.last(),
            forall|i: int|
                0 <= i < depth ==> self.transforms(
                    weights,
                    prefix + ".transformer_blocks."@ + text::decimal(i as nat),
                    heads,
                    #[trigger] chain[i],
                    inputs.context->0,
                    chain[i + 1],
                ),
            after.stack == before.stack.drop_last().push(chain[depth]),
            after.skips == before.skips,
        decreases depth,
    {
        let name = blocks::block_name(prefix, depth - 1);
        let middle = self.lemma_runs_split(
            weights,
            inputs,
            blocks::blocks_steps(prefix, heads, depth - 1),
            blocks::block_steps(name, heads),
            before,
            after,
        );
        if depth == 1 {
            assert(blocks::blocks_steps(prefix, heads, 0) =~= Seq::empty());
            let out = self.a_transformer_block_adds_three_times(
                weights,
                inputs,
                name,
                heads,
                middle,
                after,
            );
            seq![before.stack.last(), out]
        } else {
            let chain = self.blocks_work_one_after_the_other(
                weights,
                inputs,
                prefix,
                heads,
                depth - 1,
                before,
                middle,
            );
            let out = self.a_transformer_block_adds_three_times(
                weights,
                inputs,
                name,
                heads,
                middle,
                after,
            );
            let longer = chain.push(out);
            assert(middle.stack.drop_last() =~= before.stack.drop_last());
            assert forall|i: int| 0 <= i < depth implies self.transforms(
                weights,
                prefix + ".transformer_blocks."@ + text::decimal(i as nat),
                heads,
                #[trigger] longer[i],
                inputs.context->0,
                longer[i + 1],
            ) by {
                if i < depth - 1 {
                    assert(longer[i] == chain[i]);
                }
            }
            longer
        }
    }

    /// The entry of a transformer with convolutions.
    proof fn lemma_conv_entry(
        self,
        weights: Weights,
        inputs: Inputs<T>,
        prefix: Seq<char>,
        before: Memory<T>,
        after: Memory<T>,
    ) -> (r: (Array<T>, Array<T>, Array<T>))
        requires
            self.runs(weights, inputs, blocks::conv_entry_steps(prefix), before, after),
        ensures
            before.stack.len() >= 1,
            self.applies(
                weights,
                LayerData::GroupNorm { prefix: prefix + ".norm"@, epsilon: 0x3586_37bd },
                before.stack.last(),
                r.0,
            ),
            self.applies(
                weights,
                LayerData::Conv { prefix: prefix + ".proj_in"@, stride: 1, padding: 0 },
                r.0,
                r.1,
            ),
            self.applies(
                weights,
                LayerData::Sequence,
                r.1,
                r.2,
            ),
            after.stack == before.stack.push(r.2),
            after.skips == before.skips,
    {
        let program = blocks::conv_entry_steps(prefix);
        let s = self.lemma_trace(weights, inputs, program, before, after);
        assert(self.goes(weights, inputs, program[0], s[0], s[1]));
        let rest = before.stack.drop_last();
        let x = before.stack.last();
        assert(before.stack =~= rest.push(x));
        assert(program[0] == OpData::Duplicate);
        self.lemma_duplicate(weights, inputs, s[0], s[1], rest, x);
        assert(program[1] == OpData::Apply(
            LayerData::GroupNorm { prefix: prefix + ".norm"@, epsilon: 0x3586_37bd },
        ));
        let normed = self.lemma_apply(
            weights,
            inputs,
            LayerData::GroupNorm { prefix: prefix + ".norm"@, epsilon: 0x3586_37bd },
            s[1],
            s[2],
            rest.push(x),
            x,
        );
        assert(program[2] == OpData::Apply(
            LayerData::Conv { prefix: prefix + ".proj_in"@, stride: 1, padding: 0 },
        ));
        let projected = self.lemma_apply(
            weights,
            inputs,
            LayerData::Conv { prefix: prefix + ".proj_in"@, stride: 1, padding: 0 },
            s[2],
            s[3],
            rest.push(x),
            normed,
        );
        assert(program[3] == OpData::Apply(LayerData::Sequence));
        let positions = self.lemma_apply(
            weights,
            inputs,
            LayerData::Sequence,
            s[3],
            s[4],
            rest.push(x),
            projected,
        );
        (normed, projected, positions)
    }

    /// The entry of a transformer with linear projections.
    proof fn lemma_linear_entry(
        self,
        weights: Weights,
        inputs: Inputs<T>,
        prefix: Seq<char>,
        before: Memory<T>,
        after: Memory<T>,
    ) -> (r: (Array<T>, Array<T>, Array<T>))
        requires
            self.runs(weights, inputs, blocks::linear_entry_steps(prefix), before, after),
        ensures
            before.stack.len() >= 1,
            self.applies(
                weights,
                LayerData::GroupNorm { prefix: prefix + ".norm"@, epsilon: 0x3586_37bd },
                before.stack.last(),
                r.0,
            ),
            self.applies(
                weights,
                LayerData::Sequence,
                r.0,
                r.1,
            ),
            self.applies(
                weights,
                LayerData::Linear { prefix: prefix + ".proj_in"@ },
                r.1,
                r.2,
            ),
            after.stack == before.stack.push(r.2),
            after.skips == before.skips,
    {
        let program = blocks::linear_entry_steps(prefix);
        let s = self.lemma_trace(weights, inputs, program, before, after);
        assert(self.goes(weights, inputs, program[0], s[0], s[1]));
        let rest = before.stack.drop_last();
        let x = before.stack.last();
        assert(before.stack =~= rest.push(x));
        assert(program[0] == OpData::Duplicate);
        self.lemma_duplicate(weights, inputs, s[0], s[1], rest, x);
        assert(program[1] == OpData::Apply(
            LayerData::GroupNorm { prefix: prefix + ".norm"@, epsilon: 0x3586_37bd },
        ));
        let normed = self.lemma_apply(
            weights,
            inputs,
            LayerData::GroupNorm { prefix: prefix + ".norm"@, epsilon: 0x3586_37bd },
            s[1],
            s[2],
            rest.push(x),
            x,
        );
        assert(program[2] == OpData::Apply(LayerData::Sequence));
        let positions = self.lemma_apply(
            weights,
            inputs,
            LayerData::Sequence,
            s[2],
            s[3],
            rest.push(x),
            normed,
        );
        assert(program[3] == OpData::Apply(LayerData::Linear { prefix: prefix + ".proj_in"@ }));
        let projected = self.lemma_apply(
            weights,
            inputs,
            LayerData::Linear { prefix: prefix + ".proj_in"@ },
            s[3],
            s[4],
            rest.push(x),
            positions,
        );
        (normed, positions, projected)
    }

    /// The exit of a transformer with convolutions.
    proof fn lemma_conv_exit(
        self,
        weights: Weights,
        inputs: Inputs<T>,
        prefix: Seq<char>,
        before: Memory<T>,
        after: Memory<T>,
    ) -> (r: (Array<T>, Array<T>))
        requires
            self.runs(weights, inputs, blocks::conv_exit_steps(prefix), before, after),
        ensures
            before.stack.len() >= 2,
            self.applies(
                weights,
                LayerData::Conv { prefix: prefix + ".proj_out"@, stride: 1, padding: 0 },
                reshape::imaged(
                    before.stack.last(),
                    before.stack[before.stack.len() - 2].dims[2],
                    before.stack[before.stack.len() - 2].dims[3],
                ),
                r.0,
            ),
            self.adds(before.stack[before.stack.len() - 2], r.0, r.1),
            after.stack == before.stack.drop_last().drop_last().push(r.1),
            after.skips == before.skips,
    {
        let program = blocks::conv_exit_steps(prefix);
        let s = self.lemma_trace(weights, inputs, program, before, after);
        assert(self.goes(weights, inputs, program[0], s[0], s[1]));
        let rest = before.stack.drop_last().drop_last();
        let base = before.stack[before.stack.len() - 2];
        let x = before.stack.last();
        assert(before.stack =~= rest.push(base).push(x));
        assert(program[0] == OpData::Image);
        self.lemma_image(weights, inputs, s[0], s[1], rest, base, x);
        let image = reshape::imaged(x, base.dims[2], base.dims[3]);
        assert(program[1] == OpData::Apply(
            LayerData::Conv { prefix: prefix + ".proj_out"@, stride: 1, padding: 0 },
        ));
        let projected = self.lemma_apply(
            weights,
            inputs,
            LayerData::Conv { prefix: prefix + ".proj_out"@, stride: 1, padding: 0 },
            s[1],
            s[2],
            rest.push(base),
            image,
        );
        assert(program[2] == OpData::Add);
        let out = self.lemma_add(weights, inputs, s[2], s[3], rest, base, projected);
        (projected, out)
    }

    /// The exit of a transformer with linear projections.
    proof fn lemma_linear_exit(
        self,
        weights: Weights,
        inputs: Inputs<T>,
        prefix: Seq<char>,
        before: Memory<T>,
        after: Memory<T>,
    ) -> (r: (Array<T>, Array<T>))
        requires
            self.runs(weights, inputs, blocks::linear_exit_steps(prefix), before, after),
            before.stack.len() >= 2,
        ensures
            self.applies(
                weights,
                LayerData::Linear { prefix: prefix + ".proj_out"@ },
                before.stack.last(),
                r.0,
            ),
            self.adds(
                before.stack[before.stack.len() - 2],
                reshape::imaged(
                    r.0,
                    before.stack[before.stack.len() - 2].dims[2],
                    before.stack[before.stack.len() - 2].dims[3],
                ),
                r.1,
            ),
            after.stack == before.stack.drop_last().drop_last().push(r.1),
            after.skips == before.skips,
    {
        let program = blocks::linear_exit_steps(prefix);
        let s = self.lemma_trace(weights, inputs, program, before, after);
        assert(self.goes(weights, inputs, program[0], s[0], s[1]));
        let rest = before.stack.drop_last().drop_last();
        let base = before.stack[before.stack.len() - 2];
        let x = before.stack.last();
        assert(before.stack =~= rest.push(base).push(x));
        assert(program[0] == OpData::Apply(LayerData::Linear { prefix: prefix + ".proj_out"@ }));
        let projected = self.lemma_apply(
            weights,
            inputs,
            LayerData::Linear { prefix: prefix + ".proj_out"@ },
            s[0],
            s[1],
            rest.push(base),
            x,
        );
        assert(program[1] == OpData::Image);
        self.lemma_image(weights, inputs, s[1], s[2], rest, base, projected);
        let image = reshape::imaged(projected, base.dims[2], base.dims[3]);
        assert(program[2] == OpData::Add);
        let out = self.lemma_add(weights, inputs, s[2], s[3], rest, base, image);
        (projected, out)
    }

    /// `out` is the image `x` and, added to it, what a chain of transformer blocks makes of its
    /// normalized positions; projections stand at both ends, as convolutions of images or as
    /// linear projections of sequences.
    pub open spec fn converses_by(
        self,
        weights: Weights,
        prefix: Seq<char>,
        heads: usize,
        projected: bool,
        x: Array<T>,
        context: Array<T>,
        m: Conversing<T>,
        out: Array<T>,
    ) -> bool {
        let last = m.chain.last();
        &&& self.applies(
            weights,
            LayerData::GroupNorm { prefix: prefix + ".norm"@, epsilon: 0x3586_37bd },
            x,
            m.normed,
        )
        &&& if projected {
            &&& self.applies(weights, LayerData::Sequence, m.normed, m.entered)
            &&& self.applies(
                weights,
                LayerData::Linear { prefix: prefix + ".proj_in"@ },
                m.entered,
                m.chain[0],
            )
            &&& self.applies(
                weights,
                LayerData::Linear { prefix: prefix + ".proj_out"@ },
                last,
                m.left,
            )
            &&& self.adds(x, reshape::imaged(m.left, x.dims[2], x.dims[3]), out)
        } else {
            &&& self.applies(
                weights,
                LayerData::Conv { prefix: prefix + ".proj_in"@, stride: 1, padding: 0 },
                m.normed,
                m.entered,
            )
            &&& self.applies(weights, LayerData::Sequence, m.entered, m.chain[0])
            &&& self.applies(
                weights,
                LayerData::Conv { prefix: prefix + ".proj_out"@, stride: 1, padding: 0 },
                reshape::imaged(last, x.dims[2], x.dims[3]),
                m.left,
            )
            &&& self.adds(x, m.left, out)
        }
        &&& forall|i: int|
            0 <= i < m.chain.len() - 1 ==> self.transforms(
                weights,
                prefix + ".transformer_blocks."@ + text::decimal(i as nat),
                heads,
                #[trigger] m.chain[i],
                context,
                m.chain[i + 1],
            )
    }

    /// A transformer adds to an image what its blocks make of the positions.
    pub proof fn a_transformer_adds_what_its_blocks_make(
        self,
        weights: Weights,
        inputs: Inputs<T>,
        prefix: Seq<char>,
        heads: usize,
        depth: usize,
        projected: bool,
        before: Memory<T>,
        after: Memory<T>,
    ) -> (r: (Conversing<T>, Array<T>))
        requires
            0 < depth,
            self.runs(
                weights,
                inputs,
                blocks::transformer_steps(prefix, heads, depth, projected),
                before,
                after,
            ),
        ensures
            before.stack.len() >= 1,
            inputs.context is Some,
            r.0.chain.len() == depth + 1,
            self.converses_by(
                weights,
                prefix,
                heads,
                projected,
                before.stack.last(),
                inputs.context->0,
                r.0,
                r.1,
            ),
            after.stack == before.stack.drop_last().push(r.1),
            after.skips == before.skips,
    {
        let p1 = if projected {
            blocks::linear_entry_steps(prefix)
        } else {
            blocks::conv_entry_steps(prefix)
        };
        let p2 = blocks::blocks_steps(prefix, heads, depth as int);
        let p3 = if projected {
            blocks::linear_exit_steps(prefix)
        } else {
            blocks::conv_exit_steps(prefix)
        };
        let s2 = self.lemma_runs_split(weights, inputs, p1 + p2, p3, before, after);
        let s1 = self.lemma_runs_split(weights, inputs, p1, p2, before, s2);
        let entry = if projected {
            self.lemma_linear_entry(weights, inputs, prefix, before, s1)
        } else {
            self.lemma_conv_entry(weights, inputs, prefix, before, s1)
        };
        let rest = before.stack.drop_last();
        let x = before.stack.last();
        assert(before.stack =~= rest.push(x));
        let chain = self.blocks_work_one_after_the_other(
            weights,
            inputs,
            prefix,
            heads,
            depth as int,
            s1,
            s2,
        );
        assert(s2.stack =~= rest.push(x).push(chain.last()));
        assert(s2.stack.drop_last().drop_last() =~= rest);
        let exit = if projected {
            self.lemma_linear_exit(weights, inputs, prefix, s2, after)
        } else {
            self.lemma_conv_exit(weights, inputs, prefix, s2, after)
        };
        let m = Conversing { normed: entry.0, entered: entry.1, chain, left: exit.0 };
        (m, exit.1)
    }
}

/// The tensors within attention.
pub struct Mixing<T> {
    pub query: Array<T>,
    pub key: Array<T>,
    pub value: Array<T>,
    pub query_heads: Array<T>,
    pub key_heads: Array<T>,
    pub value_heads: Array<T>,
    pub read: Array<T>,
    pub merged: Array<T>,
}

/// The tensors within the attention of a text layer.
pub struct TextMixing<T> {
    pub normed: Array<T>,
    pub query: Array<T>,
    pub key: Array<T>,
    pub value: Array<T>,
    pub query_heads: Array<T>,
    pub key_heads: Array<T>,
    pub value_heads: Array<T>,
    pub read: Array<T>,
    pub merged: Array<T>,
    pub projected: Array<T>,
}

/// The tensors within the attention of an image.
pub struct ImageMixing<T> {
    pub normed: Array<T>,
    pub positions: Array<T>,
    pub query: Array<T>,
    pub key: Array<T>,
    pub value: Array<T>,
    pub read: Array<T>,
    pub merged: Array<T>,
    pub projected: Array<T>,
}

/// The tensors within a residual block.
pub struct Refining<T> {
    pub shortcut: Array<T>,
    pub normed: Array<T>,
    pub active: Array<T>,
    pub first: Array<T>,
    pub time_active: Array<T>,
    pub time_bias: Array<T>,
    pub timed: Array<T>,
    pub normed2: Array<T>,
    pub active2: Array<T>,
    pub second: Array<T>,
}

/// The tensors within a transformer block.
pub struct Transforming<T> {
    pub normed1: Array<T>,
    pub mixed1: Array<T>,
    pub sum1: Array<T>,
    pub normed2: Array<T>,
    pub mixed2: Array<T>,
    pub sum2: Array<T>,
    pub normed3: Array<T>,
    pub wide: Array<T>,
    pub gated: Array<T>,
    pub narrow: Array<T>,
}

/// The tensors within a transformer: `chain` holds what the blocks take and give.
pub struct Conversing<T> {
    pub normed: Array<T>,
    pub entered: Array<T>,
    pub chain: Seq<Array<T>>,
    pub left: Array<T>,
}

/// A sequence as a single head over the positions of an image.
pub open spec fn single_head<T>(image: Array<T>, sequence: Array<T>) -> Array<T> {
    Array {
        dims: seq![image.dims[0], 1, (image.dims[2] * image.dims[3]) as usize, image.dims[1]],
        data: sequence.data,
    }
}

} // verus!
