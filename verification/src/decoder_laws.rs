//! What the image decoder, the text encoder and the time embedding compute.

use vstd::prelude::*;
use crate::block_laws::{ImageMixing, Refining, TextMixing};
use crate::blocks;
use crate::graph::{Inputs, Memory, OpData};
use crate::layers::{Kernels, LayerData, Weights};
use crate::layout;
use crate::reshape::Array;
use crate::safetensors::Scalar;
use crate::sd_unet;
use crate::sd_vae;
use crate::sdxl_clip::ClipEncoderSpec;
use crate::text;
use crate::text_encoder;

verus! {

/// The name of a residual block of the decoder.
pub open spec fn resnet_name(block: int, index: int) -> Seq<char> {
    "decoder.up_blocks."@ + text::decimal(block as nat) + ".resnets."@ + text::decimal(
        index as nat,
    )
}

impl<
    T: Copy,
    S: Copy,
    M: Fn(T, T, T) -> T + Copy,
    P: Fn(T, T) -> T + Copy,
    G: Fn(T, T) -> T + Copy,
    L: Fn(T) -> T + Copy,
    E: Fn(T) -> T + Copy,
    Q: Fn(T) -> T + Copy,
    A: Fn(&[T], u32) -> S + Copy,
    B: Fn(T, S, T, T) -> T + Copy,
    C: Fn(T, usize) -> T + Copy,
    H: Fn(Vec<T>) -> Vec<T> + Copy,
    N: Fn(Scalar) -> T + Copy,
> Kernels<T, M, P, G, L, E, Q, A, B, C, H, N> {
    /// `out` is what a residual block of the decoder makes of `x`.
    #[verifier::opaque]
    pub open spec fn resolves(
        self,
        weights: Weights,
        prefix: Seq<char>,
        x: Array<T>,
        out: Array<T>,
    ) -> bool {
        exists|m: Refining<T>| #[trigger]
            self.refines_by(weights, prefix, 0x3586_37bd, x, None, m, out)
    }

    /// `out` is what the attention of the decoder makes of `x`.
    #[verifier::opaque]
    pub open spec fn looks_around(
        self,
        weights: Weights,
        prefix: Seq<char>,
        x: Array<T>,
        out: Array<T>,
    ) -> bool {
        exists|m: ImageMixing<T>| #[trigger] self.image_mixes_by(weights, prefix, x, m, out)
    }

    /// `out` is what a resolution of the decoder makes of `x`: three residual blocks and, but for
    /// the last, the way to twice the height and width.
    #[verifier::opaque]
    pub open spec fn enlarges(
        self,
        weights: Weights,
        block: int,
        x: Array<T>,
        out: Array<T>,
    ) -> bool {
        exists|a: Array<T>, b: Array<T>, c: Array<T>|
            {
                &&& #[trigger] self.resolves(weights, resnet_name(block, 0), x, a)
                &&& #[trigger] self.resolves(weights, resnet_name(block, 1), a, b)
                &&& #[trigger] self.resolves(weights, resnet_name(block, 2), b, c)
                &&& if block < 3 {
                    exists|d: Array<T>|
                        {
                            &&& #[trigger] self.applies(weights, LayerData::Upsample, c, d)
                            &&& self.applies(
                                weights,
                                LayerData::Conv {
                                    prefix: "decoder.up_blocks."@ + text::decimal(block as nat)
                                        + ".upsamplers.0.conv"@,
                                    stride: 1,
                                    padding: 1,
                                },
                                d,
                                out,
                            )
                        }
                } else {
                    out == c
                }
            }
    }

    proof fn lemma_resolves(
        self,
        weights: Weights,
        inputs: Inputs<T>,
        prefix: Seq<char>,
        before: Memory<T>,
        after: Memory<T>,
    ) -> (out: Array<T>)
        requires
            self.runs(weights, inputs, blocks::resnet_steps(prefix, 0x3586_37bd), before, after),
        ensures
            before.stack.len() >= 1,
            self.resolves(weights, prefix, before.stack.last(), out),
            after.stack == before.stack.drop_last().push(out),
            after.skips == before.skips,
    {
        reveal(Kernels::resolves);
        self.a_block_adds_to_its_shortcut(weights, inputs, prefix, 0x3586_37bd, before, after)
    }

    proof fn lemma_grow_image(
        self,
        weights: Weights,
        inputs: Inputs<T>,
        block: int,
        before: Memory<T>,
        after: Memory<T>,
    ) -> (out: (Array<T>, Array<T>))
        requires
            before.stack.len() >= 1,
            self.runs(weights, inputs, sd_vae::grow_steps(block), before, after),
        ensures
            block < 3 ==> {
                &&& self.applies(weights, LayerData::Upsample, before.stack.last(), out.0)
                &&& self.applies(
                    weights,
                    LayerData::Conv {
                        prefix: "decoder.up_blocks."@ + text::decimal(block as nat)
                            + ".upsamplers.0.conv"@,
                        stride: 1,
                        padding: 1,
                    },
                    out.0,
                    out.1,
                )
                &&& after.stack == before.stack.drop_last().push(out.1)
                &&& after.skips == before.skips
            },
            block >= 3 ==> after == before && out.1 == before.stack.last(),
    {
        let program = sd_vae::grow_steps(block);
        let s = self.lemma_trace(weights, inputs, program, before, after);
        let rest = before.stack.drop_last();
        let x = before.stack.last();
        assert(before.stack =~= rest.push(x));
        if block < 3 {
            let layer = LayerData::Conv {
                prefix: "decoder.up_blocks."@ + text::decimal(block as nat)
                    + ".upsamplers.0.conv"@,
                stride: 1,
                padding: 1,
            };
            assert(program[0] == OpData::Apply(LayerData::Upsample));
            assert(program[1] == OpData::Apply(layer));
            let d = self.lemma_apply(
                weights,
                inputs,
                LayerData::Upsample,
                s[0],
                s[1],
                rest,
                x,
            );
            let e = self.lemma_apply(weights, inputs, layer, s[1], s[2], rest, d);
            (d, e)
        } else {
            (x, x)
        }
    }

    proof fn lemma_enlarges(
        self,
        weights: Weights,
        inputs: Inputs<T>,
        block: int,
        before: Memory<T>,
        after: Memory<T>,
    ) -> (out: Array<T>)
        requires
            self.runs(weights, inputs, sd_vae::level_steps(block), before, after),
        ensures
            before.stack.len() >= 1,
            self.enlarges(weights, block, before.stack.last(), out),
            after.stack == before.stack.drop_last().push(out),
            after.skips == before.skips,
    {
        let p1 = sd_vae::layer_steps(block, 0);
        let p2 = sd_vae::layer_steps(block, 1);
        let p3 = sd_vae::layer_steps(block, 2);
        let p4 = sd_vae::grow_steps(block);
        let s3 = self.lemma_runs_split(weights, inputs, p1 + p2 + p3, p4, before, after);
        let s2 = self.lemma_runs_split(weights, inputs, p1 + p2, p3, before, s3);
        let s1 = self.lemma_runs_split(weights, inputs, p1, p2, before, s2);
        let a = self.lemma_resolves(weights, inputs, resnet_name(block, 0), before, s1);
        let b = self.lemma_resolves(weights, inputs, resnet_name(block, 1), s1, s2);
        let c = self.lemma_resolves(weights, inputs, resnet_name(block, 2), s2, s3);
        let (d, out) = self.lemma_grow_image(weights, inputs, block, s3, after);
        let rest = before.stack.drop_last();
        assert(s1.stack.drop_last() =~= rest && s2.stack.drop_last() =~= rest);
        assert(s3.stack.drop_last() =~= rest);
        assert(after.stack =~= rest.push(out));
        reveal(Kernels::enlarges);
        out
    }

    #[verifier::spinoff_prover]
    #[verifier::rlimit(40)]
    proof fn lemma_levels(
        self,
        weights: Weights,
        inputs: Inputs<T>,
        count: int,
        before: Memory<T>,
        after: Memory<T>,
    ) -> (chain: Seq<Array<T>>)
        requires
            0 <= count,
            before.stack.len() >= 1,
            self.runs(weights, inputs, sd_vae::levels_steps(count), before, after),
        ensures
            chain.len() == count + 1,
            chain[0] == before.stack.last(),
            forall|block: int|
                0 <= block < count ==> self.enlarges(
                    weights,
                    block,
                    #[trigger] chain[block],
                    chain[block + 1],
                ),
            after.stack == before.stack.drop_last().push(chain[count]),
            after.skips == before.skips,
        decreases count,
    {
        if count == 0 {
            assert(after.stack =~= before.stack.drop_last().push(before.stack.last()));
            seq![before.stack.last()]
        } else {
            let middle = self.lemma_runs_split(
                weights,
                inputs,
                sd_vae::levels_steps(count - 1),
                sd_vae::level_steps(count - 1),
                before,
                after,
            );
            let chain = self.lemma_levels(weights, inputs, count - 1, before, middle);
            let out = self.lemma_enlarges(weights, inputs, count - 1, middle, after);
            let longer = chain.push(out);
            assert(middle.stack.drop_last() =~= before.stack.drop_last());
            assert forall|block: int| 0 <= block < count implies self.enlarges(
                weights,
                block,
                #[trigger] longer[block],
                longer[block + 1],
            ) by {
                if block < count - 1 {
                    assert(longer[block] == chain[block]);
                }
            }
            longer
        }
    }

    /// The decoder: two convolutions, a residual block, attention and another residual block, four
    /// resolutions, and at last a normalization, an activation and a convolution.
    pub proof fn the_decoder_enlarges_step_by_step(
        self,
        weights: Weights,
        latents: Array<T>,
        out: Array<T>,
    ) -> (way: (Seq<Array<T>>, Seq<Array<T>>, Seq<Array<T>>))
        requires
            sd_vae::decodes(self, weights, latents, out),
        ensures
            ({
                let (first, chain, last) = way;
                &&& first.len() == 4
                &&& self.applies(
                    weights,
                    LayerData::Conv { prefix: "post_quant_conv"@, stride: 1, padding: 0 },
                    latents,
                    first[0],
                )
                &&& self.applies(
                    weights,
                    LayerData::Conv { prefix: "decoder.conv_in"@, stride: 1, padding: 1 },
                    first[0],
                    first[1],
                )
                &&& self.resolves(
                    weights,
                    "decoder.mid_block.resnets.0"@,
                    first[1],
                    first[2],
                )
                &&& self.looks_around(
                    weights,
                    "decoder.mid_block.attentions.0"@,
                    first[2],
                    first[3],
                )
                &&& chain.len() == 5
                &&& self.resolves(
                    weights,
                    "decoder.mid_block.resnets.1"@,
                    first[3],
                    chain[0],
                )
                &&& forall|block: int|
                    0 <= block < 4 ==> self.enlarges(
                        weights,
                        block,
                        #[trigger] chain[block],
                        chain[block + 1],
                    )
                &&& last.len() == 2
                &&& self.applies(
                    weights,
                    LayerData::GroupNorm {
                        prefix: "decoder.conv_norm_out"@,
                        epsilon: 0x3586_37bd,
                    },
                    chain[4],
                    last[0],
                )
                &&& self.applies(weights, LayerData::Silu, last[0], last[1])
                &&& self.applies(
                    weights,
                    LayerData::Conv { prefix: "decoder.conv_out"@, stride: 1, padding: 1 },
                    last[1],
                    out,
                )
            }),
    {
        let inputs = sd_unet::nothing_given::<T>();
        let before = Memory { stack: seq![latents], skips: Seq::<Array<T>>::empty() };
        let after = Memory { stack: seq![out], skips: Seq::<Array<T>>::empty() };
        let none = Seq::<Array<T>>::empty();
        let p1 = sd_vae::entry_steps();
        let p2 = sd_vae::levels_steps(4);
        let p3 = sd_vae::exit_steps();
        let s2 = self.lemma_runs_split(weights, inputs, p1 + p2, p3, before, after);
        let s1 = self.lemma_runs_split(weights, inputs, p1, p2, before, s2);
        let first = self.lemma_entry(weights, inputs, latents, before, s1);
        let chain = self.lemma_levels(weights, inputs, 4, s1, s2);
        assert(s2.stack =~= none.push(chain[4]));
        let last = self.lemma_exit(weights, inputs, chain[4], s2, after);
        assert(after.stack[0] == last[2]);
        (first.take(4), chain, last.take(2))
    }

    proof fn lemma_entry(
        self,
        weights: Weights,
        inputs: Inputs<T>,
        latents: Array<T>,
        before: Memory<T>,
        after: Memory<T>,
    ) -> (first: Seq<Array<T>>)
        requires
            before.stack == seq![latents],
            self.runs(weights, inputs, sd_vae::entry_steps(), before, after),
        ensures
            first.len() == 5,
            self.applies(
                weights,
                LayerData::Conv { prefix: "post_quant_conv"@, stride: 1, padding: 0 },
                latents,
                first[0],
            ),
            self.applies(
                weights,
                LayerData::Conv { prefix: "decoder.conv_in"@, stride: 1, padding: 1 },
                first[0],
                first[1],
            ),
            self.resolves(weights, "decoder.mid_block.resnets.0"@, first[1], first[2]),
            self.looks_around(weights, "decoder.mid_block.attentions.0"@, first[2], first[3]),
            self.resolves(weights, "decoder.mid_block.resnets.1"@, first[3], first[4]),
            after.stack == seq![first[4]],
    {
        let none = Seq::<Array<T>>::empty();
        let c1 = LayerData::Conv { prefix: "post_quant_conv"@, stride: 1, padding: 0 };
        let c2 = LayerData::Conv { prefix: "decoder.conv_in"@, stride: 1, padding: 1 };
        let p1 = seq![OpData::Apply(c1), OpData::Apply(c2)];
        let p2 = blocks::resnet_steps("decoder.mid_block.resnets.0"@, 0x3586_37bd);
        let p3 = blocks::image_attention_steps("decoder.mid_block.attentions.0"@);
        let p4 = blocks::resnet_steps("decoder.mid_block.resnets.1"@, 0x3586_37bd);
        assert(sd_vae::entry_steps() =~= p1 + p2 + p3 + p4);
        let s3 = self.lemma_runs_split(weights, inputs, p1 + p2 + p3, p4, before, after);
        let s2 = self.lemma_runs_split(weights, inputs, p1 + p2, p3, before, s3);
        let s1 = self.lemma_runs_split(weights, inputs, p1, p2, before, s2);
        let t = self.lemma_trace(weights, inputs, p1, before, s1);
        assert(p1[0] == OpData::Apply(c1) && p1[1] == OpData::Apply(c2));
        assert(before.stack =~= none.push(latents));
        let a = self.lemma_apply(weights, inputs, c1, t[0], t[1], none, latents);
        let b = self.lemma_apply(weights, inputs, c2, t[1], t[2], none, a);
        let c = self.lemma_resolves(weights, inputs, "decoder.mid_block.resnets.0"@, s1, s2);
        let d = self.image_attention_reads_every_position(
            weights,
            inputs,
            "decoder.mid_block.attentions.0"@,
            s2,
            s3,
        );
        assert(self.looks_around(weights, "decoder.mid_block.attentions.0"@, c, d)) by {
            reveal(Kernels::looks_around);
        }
        let e = self.lemma_resolves(weights, inputs, "decoder.mid_block.resnets.1"@, s3, after);
        assert(s1.stack.drop_last() =~= none && s2.stack.drop_last() =~= none);
        assert(s3.stack.drop_last() =~= none);
        assert(after.stack =~= seq![e]);
        seq![a, b, c, d, e]
    }

    proof fn lemma_exit(
        self,
        weights: Weights,
        inputs: Inputs<T>,
        x: Array<T>,
        before: Memory<T>,
        after: Memory<T>,
    ) -> (last: Seq<Array<T>>)
        requires
            before.stack == Seq::<Array<T>>::empty().push(x),
            self.runs(weights, inputs, sd_vae::exit_steps(), before, after),
        ensures
            last.len() == 3,
            self.applies(
                weights,
                LayerData::GroupNorm { prefix: "decoder.conv_norm_out"@, epsilon: 0x3586_37bd },
                x,
                last[0],
            ),
            self.applies(weights, LayerData::Silu, last[0], last[1]),
            self.applies(
                weights,
                LayerData::Conv { prefix: "decoder.conv_out"@, stride: 1, padding: 1 },
                last[1],
                last[2],
            ),
            after.stack == Seq::<Array<T>>::empty().push(last[2]),
    {
        let none = Seq::<Array<T>>::empty();
        let program = sd_vae::exit_steps();
        let s = self.lemma_trace(weights, inputs, program, before, after);
        let norm = LayerData::GroupNorm {
            prefix: "decoder.conv_norm_out"@,
            epsilon: 0x3586_37bd,
        };
        let exit = LayerData::Conv { prefix: "decoder.conv_out"@, stride: 1, padding: 1 };
        assert(program[0] == OpData::Apply(norm));
        assert(program[1] == OpData::Apply(LayerData::Silu));
        assert(program[2] == OpData::Apply(exit));
        let a = self.lemma_apply(weights, inputs, norm, s[0], s[1], none, x);
        let b = self.lemma_apply(weights, inputs, LayerData::Silu, s[1], s[2], none, a);
        let c = self.lemma_apply(weights, inputs, exit, s[2], s[3], none, b);
        seq![a, b, c]
    }

    /// The time embedding: two projections of the sinusoids with an activation between them.
    pub proof fn time_is_projected_twice(
        self,
        weights: Weights,
        x: Array<T>,
        out: Array<T>,
    ) -> (way: (Array<T>, Array<T>))
        requires
            self.computes(weights, sd_unet::nothing_given(), sd_unet::time_steps(), x, out),
        ensures
            self.applies(
                weights,
                LayerData::Linear { prefix: "time_embedding.linear_1"@ },
                x,
                way.0,
            ),
            self.applies(weights, LayerData::Silu, way.0, way.1),
            self.applies(
                weights,
                LayerData::Linear { prefix: "time_embedding.linear_2"@ },
                way.1,
                out,
            ),
    {
        let none = Seq::<Array<T>>::empty();
        let inputs = sd_unet::nothing_given::<T>();
        let before = Memory { stack: seq![x], skips: none };
        let after = Memory { stack: seq![out], skips: none };
        let program = sd_unet::time_steps();
        let s = self.lemma_trace(weights, inputs, program, before, after);
        let one = LayerData::Linear { prefix: "time_embedding.linear_1"@ };
        let two = LayerData::Linear { prefix: "time_embedding.linear_2"@ };
        assert(program[0] == OpData::Apply(one));
        assert(program[1] == OpData::Apply(LayerData::Silu));
        assert(program[2] == OpData::Apply(two));
        assert(before.stack =~= none.push(x));
        let a = self.lemma_apply(weights, inputs, one, s[0], s[1], none, x);
        let b = self.lemma_apply(weights, inputs, LayerData::Silu, s[1], s[2], none, a);
        let c = self.lemma_apply(weights, inputs, two, s[2], s[3], none, b);
        assert(after.stack[0] == c);
        (a, b)
    }

    /// `out` is `x` and, added to it, two projections of the normalized `x` with an activation
    /// between them.
    #[verifier::opaque]
    pub open spec fn thinks(
        self,
        weights: Weights,
        exact: bool,
        prefix: Seq<char>,
        x: Array<T>,
        out: Array<T>,
    ) -> bool {
        exists|normed: Array<T>, wide: Array<T>, active: Array<T>, narrow: Array<T>|
            {
                &&& #[trigger] self.applies(
                    weights,
                    LayerData::TextNorm {
                        prefix: prefix + ".layer_norm2"@,
                        epsilon: 0x3727_c5ac,
                    },
                    x,
                    normed,
                )
                &&& #[trigger] self.applies(
                    weights,
                    LayerData::TextLinear { prefix: prefix + ".mlp.fc1"@ },
                    normed,
                    wide,
                )
                &&& exact ==> self.applies(weights, LayerData::Gelu, wide, active)
                &&& !exact ==> self.applies(weights, LayerData::QuickGelu, wide, active)
                &&& #[trigger] self.applies(
                    weights,
                    LayerData::TextLinear { prefix: prefix + ".mlp.fc2"@ },
                    active,
                    narrow,
                )
                &&& self.adds(x, narrow, out)
            }
    }

    /// `out` is what a layer of the text encoder makes of `x`: attention, and then a network.
    #[verifier::opaque]
    pub open spec fn understands(
        self,
        weights: Weights,
        spec: ClipEncoderSpec,
        prefix: Seq<char>,
        x: Array<T>,
        out: Array<T>,
    ) -> bool {
        exists|m: TextMixing<T>, middle: Array<T>|
            {
                &&& #[trigger] self.text_mixes_by(weights, prefix, spec.heads, x, m, middle)
                &&& self.thinks(weights, spec.gelu_exact, prefix, middle, out)
            }
    }

    proof fn lemma_text_layer(
        self,
        weights: Weights,
        inputs: Inputs<T>,
        spec: ClipEncoderSpec,
        index: int,
        before: Memory<T>,
        after: Memory<T>,
    ) -> (out: Array<T>)
        requires
            self.runs(weights, inputs, text_encoder::layer_steps(spec, index), before, after),
        ensures
            before.stack.len() >= 1,
            self.understands(
                weights,
                spec,
                "text_model.encoder.layers."@ + text::decimal(index as nat),
                before.stack.last(),
                out,
            ),
            after.stack == before.stack.drop_last().push(out),
            after.skips == before.skips,
    {
        let prefix = "text_model.encoder.layers."@ + text::decimal(index as nat);
        let p1 = blocks::text_attention_steps(prefix, spec.hidden, spec.heads);
        let p2 = if spec.gelu_exact {
            blocks::text_exact_steps(prefix)
        } else {
            blocks::text_quick_steps(prefix)
        };
        let s1 = self.lemma_runs_split(weights, inputs, p1, p2, before, after);
        let middle = self.text_attention_reads_what_came_before(
            weights,
            inputs,
            prefix,
            spec.hidden,
            spec.heads,
            before,
            s1,
        );
        let out = if spec.gelu_exact {
            self.an_exact_text_layer_adds_its_network(weights, inputs, prefix, s1, after)
        } else {
            self.a_quick_text_layer_adds_its_network(weights, inputs, prefix, s1, after)
        };
        assert(s1.stack.drop_last() =~= before.stack.drop_last());
        assert(self.thinks(weights, spec.gelu_exact, prefix, middle, out)) by {
            reveal(Kernels::thinks);
        }
        reveal(Kernels::understands);
        out
    }

    /// The layers of the text encoder work one after the other.
    #[verifier::spinoff_prover]
    #[verifier::rlimit(40)]
    pub proof fn text_layers_work_one_after_the_other(
        self,
        weights: Weights,
        inputs: Inputs<T>,
        spec: ClipEncoderSpec,
        from: int,
        to: int,
        before: Memory<T>,
        after: Memory<T>,
    ) -> (chain: Seq<Array<T>>)
        requires
            from <= to,
            before.stack.len() >= 1,
            self.runs(
                weights,
                inputs,
                text_encoder::layers_steps(spec, from, to),
                before,
                after,
            ),
        ensures
            chain.len() == to - from + 1,
            chain[0] == before.stack.last(),
            forall|k: int|
                0 <= k < to - from ==> self.understands(
                    weights,
                    spec,
                    "text_model.encoder.layers."@ + text::decimal((from + k) as nat),
                    #[trigger] chain[k],
                    chain[k + 1],
                ),
            after.stack == before.stack.drop_last().push(chain[to - from]),
            after.skips == before.skips,
        decreases to - from,
    {
        if from == to {
            assert(after.stack =~= before.stack.drop_last().push(before.stack.last()));
            seq![before.stack.last()]
        } else {
            let middle = self.lemma_runs_split(
                weights,
                inputs,
                text_encoder::layers_steps(spec, from, to - 1),
                text_encoder::layer_steps(spec, to - 1),
                before,
                after,
            );
            let chain = self.text_layers_work_one_after_the_other(
                weights,
                inputs,
                spec,
                from,
                to - 1,
                before,
                middle,
            );
            let out = self.lemma_text_layer(weights, inputs, spec, to - 1, middle, after);
            let longer = chain.push(out);
            assert(middle.stack.drop_last() =~= before.stack.drop_last());
            assert forall|k: int| 0 <= k < to - from implies self.understands(
                weights,
                spec,
                "text_model.encoder.layers."@ + text::decimal((from + k) as nat),
                #[trigger] longer[k],
                longer[k + 1],
            ) by {
                if k < to - 1 - from {
                    assert(longer[k] == chain[k]);
                }
            }
            longer
        }
    }

    /// The embedding of a text: at every position the row of its token and the row of the position,
    /// added.
    pub proof fn embeddings_add_tokens_and_positions(
        self,
        weights: Weights,
        tokens: Seq<u32>,
        hidden: usize,
        out: Array<T>,
        position: int,
        element: int,
    ) -> (parts: (T, T))
        requires
            text_encoder::embeds(self, weights, tokens, hidden, out),
            0 <= position < 77,
            0 <= element < hidden,
        ensures
            out.dims == seq![1usize, 77usize, hidden],
            self.loads_element(
                weights,
                "text_model.embeddings.token_embedding.weight"@,
                tokens[position] * hidden + element,
                parts.0,
            ),
            self.loads_element(
                weights,
                "text_model.embeddings.position_embedding.weight"@,
                position * hidden + element,
                parts.1,
            ),
            call_ensures(self.plus, parts, out.data[position * hidden + element]),
    {
        let width = hidden as int;
        let k = position * width + element;
        layout::lemma_cell(position, 77, element, width);
        layout::lemma_split(position, element, width);
        layout::lemma_product_small(out.dims);
        assert(1 * 77 * width == 77 * width) by (nonlinear_arith);
        assert(text_encoder::embedded(
            self,
            weights,
            tokens[position] as int,
            position,
            width,
            element,
            out.data[k],
        ));
        choose|a: T, b: T|
            {
                &&& self.loads_element(
                    weights,
                    text_encoder::token_name(),
                    tokens[position] * width + element,
                    a,
                )
                &&& self.loads_element(
                    weights,
                    text_encoder::position_name(),
                    position * width + element,
                    b,
                )
                &&& #[trigger] call_ensures(self.plus, (a, b), out.data[k])
            }
    }
}

} // verus!
