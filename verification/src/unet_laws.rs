//! What the U-Nets compute, resolution by resolution.

use vstd::prelude::*;
use crate::block_laws::{Conversing, Refining};
use crate::blocks;
use crate::graph;
use crate::graph::{Inputs, Memory, OpData};
use crate::layers::{Kernels, LayerData, Weights};
use crate::layout;
use crate::reshape::Array;
use crate::safetensors::Scalar;
use crate::text;
use crate::unet;
use crate::unet::UnetModel;

verus! {

/// The sizes of the networks: four resolutions, the three highest with one transformer block of
/// eight heads; or three resolutions, the two lowest with two and ten blocks, and a head for each
/// 64 channels.
pub proof fn networks_have_their_sizes(level: int)
    ensures
        UnetModel::Sd15.level_count() == 4,
        UnetModel::Sd15.attends_at(level) == (level <= 2),
        UnetModel::Sd15.depth_at(level) == 1,
        UnetModel::Sd15.heads_at(level) == 8,
        !UnetModel::Sd15.projects_linearly(),
        UnetModel::Sdxl.level_count() == 3,
        UnetModel::Sdxl.attends_at(level) == (level >= 1),
        UnetModel::Sdxl.depth_at(1) == 2,
        UnetModel::Sdxl.depth_at(2) == 10,
        UnetModel::Sdxl.heads_at(1) * 64 == 640,
        UnetModel::Sdxl.heads_at(2) * 64 == 1280,
        UnetModel::Sdxl.projects_linearly(),
{
}

/// Tensors joined along their channels: in every sample the channels of the first come first, and
/// those of the second after them.
pub proof fn joined_channels_follow_one_another<T>(
    a: Array<T>,
    b: Array<T>,
    n: int,
    k: int,
)
    requires
        a.wf(),
        b.wf(),
        graph::join_fault(a.dims, b.dims) is None,
        0 <= n < a.dims[0],
        0 <= k < (a.dims[1] + b.dims[1]) * (a.dims[2] * a.dims[3]),
    ensures
        graph::joined(a, b).dims == seq![
            a.dims[0],
            (a.dims[1] + b.dims[1]) as usize,
            a.dims[2],
            a.dims[3],
        ],
        ({
            let plane = a.dims[2] * a.dims[3];
            let first = a.dims[1] * plane;
            let second = b.dims[1] * plane;
            graph::joined(a, b).data[n * (first + second) + k] == if k < first {
                a.data[n * first + k]
            } else {
                b.data[n * second + (k - first)]
            }
        }),
{
    let plane = a.dims[2] * a.dims[3];
    let first = a.dims[1] * plane;
    let second = b.dims[1] * plane;
    layout::lemma_product_small(a.dims);
    layout::lemma_product_small(b.dims);
    let samples = a.dims[0] as int;
    let (height, width) = (a.dims[2] as int, a.dims[3] as int);
    let (left, right) = (a.dims[1] as int, b.dims[1] as int);
    assert(samples * left * height * width == samples * first) by (nonlinear_arith)
        requires
            first == left * plane,
            plane == height * width,
    ;
    assert(samples * right * height * width == samples * second) by (nonlinear_arith)
        requires
            second == right * plane,
            plane == height * width,
    ;
    assert((left + right) * plane == first + second) by (nonlinear_arith)
        requires
            first == left * plane,
            second == right * plane,
    ;
    assert(0 <= first && 0 <= second) by (nonlinear_arith)
        requires
            first == left * plane,
            second == right * plane,
            plane == height * width,
            left >= 0,
            right >= 0,
            height >= 0,
            width >= 0,
    ;
    lemma_joined_samples(a, b, samples, n, k);
}

proof fn lemma_joined_samples<T>(a: Array<T>, b: Array<T>, count: int, n: int, k: int)
    requires
        ({
            let first = a.dims[1] * (a.dims[2] * a.dims[3]);
            let second = b.dims[1] * (b.dims[2] * b.dims[3]);
            &&& 0 <= first
            &&& 0 <= second
            &&& a.data.len() >= count * first
            &&& b.data.len() >= count * second
            &&& 0 <= k < first + second
        }),
        0 <= n < count,
    ensures
        ({
            let first = a.dims[1] * (a.dims[2] * a.dims[3]);
            let second = b.dims[1] * (b.dims[2] * b.dims[3]);
            &&& graph::joined_samples(a, b, count).len() == count * (first + second)
            &&& graph::joined_samples(a, b, count)[n * (first + second) + k] == if k < first {
                a.data[n * first + k]
            } else {
                b.data[n * second + (k - first)]
            }
        }),
    decreases count,
{
    let first = a.dims[1] * (a.dims[2] * a.dims[3]);
    let second = b.dims[1] * (b.dims[2] * b.dims[3]);
    let both = first + second;
    let m = count - 1;
    assert(count * first == m * first + first && count * second == m * second + second)
        by (nonlinear_arith)
        requires
            count == m + 1,
    ;
    assert(count * both == m * both + both) by (nonlinear_arith)
        requires
            count == m + 1,
    ;
    assert(0 <= m * first && 0 <= m * second && 0 <= m * both) by (nonlinear_arith)
        requires
            0 <= m,
            0 <= first,
            0 <= second,
            0 <= both,
    ;
    if m > 0 {
        lemma_joined_samples(a, b, m, if n < m { n } else { 0 }, k);
    } else {
        assert(graph::joined_samples(a, b, 0) =~= Seq::empty());
        assert(m * both == 0) by (nonlinear_arith)
            requires
                m == 0,
        ;
    }
    if n < m {
        assert(n * both + k < m * both && 0 <= n * both) by (nonlinear_arith)
            requires
                0 <= n < m,
                0 <= k < both,
        ;
    }
}

/// The name of a part of a block.
pub open spec fn part(base: Seq<char>, block: int, kind: Seq<char>, index: int) -> Seq<char> {
    base + text::decimal(block as nat) + kind + text::decimal(index as nat)
}

impl<
    T: Copy,
    S: Copy,
    M: Fn(T, T, T) -> T + Copy,
    P: Fn(T, T) -> T + Copy,
    G: Fn(T, T) -> T + Copy,
    L: Fn(T) -> T + Copy,
    E: Fn(T) -> T + Copy,
    Q: Fn(T) -> T + Copy,
    A: Fn(&[T], u32) -> S + Copy,
    B: Fn(T, S, T, T) -> T + Copy,
    C: Fn(T, usize) -> T + Copy,
    H: Fn(Vec<T>) -> Vec<T> + Copy,
    N: Fn(Scalar) -> T + Copy,
> Kernels<T, M, P, G, L, E, Q, A, B, C, H, N> {
    /// `out` is what a residual block with a time embedding makes of `x`.
    #[verifier::opaque]
    pub open spec fn refines(
        self,
        weights: Weights,
        inputs: Inputs<T>,
        prefix: Seq<char>,
        x: Array<T>,
        out: Array<T>,
    ) -> bool {
        exists|m: Refining<T>| #[trigger]
            self.refines_by(weights, prefix, 0x3727_c5ac, x, inputs.time, m, out)
    }

    /// `out` is what a transformer of a resolution makes of `x`.
    #[verifier::opaque]
    pub open spec fn converses(
        self,
        weights: Weights,
        inputs: Inputs<T>,
        model: UnetModel,
        prefix: Seq<char>,
        level: int,
        x: Array<T>,
        out: Array<T>,
    ) -> bool {
        exists|m: Conversing<T>|
            {
                &&& m.chain.len() == model.depth_at(level) + 1
                &&& #[trigger] self.converses_by(
                    weights,
                    prefix,
                    model.heads_at(level),
                    model.projects_linearly(),
                    x,
                    inputs.context->0,
                    m,
                    out,
                )
            }
    }

    /// `out` is what a layer makes of `x`: a residual block and, where the resolution has them, a
    /// transformer.
    #[verifier::opaque]
    pub open spec fn layer_makes(
        self,
        weights: Weights,
        inputs: Inputs<T>,
        model: UnetModel,
        base: Seq<char>,
        block: int,
        level: int,
        index: int,
        x: Array<T>,
        out: Array<T>,
    ) -> bool {
        if model.attends_at(level) {
            exists|middle: Array<T>|
                {
                    &&& #[trigger] self.refines(
                        weights,
                        inputs,
                        part(base, block, ".resnets."@, index),
                        x,
                        middle,
                    )
                    &&& self.converses(
                        weights,
                        inputs,
                        model,
                        part(base, block, ".attentions."@, index),
                        level,
                        middle,
                        out,
                    )
                }
        } else {
            self.refines(weights, inputs, part(base, block, ".resnets."@, index), x, out)
        }
    }

    /// A resolution on the way down: two layers, each of whose results is kept, and the way to the
    /// next resolution, whose result is kept too.
    #[verifier::opaque]
    pub open spec fn descends(
        self,
        weights: Weights,
        inputs: Inputs<T>,
        model: UnetModel,
        level: int,
        before: Memory<T>,
        after: Memory<T>,
    ) -> bool {
        let x = before.stack.last();
        let rest = before.stack.drop_last();
        exists|a: Array<T>, b: Array<T>|
            {
                &&& #[trigger] self.layer_makes(
                    weights,
                    inputs,
                    model,
                    "down_blocks."@,
                    level,
                    level,
                    0,
                    x,
                    a,
                )
                &&& #[trigger] self.layer_makes(
                    weights,
                    inputs,
                    model,
                    "down_blocks."@,
                    level,
                    level,
                    1,
                    a,
                    b,
                )
                &&& if level + 1 < model.level_count() {
                    exists|c: Array<T>|
                        {
                            &&& #[trigger] self.applies(
                                weights,
                                LayerData::Conv {
                                    prefix: "down_blocks."@ + text::decimal(level as nat)
                                        + ".downsamplers.0.conv"@,
                                    stride: 2,
                                    padding: 1,
                                },
                                b,
                                c,
                            )
                            &&& after.stack == rest.push(c)
                            &&& after.skips == before.skips.push(a).push(b).push(c)
                        }
                } else {
                    &&& after.stack == rest.push(b)
                    &&& after.skips == before.skips.push(a).push(b)
                }
            }
    }

    /// A resolution on the way up: three layers, each of which takes the tensor kept last along
    /// with what it works on, and the way to the next resolution.
    #[verifier::opaque]
    pub open spec fn ascends(
        self,
        weights: Weights,
        inputs: Inputs<T>,
        model: UnetModel,
        up: int,
        before: Memory<T>,
        after: Memory<T>,
    ) -> bool {
        let level = model.level_count() - 1 - up;
        let n = before.skips.len() as int;
        let x = before.stack.last();
        let rest = before.stack.drop_last();
        &&& n >= 3
        &&& after.skips == before.skips.take(n - 3)
        &&& exists|a: Array<T>, b: Array<T>, c: Array<T>|
            {
                &&& #[trigger] self.layer_makes(
                    weights,
                    inputs,
                    model,
                    "up_blocks."@,
                    up,
                    level,
                    0,
                    graph::joined(x, before.skips[n - 1]),
                    a,
                )
                &&& #[trigger] self.layer_makes(
                    weights,
                    inputs,
                    model,
                    "up_blocks."@,
                    up,
                    level,
                    1,
                    graph::joined(a, before.skips[n - 2]),
                    b,
                )
                &&& #[trigger] self.layer_makes(
                    weights,
                    inputs,
                    model,
                    "up_blocks."@,
                    up,
                    level,
                    2,
                    graph::joined(b, before.skips[n - 3]),
                    c,
                )
                &&& if up + 1 < model.level_count() {
                    exists|d: Array<T>, e: Array<T>|
                        {
                            &&& #[trigger] self.applies(weights, LayerData::Upsample, c, d)
                            &&& #[trigger] self.applies(
                                weights,
                                LayerData::Conv {
                                    prefix: "up_blocks."@ + text::decimal(up as nat)
                                        + ".upsamplers.0.conv"@,
                                    stride: 1,
                                    padding: 1,
                                },
                                d,
                                e,
                            )
                            &&& after.stack == rest.push(e)
                        }
                } else {
                    after.stack == rest.push(c)
                }
            }
    }

    proof fn lemma_stage(
        self,
        weights: Weights,
        inputs: Inputs<T>,
        here: bool,
        before: Memory<T>,
        after: Memory<T>,
    )
        requires
            self.runs(weights, inputs, unet::stage_steps(here), before, after),
        ensures
            after == before,
    {
        let program = unet::stage_steps(here);
        let s = self.lemma_trace(weights, inputs, program, before, after);
        if here {
            assert(program[0] == OpData::Stage);
        }
    }

    proof fn lemma_layer(
        self,
        weights: Weights,
        inputs: Inputs<T>,
        model: UnetModel,
        base: Seq<char>,
        block: int,
        level: int,
        index: int,
        before: Memory<T>,
        after: Memory<T>,
    ) -> (out: Array<T>)
        requires
            before.stack.len() >= 1,
            self.runs(
                weights,
                inputs,
                unet::layer_steps(model, base, block, level, index),
                before,
                after,
            ),
        ensures
            self.layer_makes(
                weights,
                inputs,
                model,
                base,
                block,
                level,
                index,
                before.stack.last(),
                out,
            ),
            after.stack == before.stack.drop_last().push(out),
            after.skips == before.skips,
    {
        reveal(Kernels::refines);
        reveal(Kernels::converses);
        reveal(Kernels::layer_makes);
        let first = blocks::timed_resnet_steps(part(base, block, ".resnets."@, index));
        let second = if model.attends_at(level) {
            blocks::transformer_steps(
                part(base, block, ".attentions."@, index),
                model.heads_at(level),
                model.depth_at(level),
                model.projects_linearly(),
            )
        } else {
            Seq::empty()
        };
        assert(unet::layer_steps(model, base, block, level, index) =~= first + second);
        let middle = self.lemma_runs_split(weights, inputs, first, second, before, after);
        let x = before.stack.last();
        let y = self.a_timed_block_adds_to_its_shortcut(
            weights,
            inputs,
            part(base, block, ".resnets."@, index),
            before,
            middle,
        );
        assert(self.refines(weights, inputs, part(base, block, ".resnets."@, index), x, y));
        if model.attends_at(level) {
            let (m, out) = self.a_transformer_adds_what_its_blocks_make(
                weights,
                inputs,
                part(base, block, ".attentions."@, index),
                model.heads_at(level),
                model.depth_at(level),
                model.projects_linearly(),
                middle,
                after,
            );
            assert(middle.stack.drop_last() =~= before.stack.drop_last());
            assert(self.converses(
                weights,
                inputs,
                model,
                part(base, block, ".attentions."@, index),
                level,
                y,
                out,
            ));
            out
        } else {
            y
        }
    }

    proof fn lemma_down_layer(
        self,
        weights: Weights,
        inputs: Inputs<T>,
        model: UnetModel,
        level: int,
        index: int,
        before: Memory<T>,
        after: Memory<T>,
    ) -> (out: Array<T>)
        requires
            before.stack.len() >= 1,
            self.runs(
                weights,
                inputs,
                unet::down_layer_steps(model, level, index),
                before,
                after,
            ),
        ensures
            self.layer_makes(
                weights,
                inputs,
                model,
                "down_blocks."@,
                level,
                level,
                index,
                before.stack.last(),
                out,
            ),
            after.stack == before.stack.drop_last().push(out),
            after.skips == before.skips.push(out),
    {
        let a = unet::stage_steps(model == UnetModel::Sdxl);
        let b = unet::layer_steps(model, "down_blocks."@, level, level, index);
        let c = seq![OpData::Save];
        let s2 = self.lemma_runs_split(weights, inputs, a + b, c, before, after);
        let s1 = self.lemma_runs_split(weights, inputs, a, b, before, s2);
        self.lemma_stage(weights, inputs, model == UnetModel::Sdxl, before, s1);
        let out = self.lemma_layer(
            weights,
            inputs,
            model,
            "down_blocks."@,
            level,
            level,
            index,
            s1,
            s2,
        );
        let s = self.lemma_trace(weights, inputs, c, s2, after);
        assert(c[0] == OpData::Save);
        assert(s2.peek(0) == out);
        out
    }

    proof fn lemma_up_layer(
        self,
        weights: Weights,
        inputs: Inputs<T>,
        model: UnetModel,
        up: int,
        index: int,
        before: Memory<T>,
        after: Memory<T>,
    ) -> (out: Array<T>)
        requires
            self.runs(weights, inputs, unet::up_layer_steps(model, up, index), before, after),
        ensures
            before.stack.len() >= 1,
            before.skips.len() >= 1,
            self.layer_makes(
                weights,
                inputs,
                model,
                "up_blocks."@,
                up,
                model.level_count() - 1 - up,
                index,
                graph::joined(before.stack.last(), before.skips.last()),
                out,
            ),
            after.stack == before.stack.drop_last().push(out),
            after.skips == before.skips.drop_last(),
    {
        let a = unet::stage_steps(model == UnetModel::Sdxl);
        let b = seq![OpData::Join];
        let c = unet::layer_steps(
            model,
            "up_blocks."@,
            up,
            model.level_count() - 1 - up,
            index,
        );
        let s2 = self.lemma_runs_split(weights, inputs, a + b, c, before, after);
        let s1 = self.lemma_runs_split(weights, inputs, a, b, before, s2);
        self.lemma_stage(weights, inputs, model == UnetModel::Sdxl, before, s1);
        let s = self.lemma_trace(weights, inputs, b, s1, s2);
        assert(b[0] == OpData::Join);
        assert(s1.peek(0) == before.stack.last());
        let joined = graph::joined(before.stack.last(), before.skips.last());
        assert(s2.stack =~= before.stack.drop_last().push(joined));
        let out = self.lemma_layer(
            weights,
            inputs,
            model,
            "up_blocks."@,
            up,
            model.level_count() - 1 - up,
            index,
            s2,
            after,
        );
        assert(s2.stack.drop_last() =~= before.stack.drop_last());
        out
    }

    proof fn lemma_shrink(
        self,
        weights: Weights,
        inputs: Inputs<T>,
        model: UnetModel,
        level: int,
        before: Memory<T>,
        after: Memory<T>,
    ) -> (out: Array<T>)
        requires
            before.stack.len() >= 1,
            self.runs(weights, inputs, unet::shrink_steps(model, level), before, after),
        ensures
            level + 1 < model.level_count() ==> {
                &&& self.applies(
                    weights,
                    LayerData::Conv {
                        prefix: "down_blocks."@ + text::decimal(level as nat)
                            + ".downsamplers.0.conv"@,
                        stride: 2,
                        padding: 1,
                    },
                    before.stack.last(),
                    out,
                )
                &&& after.stack == before.stack.drop_last().push(out)
                &&& after.skips == before.skips.push(out)
            },
            level + 1 >= model.level_count() ==> after == before,
    {
        let program = unet::shrink_steps(model, level);
        let s = self.lemma_trace(weights, inputs, program, before, after);
        let rest = before.stack.drop_last();
        let x = before.stack.last();
        assert(before.stack =~= rest.push(x));
        if level + 1 < model.level_count() {
            let layer = LayerData::Conv {
                prefix: "down_blocks."@ + text::decimal(level as nat) + ".downsamplers.0.conv"@,
                stride: 2,
                padding: 1,
            };
            assert(program[0] == OpData::Apply(layer));
            assert(program[1] == OpData::Save);
            let out = self.lemma_apply(weights, inputs, layer, s[0], s[1], rest, x);
            assert(s[1].peek(0) == out);
            out
        } else {
            x
        }
    }

    proof fn lemma_grow(
        self,
        weights: Weights,
        inputs: Inputs<T>,
        model: UnetModel,
        up: int,
        before: Memory<T>,
        after: Memory<T>,
    ) -> (out: (Array<T>, Array<T>))
        requires
            before.stack.len() >= 1,
            self.runs(weights, inputs, unet::grow_steps(model, up), before, after),
        ensures
            up + 1 < model.level_count() ==> {
                &&& self.applies(weights, LayerData::Upsample, before.stack.last(), out.0)
                &&& self.applies(
                    weights,
                    LayerData::Conv {
                        prefix: "up_blocks."@ + text::decimal(up as nat) + ".upsamplers.0.conv"@,
                        stride: 1,
                        padding: 1,
                    },
                    out.0,
                    out.1,
                )
                &&& after.stack == before.stack.drop_last().push(out.1)
                &&& after.skips == before.skips
            },
            up + 1 >= model.level_count() ==> after == before,
    {
        let program = unet::grow_steps(model, up);
        let s = self.lemma_trace(weights, inputs, program, before, after);
        let rest = before.stack.drop_last();
        let x = before.stack.last();
        assert(before.stack =~= rest.push(x));
        if up + 1 < model.level_count() {
            let layer = LayerData::Conv {
                prefix: "up_blocks."@ + text::decimal(up as nat) + ".upsamplers.0.conv"@,
                stride: 1,
                padding: 1,
            };
            assert(program[0] == OpData::Apply(LayerData::Upsample));
            assert(program[1] == OpData::Apply(layer));
            let d = self.lemma_apply(
                weights,
                inputs,
                LayerData::Upsample,
                s[0],
                s[1],
                rest,
                x,
            );
            let e = self.lemma_apply(weights, inputs, layer, s[1], s[2], rest, d);
            (d, e)
        } else {
            (x, x)
        }
    }

    proof fn lemma_down_layers(
        self,
        weights: Weights,
        inputs: Inputs<T>,
        model: UnetModel,
        level: int,
        before: Memory<T>,
        after: Memory<T>,
    ) -> (out: (Array<T>, Array<T>))
        requires
            before.stack.len() >= 1,
            self.runs(
                weights,
                inputs,
                unet::stage_steps(model == UnetModel::Sd15) + unet::down_layer_steps(
                    model,
                    level,
                    0,
                ) + unet::down_layer_steps(model, level, 1),
                before,
                after,
            ),
        ensures
            self.layer_makes(
                weights,
                inputs,
                model,
                "down_blocks."@,
                level,
                level,
                0,
                before.stack.last(),
                out.0,
            ),
            self.layer_makes(
                weights,
                inputs,
                model,
                "down_blocks."@,
                level,
                level,
                1,
                out.0,
                out.1,
            ),
            after.stack == before.stack.drop_last().push(out.1),
            after.skips == before.skips.push(out.0).push(out.1),
    {
        let p1 = unet::stage_steps(model == UnetModel::Sd15);
        let p2 = unet::down_layer_steps(model, level, 0);
        let p3 = unet::down_layer_steps(model, level, 1);
        let s2 = self.lemma_runs_split(weights, inputs, p1 + p2, p3, before, after);
        let s1 = self.lemma_runs_split(weights, inputs, p1, p2, before, s2);
        self.lemma_stage(weights, inputs, model == UnetModel::Sd15, before, s1);
        let a = self.lemma_down_layer(weights, inputs, model, level, 0, s1, s2);
        let b = self.lemma_down_layer(weights, inputs, model, level, 1, s2, after);
        assert(s2.stack.drop_last() =~= before.stack.drop_last());
        (a, b)
    }

    proof fn lemma_up_layers(
        self,
        weights: Weights,
        inputs: Inputs<T>,
        model: UnetModel,
        up: int,
        before: Memory<T>,
        after: Memory<T>,
    ) -> (out: (Array<T>, Array<T>, Array<T>))
        requires
            self.runs(
                weights,
                inputs,
                unet::stage_steps(model == UnetModel::Sd15) + unet::up_layer_steps(model, up, 0)
                    + unet::up_layer_steps(model, up, 1) + unet::up_layer_steps(model, up, 2),
                before,
                after,
            ),
        ensures
            before.stack.len() >= 1,
            before.skips.len() >= 3,
            ({
                let n = before.skips.len() as int;
                let level = model.level_count() - 1 - up;
                &&& self.layer_makes(
                    weights,
                    inputs,
                    model,
                    "up_blocks."@,
                    up,
                    level,
                    0,
                    graph::joined(before.stack.last(), before.skips[n - 1]),
                    out.0,
                )
                &&& self.layer_makes(
                    weights,
                    inputs,
                    model,
                    "up_blocks."@,
                    up,
                    level,
                    1,
                    graph::joined(out.0, before.skips[n - 2]),
                    out.1,
                )
                &&& self.layer_makes(
                    weights,
                    inputs,
                    model,
                    "up_blocks."@,
                    up,
                    level,
                    2,
                    graph::joined(out.1, before.skips[n - 3]),
                    out.2,
                )
                &&& after.stack == before.stack.drop_last().push(out.2)
                &&& after.skips == before.skips.take(n - 3)
            }),
    {
        let p1 = unet::stage_steps(model == UnetModel::Sd15);
        let p2 = unet::up_layer_steps(model, up, 0);
        let p3 = unet::up_layer_steps(model, up, 1);
        let p4 = unet::up_layer_steps(model, up, 2);
        let s3 = self.lemma_runs_split(weights, inputs, p1 + p2 + p3, p4, before, after);
        let s2 = self.lemma_runs_split(weights, inputs, p1 + p2, p3, before, s3);
        let s1 = self.lemma_runs_split(weights, inputs, p1, p2, before, s2);
        self.lemma_stage(weights, inputs, model == UnetModel::Sd15, before, s1);
        let a = self.lemma_up_layer(weights, inputs, model, up, 0, s1, s2);
        let b = self.lemma_up_layer(weights, inputs, model, up, 1, s2, s3);
        let c = self.lemma_up_layer(weights, inputs, model, up, 2, s3, after);
        let rest = before.stack.drop_last();
        let n = before.skips.len() as int;
        assert(s2.stack.drop_last() =~= rest && s3.stack.drop_last() =~= rest);
        assert(s2.skips.last() == before.skips[n - 2]);
        assert(s3.skips.last() == before.skips[n - 3]);
        assert(after.skips =~= before.skips.take(n - 3));
        (a, b, c)
    }

    /// The blocks of a resolution keep their results on the way down.
    pub proof fn a_resolution_keeps_its_results(
        self,
        weights: Weights,
        inputs: Inputs<T>,
        model: UnetModel,
        level: int,
        before: Memory<T>,
        after: Memory<T>,
    )
        requires
            before.stack.len() >= 1,
            self.runs(weights, inputs, unet::down_level_steps(model, level), before, after),
        ensures
            after.stack.len() == before.stack.len(),
            self.descends(weights, inputs, model, level, before, after),
    {
        let first = unet::stage_steps(model == UnetModel::Sd15) + unet::down_layer_steps(
            model,
            level,
            0,
        ) + unet::down_layer_steps(model, level, 1);
        let middle = self.lemma_runs_split(
            weights,
            inputs,
            first,
            unet::shrink_steps(model, level),
            before,
            after,
        );
        let (a, b) = self.lemma_down_layers(weights, inputs, model, level, before, middle);
        let c = self.lemma_shrink(weights, inputs, model, level, middle, after);
        assert(middle.stack.drop_last() =~= before.stack.drop_last());
        reveal(Kernels::descends);
    }

    /// The blocks of a resolution take the kept tensors on the way up, the last one first.
    pub proof fn a_resolution_takes_what_was_kept(
        self,
        weights: Weights,
        inputs: Inputs<T>,
        model: UnetModel,
        up: int,
        before: Memory<T>,
        after: Memory<T>,
    )
        requires
            self.runs(weights, inputs, unet::up_level_steps(model, up), before, after),
        ensures
            before.stack.len() >= 1,
            after.stack.len() == before.stack.len(),
            self.ascends(weights, inputs, model, up, before, after),
    {
        let first = unet::stage_steps(model == UnetModel::Sd15) + unet::up_layer_steps(
            model,
            up,
            0,
        ) + unet::up_layer_steps(model, up, 1) + unet::up_layer_steps(model, up, 2);
        let middle = self.lemma_runs_split(
            weights,
            inputs,
            first,
            unet::grow_steps(model, up),
            before,
            after,
        );
        let (a, b, c) = self.lemma_up_layers(weights, inputs, model, up, before, middle);
        let (d, e) = self.lemma_grow(weights, inputs, model, up, middle, after);
        assert(middle.stack.drop_last() =~= before.stack.drop_last());
        reveal(Kernels::ascends);
    }

    #[verifier::spinoff_prover]
    #[verifier::rlimit(40)]
    proof fn lemma_down(
        self,
        weights: Weights,
        inputs: Inputs<T>,
        model: UnetModel,
        count: int,
        before: Memory<T>,
        after: Memory<T>,
    ) -> (states: Seq<Memory<T>>)
        requires
            0 <= count,
            before.stack.len() >= 1,
            self.runs(weights, inputs, unet::down_steps(model, count), before, after),
        ensures
            states.len() == count + 1,
            states[0] == before,
            states[count] == after,
            after.stack.len() == before.stack.len(),
            forall|level: int|
                0 <= level < count ==> self.descends(
                    weights,
                    inputs,
                    model,
                    level,
                    #[trigger] states[level],
                    states[level + 1],
                ),
        decreases count,
    {
        if count == 0 {
            seq![before]
        } else {
            let middle = self.lemma_runs_split(
                weights,
                inputs,
                unet::down_steps(model, count - 1),
                unet::down_level_steps(model, count - 1),
                before,
                after,
            );
            let states = self.lemma_down(weights, inputs, model, count - 1, before, middle);
            self.a_resolution_keeps_its_results(
                weights,
                inputs,
                model,
                count - 1,
                middle,
                after,
            );
            let longer = states.push(after);
            assert forall|level: int| 0 <= level < count implies self.descends(
                weights,
                inputs,
                model,
                level,
                #[trigger] longer[level],
                longer[level + 1],
            ) by {
                if level < count - 1 {
                    assert(longer[level] == states[level]);
                }
            }
            longer
        }
    }

    #[verifier::spinoff_prover]
    #[verifier::rlimit(40)]
    proof fn lemma_up(
        self,
        weights: Weights,
        inputs: Inputs<T>,
        model: UnetModel,
        count: int,
        before: Memory<T>,
        after: Memory<T>,
    ) -> (states: Seq<Memory<T>>)
        requires
            0 <= count,
            self.runs(weights, inputs, unet::up_steps(model, count), before, after),
        ensures
            states.len() == count + 1,
            states[0] == before,
            states[count] == after,
            before.stack.len() >= 1 ==> after.stack.len() == before.stack.len(),
            forall|up: int|
                0 <= up < count ==> self.ascends(
                    weights,
                    inputs,
                    model,
                    up,
                    #[trigger] states[up],
                    states[up + 1],
                ),
        decreases count,
    {
        if count == 0 {
            seq![before]
        } else {
            let middle = self.lemma_runs_split(
                weights,
                inputs,
                unet::up_steps(model, count - 1),
                unet::up_level_steps(model, count - 1),
                before,
                after,
            );
            let states = self.lemma_up(weights, inputs, model, count - 1, before, middle);
            self.a_resolution_takes_what_was_kept(
                weights,
                inputs,
                model,
                count - 1,
                middle,
                after,
            );
            let longer = states.push(after);
            assert forall|up: int| 0 <= up < count implies self.ascends(
                weights,
                inputs,
                model,
                up,
                #[trigger] longer[up],
                longer[up + 1],
            ) by {
                if up < count - 1 {
                    assert(longer[up] == states[up]);
                }
            }
            longer
        }
    }

    /// `out` is what the blocks of the lowest resolution make of `x`.
    #[verifier::opaque]
    pub open spec fn turns_around(
        self,
        weights: Weights,
        inputs: Inputs<T>,
        model: UnetModel,
        x: Array<T>,
        out: Array<T>,
    ) -> bool {
        exists|a: Array<T>, b: Array<T>|
            {
                &&& #[trigger] self.refines(weights, inputs, "mid_block.resnets.0"@, x, a)
                &&& #[trigger] self.converses(
                    weights,
                    inputs,
                    model,
                    "mid_block.attentions.0"@,
                    2,
                    a,
                    b,
                )
                &&& self.refines(weights, inputs, "mid_block.resnets.1"@, b, out)
            }
    }

    proof fn lemma_mid(
        self,
        weights: Weights,
        inputs: Inputs<T>,
        model: UnetModel,
        before: Memory<T>,
        after: Memory<T>,
    ) -> (out: Array<T>)
        requires
            before.stack.len() >= 1,
            self.runs(weights, inputs, unet::mid_steps(model), before, after),
        ensures
            self.turns_around(weights, inputs, model, before.stack.last(), out),
            after.stack == before.stack.drop_last().push(out),
            after.skips == before.skips,
    {
        reveal(Kernels::refines);
        reveal(Kernels::converses);
        reveal(Kernels::turns_around);
        let p1 = unet::stage_steps(true);
        let p2 = blocks::timed_resnet_steps("mid_block.resnets.0"@);
        let p3 = blocks::transformer_steps(
            "mid_block.attentions.0"@,
            model.heads_at(2),
            model.depth_at(2),
            model.projects_linearly(),
        );
        let p4 = unet::stage_steps(model == UnetModel::Sdxl);
        let p5 = blocks::timed_resnet_steps("mid_block.resnets.1"@);
        let s4 = self.lemma_runs_split(weights, inputs, p1 + p2 + p3 + p4, p5, before, after);
        let s3 = self.lemma_runs_split(weights, inputs, p1 + p2 + p3, p4, before, s4);
        let s2 = self.lemma_runs_split(weights, inputs, p1 + p2, p3, before, s3);
        let s1 = self.lemma_runs_split(weights, inputs, p1, p2, before, s2);
        self.lemma_stage(weights, inputs, true, before, s1);
        self.lemma_stage(weights, inputs, model == UnetModel::Sdxl, s3, s4);
        let a = self.a_timed_block_adds_to_its_shortcut(
            weights,
            inputs,
            "mid_block.resnets.0"@,
            s1,
            s2,
        );
        let (m, b) = self.a_transformer_adds_what_its_blocks_make(
            weights,
            inputs,
            "mid_block.attentions.0"@,
            model.heads_at(2),
            model.depth_at(2),
            model.projects_linearly(),
            s2,
            s3,
        );
        let out = self.a_timed_block_adds_to_its_shortcut(
            weights,
            inputs,
            "mid_block.resnets.1"@,
            s4,
            after,
        );
        let rest = before.stack.drop_last();
        assert(s2.stack.drop_last() =~= rest && s3.stack.drop_last() =~= rest);
        assert(self.refines(weights, inputs, "mid_block.resnets.0"@, before.stack.last(), a));
        assert(self.converses(
            weights,
            inputs,
            model,
            "mid_block.attentions.0"@,
            2,
            a,
            b,
        ));
        assert(self.refines(weights, inputs, "mid_block.resnets.1"@, b, out));
        out
    }

    /// A U-Net: a convolution, the resolutions on the way down, the blocks of the lowest one, the
    /// resolutions on the way up with what was kept on the way down, and at last a normalization,
    /// an activation and a convolution.
    pub proof fn a_unet_goes_down_and_up_again(
        self,
        weights: Weights,
        inputs: Inputs<T>,
        model: UnetModel,
        x: Array<T>,
        out: Array<T>,
    ) -> (ways: (Seq<Memory<T>>, Seq<Memory<T>>))
        requires
            self.computes(weights, inputs, unet::unet_steps(model), x, out),
        ensures
            ({
                let (downs, ups) = ways;
                let n = model.level_count() as int;
                &&& downs.len() == n + 1
                &&& ups.len() == n + 1
                &&& exists|entered: Array<T>| #[trigger]
                    self.applies(
                        weights,
                        LayerData::Conv { prefix: "conv_in"@, stride: 1, padding: 1 },
                        x,
                        entered,
                    ) && downs[0] == (Memory { stack: seq![entered], skips: seq![entered] })
                &&& forall|level: int|
                    0 <= level < n ==> self.descends(
                        weights,
                        inputs,
                        model,
                        level,
                        #[trigger] downs[level],
                        downs[level + 1],
                    )
                &&& exists|middle: Array<T>| #[trigger]
                    self.turns_around(weights, inputs, model, downs[n].stack.last(), middle)
                        && ups[0] == (Memory { stack: seq![middle], skips: downs[n].skips })
                &&& forall|up: int|
                    0 <= up < n ==> self.ascends(
                        weights,
                        inputs,
                        model,
                        up,
                        #[trigger] ups[up],
                        ups[up + 1],
                    )
                &&& ups[n].skips.len() == 0
                &&& exists|normed: Array<T>, active: Array<T>|
                    {
                        &&& #[trigger] self.applies(
                            weights,
                            LayerData::GroupNorm {
                                prefix: "conv_norm_out"@,
                                epsilon: 0x3727_c5ac,
                            },
                            ups[n].stack.last(),
                            normed,
                        )
                        &&& #[trigger] self.applies(weights, LayerData::Silu, normed, active)
                        &&& self.applies(
                            weights,
                            LayerData::Conv { prefix: "conv_out"@, stride: 1, padding: 1 },
                            active,
                            out,
                        )
                    }
            }),
    {
        let n = model.level_count() as int;
        let before = Memory { stack: seq![x], skips: Seq::empty() };
        let after = Memory { stack: seq![out], skips: Seq::empty() };
        let p1 = unet::entry_steps();
        let p2 = unet::down_steps(model, n);
        let p3 = unet::mid_steps(model);
        let p4 = unet::up_steps(model, n);
        let p5 = unet::exit_steps();
        let s4 = self.lemma_runs_split(weights, inputs, p1 + p2 + p3 + p4, p5, before, after);
        let s3 = self.lemma_runs_split(weights, inputs, p1 + p2 + p3, p4, before, s4);
        let s2 = self.lemma_runs_split(weights, inputs, p1 + p2, p3, before, s3);
        let s1 = self.lemma_runs_split(weights, inputs, p1, p2, before, s2);
        let none = Seq::<Array<T>>::empty();
        let entry = LayerData::Conv { prefix: "conv_in"@, stride: 1, padding: 1 };
        let t = self.lemma_trace(weights, inputs, p1, before, s1);
        assert(p1[0] == OpData::Apply(entry));
        assert(p1[1] == OpData::Save);
        assert(before.stack =~= none.push(x));
        let entered = self.lemma_apply(weights, inputs, entry, t[0], t[1], none, x);
        assert(t[1].peek(0) == entered);
        assert(s1.stack =~= seq![entered] && s1.skips =~= seq![entered]);
        assert(s1 == (Memory { stack: seq![entered], skips: seq![entered] }));
        let downs = self.lemma_down(weights, inputs, model, n, s1, s2);
        let middle = self.lemma_mid(weights, inputs, model, s2, s3);
        assert(s3.stack =~= seq![middle]);
        assert(s3 == (Memory { stack: seq![middle], skips: s2.skips }));
        let ups = self.lemma_up(weights, inputs, model, n, s3, s4);
        let e = self.lemma_trace(weights, inputs, p5, s4, after);
        let norm = LayerData::GroupNorm { prefix: "conv_norm_out"@, epsilon: 0x3727_c5ac };
        let exit = LayerData::Conv { prefix: "conv_out"@, stride: 1, padding: 1 };
        assert(p5[0] == OpData::Stage);
        assert(p5[1] == OpData::Apply(norm));
        assert(p5[2] == OpData::Apply(LayerData::Silu));
        assert(p5[3] == OpData::Apply(exit));
        assert(e[1] == s4);
        let last = s4.stack.last();
        assert(s4.stack =~= none.push(last));
        let normed = self.lemma_apply(weights, inputs, norm, e[1], e[2], none, last);
        let active = self.lemma_apply(
            weights,
            inputs,
            LayerData::Silu,
            e[2],
            e[3],
            none,
            normed,
        );
        let end = self.lemma_apply(weights, inputs, exit, e[3], e[4], none, active);
        assert(after.stack[0] == end);
        (downs, ups)
    }
}

} // verus!
