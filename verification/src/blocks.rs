//! The building blocks of the diffusion networks, as program steps.

use vstd::prelude::*;
use crate::graph;
use crate::graph::{Level, Op, OpData};
use crate::layers;
use crate::layers::{Layer, LayerData};
use crate::text;
use crate::text::push_usize;

verus! {

broadcast use vstd::string::group_string_axioms;

/// A name made of two parts.
pub fn named(prefix: &str, suffix: &str) -> (name: String)
    ensures
        name@ == prefix@ + suffix@,
{
    let mut name = prefix.to_owned();
    name.append(suffix);
    name
}

/// A name made of a part and a number.
pub fn numbered(prefix: &str, number: usize) -> (name: String)
    ensures
        name@ == prefix@ + text::decimal(number as nat),
{
    let mut name = prefix.to_owned();
    push_usize(&mut name, number);
    name
}

/// Adds a step to a program.
pub fn put(program: &mut Vec<Op>, op: Op)
    ensures
        graph::steps(final(program)@) == graph::steps(old(program)@).push(op@),
{
    program.push(op);
    proof {
        assert(graph::steps(program@) =~= graph::steps(old(program)@).push(op@));
    }
}

/// A convolution.
pub open spec fn conv(prefix: Seq<char>, stride: usize, padding: usize) -> OpData {
    OpData::Apply(LayerData::Conv { prefix, stride, padding })
}

/// A linear projection.
pub open spec fn linear(prefix: Seq<char>) -> OpData {
    OpData::Apply(LayerData::Linear { prefix })
}

/// A linear projection with a half-precision matrix.
pub open spec fn text_linear(prefix: Seq<char>) -> OpData {
    OpData::Apply(LayerData::TextLinear { prefix })
}

/// Normalization over groups of channels.
pub open spec fn group_norm(prefix: Seq<char>, epsilon: u32) -> OpData {
    OpData::Apply(LayerData::GroupNorm { prefix, epsilon })
}

/// Normalization over the last dimension.
pub open spec fn layer_norm(prefix: Seq<char>) -> OpData {
    OpData::Apply(LayerData::LayerNorm { prefix, epsilon: layers::EPSILON_5 })
}

/// Normalization over the last dimension, with weights of any type.
pub open spec fn text_norm(prefix: Seq<char>) -> OpData {
    OpData::Apply(LayerData::TextNorm { prefix, epsilon: layers::EPSILON_5 })
}

/// A layer without weights.
pub open spec fn plain(layer: LayerData) -> OpData {
    OpData::Apply(layer)
}

/// The first half of a residual block with a time embedding: the residual, and the image after its
/// first convolution and the time bias.
pub open spec fn timed_head_steps(prefix: Seq<char>) -> Seq<OpData> {
    seq![
        OpData::Time,
        plain(LayerData::Silu),
        linear(prefix + ".time_emb_proj"@),
        OpData::Swap,
        OpData::Duplicate,
        plain(LayerData::Shortcut { prefix: prefix + ".conv_shortcut"@ }),
        OpData::Swap,
        group_norm(prefix + ".norm1"@, layers::EPSILON_5),
        plain(LayerData::Silu),
        conv(prefix + ".conv1"@, 1, 1),
        OpData::Rotate,
        OpData::Bias,
    ]
}

/// Adds the steps of [`timed_head_steps`] to a program.
pub fn timed_head(program: &mut Vec<Op>, prefix: &str)
    ensures
        graph::steps(final(program)@) == graph::steps(old(program)@) + timed_head_steps(prefix@),
{
    put(program, Op::Time);
    put(program, Op::Apply(Layer::Silu));
    put(program, Op::Apply(Layer::Linear { prefix: named(prefix, ".time_emb_proj") }));
    put(program, Op::Swap);
    put(program, Op::Duplicate);
    put(program, Op::Apply(Layer::Shortcut { prefix: named(prefix, ".conv_shortcut") }));
    put(program, Op::Swap);
    put(
        program,
        Op::Apply(Layer::GroupNorm { prefix: named(prefix, ".norm1"), epsilon: layers::EPSILON_5 }),
    );
    put(program, Op::Apply(Layer::Silu));
    put(program, Op::Apply(Layer::Conv { prefix: named(prefix, ".conv1"), stride: 1, padding: 1 }));
    put(program, Op::Rotate);
    put(program, Op::Bias);
    proof {
        assert(graph::steps(program@) =~= graph::steps(old(program)@) + timed_head_steps(prefix@));
    }
}

/// How these steps change the numbers of tensors.
pub proof fn lemma_timed_head(prefix: Seq<char>, level: Level)
    requires
        level.stack >= 1,
    ensures
        graph::leads(
            true,
            timed_head_steps(prefix),
            level,
            (Level { stack: level.stack + 1, skips: level.skips }),
        ),
{
    reveal_with_fuel(graph::levels, 13);
}

/// The first half of a residual block: the residual, and the image after its first convolution.
pub open spec fn head_steps(prefix: Seq<char>, epsilon: u32) -> Seq<OpData> {
    seq![
        OpData::Duplicate,
        plain(LayerData::Shortcut { prefix: prefix + ".conv_shortcut"@ }),
        OpData::Swap,
        group_norm(prefix + ".norm1"@, epsilon),
        plain(LayerData::Silu),
        conv(prefix + ".conv1"@, 1, 1),
    ]
}

/// Adds the steps of [`head_steps`] to a program.
pub fn head(program: &mut Vec<Op>, prefix: &str, epsilon: u32)
    ensures
        graph::steps(final(program)@) == graph::steps(old(program)@) + head_steps(prefix@, epsilon),
{
    put(program, Op::Duplicate);
    put(program, Op::Apply(Layer::Shortcut { prefix: named(prefix, ".conv_shortcut") }));
    put(program, Op::Swap);
    put(program, Op::Apply(Layer::GroupNorm { prefix: named(prefix, ".norm1"), epsilon: epsilon }));
    put(program, Op::Apply(Layer::Silu));
    put(program, Op::Apply(Layer::Conv { prefix: named(prefix, ".conv1"), stride: 1, padding: 1 }));
    proof {
        assert(
            graph::steps(program@) =~= graph::steps(old(program)@) + head_steps(prefix@, epsilon)
        );
    }
}

/// How these steps change the numbers of tensors.
pub proof fn lemma_head(inputs: bool, prefix: Seq<char>, epsilon: u32, level: Level)
    requires
        level.stack >= 1,
    ensures
        graph::leads(
            inputs,
            head_steps(prefix, epsilon),
            level,
            (Level { stack: level.stack + 1, skips: level.skips }),
        ),
{
    reveal_with_fuel(graph::levels, 7);
}

/// The second half of a residual block: the image after its second convolution, added to the
/// residual.
pub open spec fn tail_steps(prefix: Seq<char>, epsilon: u32) -> Seq<OpData> {
    seq![
        group_norm(prefix + ".norm2"@, epsilon),
        plain(LayerData::Silu),
        conv(prefix + ".conv2"@, 1, 1),
        OpData::Add,
    ]
}

/// Adds the steps of [`tail_steps`] to a program.
pub fn tail(program: &mut Vec<Op>, prefix: &str, epsilon: u32)
    ensures
        graph::steps(final(program)@) == graph::steps(old(program)@) + tail_steps(prefix@, epsilon),
{
    put(program, Op::Apply(Layer::GroupNorm { prefix: named(prefix, ".norm2"), epsilon: epsilon }));
    put(program, Op::Apply(Layer::Silu));
    put(program, Op::Apply(Layer::Conv { prefix: named(prefix, ".conv2"), stride: 1, padding: 1 }));
    put(program, Op::Add);
    proof {
        assert(
            graph::steps(program@) =~= graph::steps(old(program)@) + tail_steps(prefix@, epsilon)
        );
    }
}

/// How these steps change the numbers of tensors.
pub proof fn lemma_tail(inputs: bool, prefix: Seq<char>, epsilon: u32, level: Level)
    requires
        level.stack >= 2,
    ensures
        graph::leads(
            inputs,
            tail_steps(prefix, epsilon),
            level,
            (Level { stack: level.stack + -1, skips: level.skips }),
        ),
{
    reveal_with_fuel(graph::levels, 5);
}

/// Attention of a sequence to itself.
pub open spec fn self_attention_steps(prefix: Seq<char>, heads: usize) -> Seq<OpData> {
    seq![
        OpData::Duplicate,
        linear(prefix + ".to_q"@),
        OpData::Swap,
        OpData::Duplicate,
        linear(prefix + ".to_k"@),
        OpData::Swap,
        linear(prefix + ".to_v"@),
        OpData::Rotate,
        plain(LayerData::Split { heads }),
        OpData::Rotate,
        plain(LayerData::Split { heads }),
        OpData::Rotate,
        plain(LayerData::Split { heads }),
        OpData::Attention { causal: false },
        plain(LayerData::Merge),
        linear(prefix + ".to_out.0"@),
    ]
}

/// Adds the steps of [`self_attention_steps`] to a program.
pub fn self_attention(program: &mut Vec<Op>, prefix: &str, heads: usize)
    ensures
        graph::steps(
            final(program)@,
        ) == graph::steps(old(program)@) + self_attention_steps(prefix@, heads),
{
    put(program, Op::Duplicate);
    put(program, Op::Apply(Layer::Linear { prefix: named(prefix, ".to_q") }));
    put(program, Op::Swap);
    put(program, Op::Duplicate);
    put(program, Op::Apply(Layer::Linear { prefix: named(prefix, ".to_k") }));
    put(program, Op::Swap);
    put(program, Op::Apply(Layer::Linear { prefix: named(prefix, ".to_v") }));
    put(program, Op::Rotate);
    put(program, Op::Apply(Layer::Split { heads }));
    put(program, Op::Rotate);
    put(program, Op::Apply(Layer::Split { heads }));
    put(program, Op::Rotate);
    put(program, Op::Apply(Layer::Split { heads }));
    put(program, Op::Attention { causal: false });
    put(program, Op::Apply(Layer::Merge));
    put(program, Op::Apply(Layer::Linear { prefix: named(prefix, ".to_out.0") }));
    proof {
        assert(
            graph::steps(program@) =~= graph::steps(old(program)@) + self_attention_steps(
                prefix@,
                heads,
            )
        );
    }
}

/// How these steps change the numbers of tensors.
pub proof fn lemma_self_attention(inputs: bool, prefix: Seq<char>, heads: usize, level: Level)
    requires
        level.stack >= 1,
    ensures
        graph::leads(
            inputs,
            self_attention_steps(prefix, heads),
            level,
            (Level { stack: level.stack + 0, skips: level.skips }),
        ),
{
    reveal_with_fuel(graph::levels, 17);
}

/// Attention of a sequence to the text context.
pub open spec fn cross_attention_steps(prefix: Seq<char>, heads: usize) -> Seq<OpData> {
    seq![
        linear(prefix + ".to_q"@),
        OpData::Context,
        linear(prefix + ".to_k"@),
        OpData::Context,
        linear(prefix + ".to_v"@),
        OpData::Rotate,
        plain(LayerData::Split { heads }),
        OpData::Rotate,
        plain(LayerData::Split { heads }),
        OpData::Rotate,
        plain(LayerData::Split { heads }),
        OpData::Attention { causal: false },
        plain(LayerData::Merge),
        linear(prefix + ".to_out.0"@),
    ]
}

/// Adds the steps of [`cross_attention_steps`] to a program.
pub fn cross_attention(program: &mut Vec<Op>, prefix: &str, heads: usize)
    ensures
        graph::steps(
            final(program)@,
        ) == graph::steps(old(program)@) + cross_attention_steps(prefix@, heads),
{
    put(program, Op::Apply(Layer::Linear { prefix: named(prefix, ".to_q") }));
    put(program, Op::Context);
    put(program, Op::Apply(Layer::Linear { prefix: named(prefix, ".to_k") }));
    put(program, Op::Context);
    put(program, Op::Apply(Layer::Linear { prefix: named(prefix, ".to_v") }));
    put(program, Op::Rotate);
    put(program, Op::Apply(Layer::Split { heads }));
    put(program, Op::Rotate);
    put(program, Op::Apply(Layer::Split { heads }));
    put(program, Op::Rotate);
    put(program, Op::Apply(Layer::Split { heads }));
    put(program, Op::Attention { causal: false });
    put(program, Op::Apply(Layer::Merge));
    put(program, Op::Apply(Layer::Linear { prefix: named(prefix, ".to_out.0") }));
    proof {
        assert(
            graph::steps(program@) =~= graph::steps(old(program)@) + cross_attention_steps(
                prefix@,
                heads,
            )
        );
    }
}

/// How these steps change the numbers of tensors.
pub proof fn lemma_cross_attention(prefix: Seq<char>, heads: usize, level: Level)
    requires
        level.stack >= 1,
    ensures
        graph::leads(
            true,
            cross_attention_steps(prefix, heads),
            level,
            (Level { stack: level.stack + 0, skips: level.skips }),
        ),
{
    reveal_with_fuel(graph::levels, 15);
}

/// What precedes the attention of a sequence to itself.
pub open spec fn before_self_steps(prefix: Seq<char>) -> Seq<OpData> {
    seq![
        OpData::Duplicate,
        layer_norm(prefix + ".norm1"@),
    ]
}

/// Adds the steps of [`before_self_steps`] to a program.
pub fn before_self(program: &mut Vec<Op>, prefix: &str)
    ensures
        graph::steps(final(program)@) == graph::steps(old(program)@) + before_self_steps(prefix@),
{
    put(program, Op::Duplicate);
    put(
        program,
        Op::Apply(Layer::LayerNorm { prefix: named(prefix, ".norm1"), epsilon: layers::EPSILON_5 }),
    );
    proof {
        assert(graph::steps(program@) =~= graph::steps(old(program)@) + before_self_steps(prefix@));
    }
}

/// How these steps change the numbers of tensors.
pub proof fn lemma_before_self(inputs: bool, prefix: Seq<char>, level: Level)
    requires
        level.stack >= 1,
    ensures
        graph::leads(
            inputs,
            before_self_steps(prefix),
            level,
            (Level { stack: level.stack + 1, skips: level.skips }),
        ),
{
    reveal_with_fuel(graph::levels, 3);
}

/// What precedes the attention of a sequence to the text context.
pub open spec fn before_cross_steps(prefix: Seq<char>) -> Seq<OpData> {
    seq![
        OpData::Add,
        OpData::Duplicate,
        layer_norm(prefix + ".norm2"@),
    ]
}

/// Adds the steps of [`before_cross_steps`] to a program.
pub fn before_cross(program: &mut Vec<Op>, prefix: &str)
    ensures
        graph::steps(final(program)@) == graph::steps(old(program)@) + before_cross_steps(prefix@),
{
    put(program, Op::Add);
    put(program, Op::Duplicate);
    put(
        program,
        Op::Apply(Layer::LayerNorm { prefix: named(prefix, ".norm2"), epsilon: layers::EPSILON_5 }),
    );
    proof {
        assert(
            graph::steps(program@) =~= graph::steps(old(program)@) + before_cross_steps(prefix@)
        );
    }
}

/// How these steps change the numbers of tensors.
pub proof fn lemma_before_cross(inputs: bool, prefix: Seq<char>, level: Level)
    requires
        level.stack >= 2,
    ensures
        graph::leads(
            inputs,
            before_cross_steps(prefix),
            level,
            (Level { stack: level.stack + 0, skips: level.skips }),
        ),
{
    reveal_with_fuel(graph::levels, 4);
}

/// The gated projection at the end of a transformer block.
pub open spec fn feed_forward_steps(prefix: Seq<char>) -> Seq<OpData> {
    seq![
        OpData::Add,
        OpData::Duplicate,
        layer_norm(prefix + ".norm3"@),
        linear(prefix + ".ff.net.0.proj"@),
        plain(LayerData::Geglu),
        linear(prefix + ".ff.net.2"@),
        OpData::Add,
    ]
}

/// Adds the steps of [`feed_forward_steps`] to a program.
pub fn feed_forward(program: &mut Vec<Op>, prefix: &str)
    ensures
        graph::steps(final(program)@) == graph::steps(old(program)@) + feed_forward_steps(prefix@),
{
    put(program, Op::Add);
    put(program, Op::Duplicate);
    put(
        program,
        Op::Apply(Layer::LayerNorm { prefix: named(prefix, ".norm3"), epsilon: layers::EPSILON_5 }),
    );
    put(program, Op::Apply(Layer::Linear { prefix: named(prefix, ".ff.net.0.proj") }));
    put(program, Op::Apply(Layer::Geglu));
    put(program, Op::Apply(Layer::Linear { prefix: named(prefix, ".ff.net.2") }));
    put(program, Op::Add);
    proof {
        assert(
            graph::steps(program@) =~= graph::steps(old(program)@) + feed_forward_steps(prefix@)
        );
    }
}

/// How these steps change the numbers of tensors.
pub proof fn lemma_feed_forward(inputs: bool, prefix: Seq<char>, level: Level)
    requires
        level.stack >= 2,
    ensures
        graph::leads(
            inputs,
            feed_forward_steps(prefix),
            level,
            (Level { stack: level.stack + -1, skips: level.skips }),
        ),
{
    reveal_with_fuel(graph::levels, 8);
}

/// An image as a sequence, projected by a convolution.
pub open spec fn conv_entry_steps(prefix: Seq<char>) -> Seq<OpData> {
    seq![
        OpData::Duplicate,
        group_norm(prefix + ".norm"@, layers::EPSILON_6),
        conv(prefix + ".proj_in"@, 1, 0),
        plain(LayerData::Sequence),
    ]
}

/// Adds the steps of [`conv_entry_steps`] to a program.
pub fn conv_entry(program: &mut Vec<Op>, prefix: &str)
    ensures
        graph::steps(final(program)@) == graph::steps(old(program)@) + conv_entry_steps(prefix@),
{
    put(program, Op::Duplicate);
    put(
        program,
        Op::Apply(Layer::GroupNorm { prefix: named(prefix, ".norm"), epsilon: layers::EPSILON_6 }),
    );
    put(
        program,
        Op::Apply(Layer::Conv { prefix: named(prefix, ".proj_in"), stride: 1, padding: 0 }),
    );
    put(program, Op::Apply(Layer::Sequence));
    proof {
        assert(graph::steps(program@) =~= graph::steps(old(program)@) + conv_entry_steps(prefix@));
    }
}

/// How these steps change the numbers of tensors.
pub proof fn lemma_conv_entry(inputs: bool, prefix: Seq<char>, level: Level)
    requires
        level.stack >= 1,
    ensures
        graph::leads(
            inputs,
            conv_entry_steps(prefix),
            level,
            (Level { stack: level.stack + 1, skips: level.skips }),
        ),
{
    reveal_with_fuel(graph::levels, 5);
}

/// A sequence as an image, projected by a convolution and added to the residual.
pub open spec fn conv_exit_steps(prefix: Seq<char>) -> Seq<OpData> {
    seq![
        OpData::Image,
        conv(prefix + ".proj_out"@, 1, 0),
        OpData::Add,
    ]
}

/// Adds the steps of [`conv_exit_steps`] to a program.
pub fn conv_exit(program: &mut Vec<Op>, prefix: &str)
    ensures
        graph::steps(final(program)@) == graph::steps(old(program)@) + conv_exit_steps(prefix@),
{
    put(program, Op::Image);
    put(
        program,
        Op::Apply(Layer::Conv { prefix: named(prefix, ".proj_out"), stride: 1, padding: 0 }),
    );
    put(program, Op::Add);
    proof {
        assert(graph::steps(program@) =~= graph::steps(old(program)@) + conv_exit_steps(prefix@));
    }
}

/// How these steps change the numbers of tensors.
pub proof fn lemma_conv_exit(inputs: bool, prefix: Seq<char>, level: Level)
    requires
        level.stack >= 2,
    ensures
        graph::leads(
            inputs,
            conv_exit_steps(prefix),
            level,
            (Level { stack: level.stack + -1, skips: level.skips }),
        ),
{
    reveal_with_fuel(graph::levels, 4);
}

/// An image as a sequence, projected linearly.
pub open spec fn linear_entry_steps(prefix: Seq<char>) -> Seq<OpData> {
    seq![
        OpData::Duplicate,
        group_norm(prefix + ".norm"@, layers::EPSILON_6),
        plain(LayerData::Sequence),
        linear(prefix + ".proj_in"@),
    ]
}

/// Adds the steps of [`linear_entry_steps`] to a program.
pub fn linear_entry(program: &mut Vec<Op>, prefix: &str)
    ensures
        graph::steps(final(program)@) == graph::steps(old(program)@) + linear_entry_steps(prefix@),
{
    put(program, Op::Duplicate);
    put(
        program,
        Op::Apply(Layer::GroupNorm { prefix: named(prefix, ".norm"), epsilon: layers::EPSILON_6 }),
    );
    put(program, Op::Apply(Layer::Sequence));
    put(program, Op::Apply(Layer::Linear { prefix: named(prefix, ".proj_in") }));
    proof {
        assert(
            graph::steps(program@) =~= graph::steps(old(program)@) + linear_entry_steps(prefix@)
        );
    }
}

/// How these steps change the numbers of tensors.
pub proof fn lemma_linear_entry(inputs: bool, prefix: Seq<char>, level: Level)
    requires
        level.stack >= 1,
    ensures
        graph::leads(
            inputs,
            linear_entry_steps(prefix),
            level,
            (Level { stack: level.stack + 1, skips: level.skips }),
        ),
{
    reveal_with_fuel(graph::levels, 5);
}

/// A sequence, projected linearly, as an image that is added to the residual.
pub open spec fn linear_exit_steps(prefix: Seq<char>) -> Seq<OpData> {
    seq![
        linear(prefix + ".proj_out"@),
        OpData::Image,
        OpData::Add,
    ]
}

/// Adds the steps of [`linear_exit_steps`] to a program.
pub fn linear_exit(program: &mut Vec<Op>, prefix: &str)
    ensures
        graph::steps(final(program)@) == graph::steps(old(program)@) + linear_exit_steps(prefix@),
{
    put(program, Op::Apply(Layer::Linear { prefix: named(prefix, ".proj_out") }));
    put(program, Op::Image);
    put(program, Op::Add);
    proof {
        assert(graph::steps(program@) =~= graph::steps(old(program)@) + linear_exit_steps(prefix@));
    }
}

/// How these steps change the numbers of tensors.
pub proof fn lemma_linear_exit(inputs: bool, prefix: Seq<char>, level: Level)
    requires
        level.stack >= 2,
    ensures
        graph::leads(
            inputs,
            linear_exit_steps(prefix),
            level,
            (Level { stack: level.stack + -1, skips: level.skips }),
        ),
{
    reveal_with_fuel(graph::levels, 4);
}

/// Attention of the positions of an image to each other, with one head.
pub open spec fn image_attention_steps(prefix: Seq<char>) -> Seq<OpData> {
    seq![
        OpData::Duplicate,
        group_norm(prefix + ".group_norm"@, layers::EPSILON_6),
        plain(LayerData::Sequence),
        OpData::Duplicate,
        linear(prefix + ".to_q"@),
        OpData::Swap,
        OpData::Duplicate,
        linear(prefix + ".to_k"@),
        OpData::Swap,
        linear(prefix + ".to_v"@),
        OpData::Rotate,
        OpData::OneHead,
        OpData::Rotate,
        OpData::OneHead,
        OpData::Rotate,
        OpData::OneHead,
        OpData::Attention { causal: false },
        plain(LayerData::Merge),
        linear(prefix + ".to_out.0"@),
        OpData::Image,
        OpData::Add,
    ]
}

/// Adds the steps of [`image_attention_steps`] to a program.
pub fn image_attention(program: &mut Vec<Op>, prefix: &str)
    ensures
        graph::steps(
            final(program)@,
        ) == graph::steps(old(program)@) + image_attention_steps(prefix@),
{
    put(program, Op::Duplicate);
    put(
        program,
        Op::Apply(
            Layer::GroupNorm { prefix: named(prefix, ".group_norm"), epsilon: layers::EPSILON_6 },
        ),
    );
    put(program, Op::Apply(Layer::Sequence));
    put(program, Op::Duplicate);
    put(program, Op::Apply(Layer::Linear { prefix: named(prefix, ".to_q") }));
    put(program, Op::Swap);
    put(program, Op::Duplicate);
    put(program, Op::Apply(Layer::Linear { prefix: named(prefix, ".to_k") }));
    put(program, Op::Swap);
    put(program, Op::Apply(Layer::Linear { prefix: named(prefix, ".to_v") }));
    put(program, Op::Rotate);
    put(program, Op::OneHead);
    put(program, Op::Rotate);
    put(program, Op::OneHead);
    put(program, Op::Rotate);
    put(program, Op::OneHead);
    put(program, Op::Attention { causal: false });
    put(program, Op::Apply(Layer::Merge));
    put(program, Op::Apply(Layer::Linear { prefix: named(prefix, ".to_out.0") }));
    put(program, Op::Image);
    put(program, Op::Add);
    proof {
        assert(
            graph::steps(program@) =~= graph::steps(old(program)@) + image_attention_steps(prefix@)
        );
    }
}

/// How these steps change the numbers of tensors.
pub proof fn lemma_image_attention(inputs: bool, prefix: Seq<char>, level: Level)
    requires
        level.stack >= 1,
    ensures
        graph::leads(
            inputs,
            image_attention_steps(prefix),
            level,
            (Level { stack: level.stack + 0, skips: level.skips }),
        ),
{
    reveal_with_fuel(graph::levels, 22);
}

/// Causal attention of a text to itself, added to the text.
pub open spec fn text_attention_steps(
    prefix: Seq<char>,
    hidden: usize,
    heads: usize,
) -> Seq<OpData> {
    seq![
        OpData::Duplicate,
        text_norm(prefix + ".layer_norm1"@),
        OpData::Duplicate,
        text_linear(prefix + ".self_attn.q_proj"@),
        plain(LayerData::TextRows { hidden }),
        plain(LayerData::Split { heads }),
        OpData::Swap,
        OpData::Duplicate,
        text_linear(prefix + ".self_attn.k_proj"@),
        plain(LayerData::TextRows { hidden }),
        plain(LayerData::Split { heads }),
        OpData::Swap,
        text_linear(prefix + ".self_attn.v_proj"@),
        plain(LayerData::TextRows { hidden }),
        plain(LayerData::Split { heads }),
        OpData::Attention { causal: true },
        plain(LayerData::Merge),
        text_linear(prefix + ".self_attn.out_proj"@),
        OpData::Add,
    ]
}

/// Adds the steps of [`text_attention_steps`] to a program.
pub fn text_attention(program: &mut Vec<Op>, prefix: &str, hidden: usize, heads: usize)
    ensures
        graph::steps(final(program)@) == graph::steps(old(program)@) + text_attention_steps(
            prefix@,
            hidden,
            heads,
        ),
{
    put(program, Op::Duplicate);
    put(
        program,
        Op::Apply(
            Layer::TextNorm { prefix: named(prefix, ".layer_norm1"), epsilon: layers::EPSILON_5 },
        ),
    );
    put(program, Op::Duplicate);
    put(program, Op::Apply(Layer::TextLinear { prefix: named(prefix, ".self_attn.q_proj") }));
    put(program, Op::Apply(Layer::TextRows { hidden }));
    put(program, Op::Apply(Layer::Split { heads }));
    put(program, Op::Swap);
    put(program, Op::Duplicate);
    put(program, Op::Apply(Layer::TextLinear { prefix: named(prefix, ".self_attn.k_proj") }));
    put(program, Op::Apply(Layer::TextRows { hidden }));
    put(program, Op::Apply(Layer::Split { heads }));
    put(program, Op::Swap);
    put(program, Op::Apply(Layer::TextLinear { prefix: named(prefix, ".self_attn.v_proj") }));
    put(program, Op::Apply(Layer::TextRows { hidden }));
    put(program, Op::Apply(Layer::Split { heads }));
    put(program, Op::Attention { causal: true });
    put(program, Op::Apply(Layer::Merge));
    put(program, Op::Apply(Layer::TextLinear { prefix: named(prefix, ".self_attn.out_proj") }));
    put(program, Op::Add);
    proof {
        assert(
            graph::steps(program@) =~= graph::steps(old(program)@) + text_attention_steps(
                prefix@,
                hidden,
                heads,
            )
        );
    }
}

/// How these steps change the numbers of tensors.
pub proof fn lemma_text_attention(
    inputs: bool,
    prefix: Seq<char>,
    hidden: usize,
    heads: usize,
    level: Level,
)
    requires
        level.stack >= 1,
    ensures
        graph::leads(
            inputs,
            text_attention_steps(prefix, hidden, heads),
            level,
            (Level { stack: level.stack + 0, skips: level.skips }),
        ),
{
    reveal_with_fuel(graph::levels, 20);
}

/// The projections at the end of a text layer, with the exact activation.
pub open spec fn text_exact_steps(prefix: Seq<char>) -> Seq<OpData> {
    seq![
        OpData::Duplicate,
        text_norm(prefix + ".layer_norm2"@),
        text_linear(prefix + ".mlp.fc1"@),
        plain(LayerData::Gelu),
        text_linear(prefix + ".mlp.fc2"@),
        OpData::Add,
    ]
}

/// Adds the steps of [`text_exact_steps`] to a program.
pub fn text_exact(program: &mut Vec<Op>, prefix: &str)
    ensures
        graph::steps(final(program)@) == graph::steps(old(program)@) + text_exact_steps(prefix@),
{
    put(program, Op::Duplicate);
    put(
        program,
        Op::Apply(
            Layer::TextNorm { prefix: named(prefix, ".layer_norm2"), epsilon: layers::EPSILON_5 },
        ),
    );
    put(program, Op::Apply(Layer::TextLinear { prefix: named(prefix, ".mlp.fc1") }));
    put(program, Op::Apply(Layer::Gelu));
    put(program, Op::Apply(Layer::TextLinear { prefix: named(prefix, ".mlp.fc2") }));
    put(program, Op::Add);
    proof {
        assert(graph::steps(program@) =~= graph::steps(old(program)@) + text_exact_steps(prefix@));
    }
}

/// How these steps change the numbers of tensors.
pub proof fn lemma_text_exact(inputs: bool, prefix: Seq<char>, level: Level)
    requires
        level.stack >= 1,
    ensures
        graph::leads(
            inputs,
            text_exact_steps(prefix),
            level,
            (Level { stack: level.stack + 0, skips: level.skips }),
        ),
{
    reveal_with_fuel(graph::levels, 7);
}

/// The projections at the end of a text layer, with the quick activation.
pub open spec fn text_quick_steps(prefix: Seq<char>) -> Seq<OpData> {
    seq![
        OpData::Duplicate,
        text_norm(prefix + ".layer_norm2"@),
        text_linear(prefix + ".mlp.fc1"@),
        plain(LayerData::QuickGelu),
        text_linear(prefix + ".mlp.fc2"@),
        OpData::Add,
    ]
}

/// Adds the steps of [`text_quick_steps`] to a program.
pub fn text_quick(program: &mut Vec<Op>, prefix: &str)
    ensures
        graph::steps(final(program)@) == graph::steps(old(program)@) + text_quick_steps(prefix@),
{
    put(program, Op::Duplicate);
    put(
        program,
        Op::Apply(
            Layer::TextNorm { prefix: named(prefix, ".layer_norm2"), epsilon: layers::EPSILON_5 },
        ),
    );
    put(program, Op::Apply(Layer::TextLinear { prefix: named(prefix, ".mlp.fc1") }));
    put(program, Op::Apply(Layer::QuickGelu));
    put(program, Op::Apply(Layer::TextLinear { prefix: named(prefix, ".mlp.fc2") }));
    put(program, Op::Add);
    proof {
        assert(graph::steps(program@) =~= graph::steps(old(program)@) + text_quick_steps(prefix@));
    }
}

/// How these steps change the numbers of tensors.
pub proof fn lemma_text_quick(inputs: bool, prefix: Seq<char>, level: Level)
    requires
        level.stack >= 1,
    ensures
        graph::leads(
            inputs,
            text_quick_steps(prefix),
            level,
            (Level { stack: level.stack + 0, skips: level.skips }),
        ),
{
    reveal_with_fuel(graph::levels, 7);
}

/// A residual block with a time embedding.
pub open spec fn timed_resnet_steps(prefix: Seq<char>) -> Seq<OpData> {
    timed_head_steps(prefix) + tail_steps(prefix, layers::EPSILON_5)
}

/// Adds a residual block with a time embedding to a program.
pub fn timed_resnet(program: &mut Vec<Op>, prefix: &str)
    ensures
        graph::steps(final(program)@) == graph::steps(old(program)@) + timed_resnet_steps(prefix@),
{
    timed_head(program, prefix);
    tail(program, prefix, layers::EPSILON_5);
    proof {
        assert(graph::steps(program@) =~= graph::steps(old(program)@) + timed_resnet_steps(
            prefix@,
        ));
    }
}

/// A residual block changes no number of tensors.
pub proof fn lemma_timed_resnet(prefix: Seq<char>, level: Level)
    requires
        level.stack >= 1,
    ensures
        graph::leads(true, timed_resnet_steps(prefix), level, level),
{
    let middle = Level { stack: level.stack + 1, skips: level.skips };
    lemma_timed_head(prefix, level);
    lemma_tail(true, prefix, layers::EPSILON_5, middle);
    graph::lemma_leads(
        true,
        timed_head_steps(prefix),
        tail_steps(prefix, layers::EPSILON_5),
        level,
        middle,
        level,
    );
}

/// A residual block.
pub open spec fn resnet_steps(prefix: Seq<char>, epsilon: u32) -> Seq<OpData> {
    head_steps(prefix, epsilon) + tail_steps(prefix, epsilon)
}

/// Adds a residual block to a program.
pub fn resnet(program: &mut Vec<Op>, prefix: &str, epsilon: u32)
    ensures
        graph::steps(final(program)@) == graph::steps(old(program)@) + resnet_steps(
            prefix@,
            epsilon,
        ),
{
    head(program, prefix, epsilon);
    tail(program, prefix, epsilon);
    proof {
        assert(graph::steps(program@) =~= graph::steps(old(program)@) + resnet_steps(
            prefix@,
            epsilon,
        ));
    }
}

/// A residual block changes no number of tensors.
pub proof fn lemma_resnet(inputs: bool, prefix: Seq<char>, epsilon: u32, level: Level)
    requires
        level.stack >= 1,
    ensures
        graph::leads(inputs, resnet_steps(prefix, epsilon), level, level),
{
    let middle = Level { stack: level.stack + 1, skips: level.skips };
    lemma_head(inputs, prefix, epsilon, level);
    lemma_tail(inputs, prefix, epsilon, middle);
    graph::lemma_leads(
        inputs,
        head_steps(prefix, epsilon),
        tail_steps(prefix, epsilon),
        level,
        middle,
        level,
    );
}

/// A transformer block: attention of a sequence to itself, attention to the text context, and a
/// gated projection, each added to the sequence.
pub open spec fn block_steps(prefix: Seq<char>, heads: usize) -> Seq<OpData> {
    before_self_steps(prefix) + self_attention_steps(prefix + ".attn1"@, heads)
        + before_cross_steps(prefix) + cross_attention_steps(prefix + ".attn2"@, heads)
        + feed_forward_steps(prefix)
}

/// Adds a transformer block to a program.
pub fn block(program: &mut Vec<Op>, prefix: &str, heads: usize)
    ensures
        graph::steps(final(program)@) == graph::steps(old(program)@) + block_steps(prefix@, heads),
{
    before_self(program, prefix);
    self_attention(program, named(prefix, ".attn1").as_str(), heads);
    before_cross(program, prefix);
    cross_attention(program, named(prefix, ".attn2").as_str(), heads);
    feed_forward(program, prefix);
    proof {
        assert(
            graph::steps(program@) =~= graph::steps(old(program)@) + block_steps(prefix@, heads)
        );
    }
}

/// A transformer block changes no number of tensors.
pub proof fn lemma_block(prefix: Seq<char>, heads: usize, level: Level)
    requires
        level.stack >= 1,
    ensures
        graph::leads(true, block_steps(prefix, heads), level, level),
{
    let middle = Level { stack: level.stack + 1, skips: level.skips };
    let a = before_self_steps(prefix);
    let b = self_attention_steps(prefix + ".attn1"@, heads);
    let c = before_cross_steps(prefix);
    let d = cross_attention_steps(prefix + ".attn2"@, heads);
    lemma_before_self(true, prefix, level);
    lemma_self_attention(true, prefix + ".attn1"@, heads, middle);
    lemma_before_cross(true, prefix, middle);
    lemma_cross_attention(prefix + ".attn2"@, heads, middle);
    lemma_feed_forward(true, prefix, middle);
    graph::lemma_leads(true, a, b, level, middle, middle);
    graph::lemma_leads(true, a + b, c, level, middle, middle);
    graph::lemma_leads(true, a + b + c, d, level, middle, middle);
    graph::lemma_leads(true, a + b + c + d, feed_forward_steps(prefix), level, middle, level);
}

/// The name of a transformer block.
pub open spec fn block_name(prefix: Seq<char>, index: int) -> Seq<char> {
    prefix + ".transformer_blocks."@ + text::decimal(index as nat)
}

/// The first `depth` transformer blocks.
pub open spec fn blocks_steps(prefix: Seq<char>, heads: usize, depth: int) -> Seq<OpData>
    decreases depth,
{
    if depth <= 0 {
        Seq::empty()
    } else {
        blocks_steps(prefix, heads, depth - 1) + block_steps(block_name(prefix, depth - 1), heads)
    }
}

/// Transformer blocks change no number of tensors.
pub proof fn lemma_blocks(prefix: Seq<char>, heads: usize, depth: int, level: Level)
    requires
        level.stack >= 1,
    ensures
        graph::leads(true, blocks_steps(prefix, heads, depth), level, level),
    decreases depth,
{
    if depth > 0 {
        lemma_blocks(prefix, heads, depth - 1, level);
        lemma_block(block_name(prefix, depth - 1), heads, level);
        graph::lemma_leads(
            true,
            blocks_steps(prefix, heads, depth - 1),
            block_steps(block_name(prefix, depth - 1), heads),
            level,
            level,
            level,
        );
    }
}

/// A transformer on the positions of an image, with convolutions or linear projections at its
/// ends.
pub open spec fn transformer_steps(
    prefix: Seq<char>,
    heads: usize,
    depth: usize,
    projected: bool,
) -> Seq<OpData> {
    (if projected {
        linear_entry_steps(prefix)
    } else {
        conv_entry_steps(prefix)
    }) + blocks_steps(prefix, heads, depth as int) + (if projected {
        linear_exit_steps(prefix)
    } else {
        conv_exit_steps(prefix)
    })
}

/// Adds a transformer to a program.
pub fn transformer(
    program: &mut Vec<Op>,
    prefix: &str,
    heads: usize,
    depth: usize,
    projected: bool,
)
    ensures
        graph::steps(final(program)@) == graph::steps(old(program)@) + transformer_steps(
            prefix@,
            heads,
            depth,
            projected,
        ),
{
    if projected {
        linear_entry(program, prefix);
    } else {
        conv_entry(program, prefix);
    }
    let ghost entered = graph::steps(program@);
    proof {
        assert(entered + blocks_steps(prefix@, heads, 0) =~= entered);
    }
    let base = named(prefix, ".transformer_blocks.");
    let mut index: usize = 0;
    while index < depth
        invariant
            index <= depth,
            base@ == prefix@ + ".transformer_blocks."@,
            graph::steps(program@) == entered + blocks_steps(prefix@, heads, index as int),
        decreases depth - index,
    {
        block(program, numbered(base.as_str(), index).as_str(), heads);
        proof {
            assert(graph::steps(program@) =~= entered + blocks_steps(prefix@, heads, index + 1));
        }
        index = index + 1;
    }
    if projected {
        linear_exit(program, prefix);
    } else {
        conv_exit(program, prefix);
    }
    proof {
        assert(graph::steps(program@) =~= graph::steps(old(program)@) + transformer_steps(
            prefix@,
            heads,
            depth,
            projected,
        ));
    }
}

/// A transformer changes no number of tensors.
pub proof fn lemma_transformer(
    prefix: Seq<char>,
    heads: usize,
    depth: usize,
    projected: bool,
    level: Level,
)
    requires
        level.stack >= 1,
    ensures
        graph::leads(true, transformer_steps(prefix, heads, depth, projected), level, level),
{
    let middle = Level { stack: level.stack + 1, skips: level.skips };
    let entry = if projected {
        linear_entry_steps(prefix)
    } else {
        conv_entry_steps(prefix)
    };
    let exit = if projected {
        linear_exit_steps(prefix)
    } else {
        conv_exit_steps(prefix)
    };
    let blocks = blocks_steps(prefix, heads, depth as int);
    lemma_linear_entry(true, prefix, level);
    lemma_conv_entry(true, prefix, level);
    lemma_blocks(prefix, heads, depth as int, middle);
    lemma_linear_exit(true, prefix, middle);
    lemma_conv_exit(true, prefix, middle);
    graph::lemma_leads(true, entry, blocks, level, middle, middle);
    graph::lemma_leads(true, entry + blocks, exit, level, middle, level);
}

} // verus!
