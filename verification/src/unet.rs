//! The conditional U-Nets of the two model families, as programs.

use vstd::prelude::*;
use crate::blocks;
use crate::blocks::{named, numbered, put, timed_resnet, transformer};
use crate::graph;
use crate::graph::{GraphError, GraphFault, Level, Op, OpData};
use crate::layers;
use crate::layers::{Layer, LayerData};
use crate::sd_scheduler::SchedulerError;
use crate::tensor::same_dims;
use crate::tensor_error::{TensorError, TensorFault};
use crate::text;
use crate::text::{push_bracketed, push_usize};

verus! {

broadcast use vstd::string::group_string_axioms;

/// The two U-Nets.
#[derive(Clone, Copy, Debug, PartialEq, Eq, Structural)]
pub enum UnetModel {
    Sd15,
    Sdxl,
}

impl UnetModel {
    /// The number of resolutions.
    pub open spec fn level_count(self) -> usize {
        match self {
            UnetModel::Sd15 => 4,
            UnetModel::Sdxl => 3,
        }
    }

    /// Whether the blocks of a resolution attend to the text.
    pub open spec fn attends_at(self, level: int) -> bool {
        match self {
            UnetModel::Sd15 => level < 3,
            UnetModel::Sdxl => level > 0,
        }
    }

    /// The number of transformer blocks of a resolution.
    pub open spec fn depth_at(self, level: int) -> usize {
        match self {
            UnetModel::Sd15 => 1,
            UnetModel::Sdxl => if level == 0 {
                1
            } else if level == 1 {
                2
            } else {
                10
            },
        }
    }

    /// The number of attention heads of a resolution.
    pub open spec fn heads_at(self, level: int) -> usize {
        match self {
            UnetModel::Sd15 => 8,
            UnetModel::Sdxl => if level == 0 {
                5
            } else if level == 1 {
                10
            } else {
                20
            },
        }
    }

    /// Whether the transformers project linearly.
    pub open spec fn projects_linearly(self) -> bool {
        self == UnetModel::Sdxl
    }

    /// The number of resolutions.
    pub fn levels(self) -> (count: usize)
        ensures
            count == self.level_count(),
    {
        match self {
            UnetModel::Sd15 => 4,
            UnetModel::Sdxl => 3,
        }
    }

    /// Whether the blocks of a resolution attend to the text.
    pub fn attends(self, level: usize) -> (attends: bool)
        ensures
            attends == self.attends_at(level as int),
    {
        match self {
            UnetModel::Sd15 => level < 3,
            UnetModel::Sdxl => level > 0,
        }
    }

    /// The number of transformer blocks of a resolution.
    pub fn depth(self, level: usize) -> (depth: usize)
        ensures
            depth == self.depth_at(level as int),
    {
        match self {
            UnetModel::Sd15 => 1,
            UnetModel::Sdxl => if level == 0 {
                1
            } else if level == 1 {
                2
            } else {
                10
            },
        }
    }

    /// The number of attention heads of a resolution.
    pub fn heads(self, level: usize) -> (heads: usize)
        ensures
            heads == self.heads_at(level as int),
    {
        match self {
            UnetModel::Sd15 => 8,
            UnetModel::Sdxl => if level == 0 {
                5
            } else if level == 1 {
                10
            } else {
                20
            },
        }
    }
}

/// Why a U-Net does not predict noise.
#[derive(Clone, Debug, PartialEq, Eq)]
#[allow(inconsistent_fields)]
pub enum UnetError {
    SampleRank,
    SampleShape { shape: Vec<usize> },
    ContextShape { batch: usize, shape: Vec<usize> },
    PooledLength { len: usize },
    Schedule(SchedulerError),
    Tensor(TensorError),
    Graph(GraphError),
}

/// What a [`UnetError`] says, with shapes as sequences.
#[allow(inconsistent_fields)]
pub enum UnetFault {
    SampleRank,
    SampleShape { shape: Seq<usize> },
    ContextShape { batch: usize, shape: Seq<usize> },
    PooledLength { len: usize },
    Schedule(SchedulerError),
    Tensor(TensorFault),
    Graph(GraphFault),
}

impl View for UnetError {
    type V = UnetFault;

    open spec fn view(&self) -> UnetFault {
        match *self {
            UnetError::SampleRank => UnetFault::SampleRank,
            UnetError::SampleShape { shape } => UnetFault::SampleShape { shape: shape@ },
            UnetError::ContextShape { batch, shape } => UnetFault::ContextShape {
                batch,
                shape: shape@,
            },
            UnetError::PooledLength { len } => UnetFault::PooledLength { len },
            UnetError::Schedule(error) => UnetFault::Schedule(error),
            UnetError::Tensor(error) => UnetFault::Tensor(error@),
            UnetError::Graph(error) => UnetFault::Graph(error@),
        }
    }
}

impl UnetModel {
    /// What the messages call the model.
    pub open spec fn title(self) -> Seq<char> {
        match self {
            UnetModel::Sd15 => "SD1.5"@,
            UnetModel::Sdxl => "SDXL"@,
        }
    }

    /// The width of the text context.
    pub open spec fn context_width(self) -> usize {
        match self {
            UnetModel::Sd15 => 768,
            UnetModel::Sdxl => 2048,
        }
    }

    /// What the messages call the model.
    fn name(self) -> (name: &'static str)
        ensures
            name@ == self.title(),
    {
        match self {
            UnetModel::Sd15 => "SD1.5",
            UnetModel::Sdxl => "SDXL",
        }
    }

    /// The width of the text context.
    fn width(self) -> (width: usize)
        ensures
            width == self.context_width(),
    {
        match self {
            UnetModel::Sd15 => 768,
            UnetModel::Sdxl => 2048,
        }
    }
}

impl UnetFault {
    /// The message for people.
    pub open spec fn text(self, model: UnetModel) -> Seq<char> {
        match self {
            UnetFault::SampleRank => model.title() + " UNet sample must be NCHW"@,
            UnetFault::SampleShape { shape } => model.title()
                + " UNet sample must be [B, 4, H, W] with H/W divisible by 8, got "@
                + text::bracketed(shape),
            UnetFault::ContextShape { batch, shape } => model.title() + " UNet context must be ["@
                + text::decimal(batch as nat) + ", 77, "@ + text::decimal(
                model.context_width() as nat,
            ) + "], got "@ + text::bracketed(shape),
            UnetFault::PooledLength { len } =>
                "SDXL pooled text embedding must have 1280 elements, got "@ + text::decimal(
                len as nat,
            ),
            UnetFault::Schedule(error) => error.text(),
            UnetFault::Tensor(fault) => fault.text(),
            UnetFault::Graph(fault) => fault.text(),
        }
    }
}

impl UnetError {
    /// The message for people.
    pub fn message(&self, model: UnetModel) -> (message: String)
        ensures
            message@ == self@.text(model),
    {
        let mut out = String::new();
        match self {
            UnetError::SampleRank => {
                out.append(model.name());
                out.append(" UNet sample must be NCHW");
            },
            UnetError::SampleShape { shape } => {
                out.append(model.name());
                out.append(" UNet sample must be [B, 4, H, W] with H/W divisible by 8, got ");
                push_bracketed(&mut out, shape);
            },
            UnetError::ContextShape { batch, shape } => {
                out.append(model.name());
                out.append(" UNet context must be [");
                push_usize(&mut out, *batch);
                out.append(", 77, ");
                push_usize(&mut out, model.width());
                out.append("], got ");
                push_bracketed(&mut out, shape);
            },
            UnetError::PooledLength { len } => {
                out.append("SDXL pooled text embedding must have 1280 elements, got ");
                push_usize(&mut out, *len);
            },
            UnetError::Schedule(error) => {
                return error.message();
            },
            UnetError::Tensor(error) => {
                return error.message();
            },
            UnetError::Graph(error) => {
                return error.message();
            },
        }
        out
    }
}

/// Why a U-Net refuses its inputs, if it does.
pub open spec fn input_refusal(
    model: UnetModel,
    sample: Seq<usize>,
    context: Seq<usize>,
    pooled: nat,
) -> Option<UnetFault> {
    if sample.len() != 4 {
        Some(UnetFault::SampleRank)
    } else if sample[1] != 4 || sample[2] < 8 || sample[3] < 8 || sample[2] % 8 != 0 || sample[3]
        % 8 != 0 {
        Some(UnetFault::SampleShape { shape: sample })
    } else if context != seq![sample[0], 77usize, model.context_width()] {
        Some(UnetFault::ContextShape { batch: sample[0], shape: context })
    } else if model == UnetModel::Sdxl && pooled != 1280 {
        Some(UnetFault::PooledLength { len: pooled as usize })
    } else {
        None
    }
}

/// Refuses inputs that the U-Net cannot work on.
pub fn check_inputs(model: UnetModel, sample: &[usize], context: &[usize], pooled: usize) -> (result:
    Result<usize, UnetError>)
    ensures
        match input_refusal(model, sample@, context@, pooled as nat) {
            Some(fault) => result is Err && result->Err_0@ == fault,
            None => result == Ok::<usize, UnetError>(sample@[0]),
        },
{
    assert(sample@.len() == sample.len());
    if sample.len() != 4 {
        return Err(UnetError::SampleRank);
    }
    if sample[1] != 4 || sample[2] < 8 || sample[3] < 8 || sample[2] % 8 != 0 || sample[3] % 8
        != 0 {
        return Err(UnetError::SampleShape { shape: vstd::slice::slice_to_vec(sample) });
    }
    let expected: [usize; 3] = [sample[0], 77, model.width()];
    assert(expected@ =~= seq![sample@[0], 77usize, model.context_width()]);
    if !same_dims(context, &expected) {
        return Err(
            UnetError::ContextShape {
                batch: sample[0],
                shape: vstd::slice::slice_to_vec(context),
            },
        );
    }
    if model == UnetModel::Sdxl && pooled != 1280 {
        return Err(UnetError::PooledLength { len: pooled });
    }
    Ok(sample[0])
}

/// The name of a part of a block: its base, the block's number, the kind of part, and the part's
/// number.
pub open spec fn part(base: Seq<char>, block: int, kind: Seq<char>, index: int) -> Seq<char> {
    base + text::decimal(block as nat) + kind + text::decimal(index as nat)
}

/// The name of a part of a block.
pub fn part_name(base: &str, block: usize, kind: &str, index: usize) -> (name: String)
    ensures
        name@ == part(base@, block as int, kind@, index as int),
{
    let with_block = numbered(base, block);
    let with_kind = named(with_block.as_str(), kind);
    numbered(with_kind.as_str(), index)
}

/// A mark for the beginning of a group of weights, where the model has one here.
pub open spec fn stage_steps(here: bool) -> Seq<OpData> {
    if here {
        seq![OpData::Stage]
    } else {
        Seq::empty()
    }
}

/// Marks the beginning of a group of weights, where the model has one here.
pub fn begin_weight_stage(program: &mut Vec<Op>, here: bool)
    ensures
        graph::steps(final(program)@) == graph::steps(old(program)@) + stage_steps(here),
{
    if here {
        put(program, Op::Stage);
    }
    proof {
        assert(graph::steps(program@) =~= graph::steps(old(program)@) + stage_steps(here));
    }
}

/// A mark changes no number of tensors.
proof fn lemma_stage(here: bool, level: Level)
    requires
        level.stack >= 0,
    ensures
        graph::leads(true, stage_steps(here), level, level),
{
    reveal_with_fuel(graph::levels, 2);
}

/// A residual block, and a transformer where the resolution has one.
pub open spec fn layer_steps(
    model: UnetModel,
    base: Seq<char>,
    block: int,
    level: int,
    index: int,
) -> Seq<OpData> {
    blocks::timed_resnet_steps(part(base, block, ".resnets."@, index)) + (if model.attends_at(
        level,
    ) {
        blocks::transformer_steps(
            part(base, block, ".attentions."@, index),
            model.heads_at(level),
            model.depth_at(level),
            model.projects_linearly(),
        )
    } else {
        Seq::empty()
    })
}

/// Adds a residual block, and a transformer where the resolution has one.
fn layer(
    program: &mut Vec<Op>,
    model: UnetModel,
    base: &str,
    block: usize,
    level: usize,
    index: usize,
)
    ensures
        graph::steps(final(program)@) == graph::steps(old(program)@) + layer_steps(
            model,
            base@,
            block as int,
            level as int,
            index as int,
        ),
{
    timed_resnet(program, part_name(base, block, ".resnets.", index).as_str());
    if model.attends(level) {
        transformer(
            program,
            part_name(base, block, ".attentions.", index).as_str(),
            model.heads(level),
            model.depth(level),
            model == UnetModel::Sdxl,
        );
    }
    proof {
        assert(graph::steps(program@) =~= graph::steps(old(program)@) + layer_steps(
            model,
            base@,
            block as int,
            level as int,
            index as int,
        ));
    }
}

/// A layer changes no number of tensors.
proof fn lemma_layer(
    model: UnetModel,
    base: Seq<char>,
    block: int,
    level: int,
    index: int,
    numbers: Level,
)
    requires
        numbers.stack >= 1,
    ensures
        graph::leads(true, layer_steps(model, base, block, level, index), numbers, numbers),
{
    let first = blocks::timed_resnet_steps(part(base, block, ".resnets."@, index));
    blocks::lemma_timed_resnet(part(base, block, ".resnets."@, index), numbers);
    if model.attends_at(level) {
        let second = blocks::transformer_steps(
            part(base, block, ".attentions."@, index),
            model.heads_at(level),
            model.depth_at(level),
            model.projects_linearly(),
        );
        blocks::lemma_transformer(
            part(base, block, ".attentions."@, index),
            model.heads_at(level),
            model.depth_at(level),
            model.projects_linearly(),
            numbers,
        );
        graph::lemma_leads(true, first, second, numbers, numbers, numbers);
    } else {
        assert(first + Seq::empty() =~= first);
    }
}

/// The name under which a block changes the resolution.
pub open spec fn sampler(base: Seq<char>, block: int, kind: Seq<char>) -> Seq<char> {
    base + text::decimal(block as nat) + kind
}

/// A layer on the way down; its result is kept.
pub open spec fn down_layer_steps(model: UnetModel, level: int, index: int) -> Seq<OpData> {
    stage_steps(model == UnetModel::Sdxl) + layer_steps(
        model,
        "down_blocks."@,
        level,
        level,
        index,
    ) + seq![OpData::Save]
}

/// Adds a layer on the way down.
fn down_layer(program: &mut Vec<Op>, model: UnetModel, level: usize, index: usize)
    ensures
        graph::steps(final(program)@) == graph::steps(old(program)@) + down_layer_steps(
            model,
            level as int,
            index as int,
        ),
{
    begin_weight_stage(program, model == UnetModel::Sdxl);
    layer(program, model, "down_blocks.", level, level, index);
    put(program, Op::Save);
    proof {
        assert(graph::steps(program@) =~= graph::steps(old(program)@) + down_layer_steps(
            model,
            level as int,
            index as int,
        ));
    }
}

/// A layer on the way down keeps one tensor.
proof fn lemma_down_layer(model: UnetModel, level: int, index: int, numbers: Level)
    requires
        numbers.stack >= 1,
    ensures
        graph::leads(
            true,
            down_layer_steps(model, level, index),
            numbers,
            (Level { stack: numbers.stack, skips: numbers.skips + 1 }),
        ),
{
    let a = stage_steps(model == UnetModel::Sdxl);
    let b = layer_steps(model, "down_blocks."@, level, level, index);
    let after = Level { stack: numbers.stack, skips: numbers.skips + 1 };
    lemma_stage(model == UnetModel::Sdxl, numbers);
    lemma_layer(model, "down_blocks."@, level, level, index, numbers);
    graph::lemma_leads(true, a, b, numbers, numbers, numbers);
    assert(graph::leads(true, seq![OpData::Save], numbers, after)) by {
        reveal_with_fuel(graph::levels, 2);
    }
    graph::lemma_leads(true, a + b, seq![OpData::Save], numbers, numbers, after);
}

/// The way from one resolution to the next lower one; the result is kept.
pub open spec fn shrink_steps(model: UnetModel, level: int) -> Seq<OpData> {
    if level + 1 < model.level_count() {
        seq![
            blocks::conv(sampler("down_blocks."@, level, ".downsamplers.0.conv"@), 2, 1),
            OpData::Save,
        ]
    } else {
        Seq::empty()
    }
}

/// The blocks of one resolution on the way down.
pub open spec fn down_level_steps(model: UnetModel, level: int) -> Seq<OpData> {
    stage_steps(model == UnetModel::Sd15) + down_layer_steps(model, level, 0) + down_layer_steps(
        model,
        level,
        1,
    ) + shrink_steps(model, level)
}

/// Adds the blocks of one resolution on the way down.
fn down_level(program: &mut Vec<Op>, model: UnetModel, level: usize)
    requires
        level < 4,
    ensures
        graph::steps(final(program)@) == graph::steps(old(program)@) + down_level_steps(
            model,
            level as int,
        ),
{
    begin_weight_stage(program, model == UnetModel::Sd15);
    down_layer(program, model, level, 0);
    down_layer(program, model, level, 1);
    let ghost before = graph::steps(program@);
    if level + 1 < model.levels() {
        let block = numbered("down_blocks.", level);
        let prefix = named(block.as_str(), ".downsamplers.0.conv");
        put(program, Op::Apply(Layer::Conv { prefix, stride: 2, padding: 1 }));
        put(program, Op::Save);
    }
    proof {
        assert(graph::steps(program@) =~= before + shrink_steps(model, level as int));
        assert(graph::steps(program@) =~= graph::steps(old(program)@) + down_level_steps(
            model,
            level as int,
        ));
    }
}

/// The number of tensors kept by the first `count` resolutions.
pub open spec fn kept(model: UnetModel, count: int) -> int {
    if count < model.level_count() {
        3 * count
    } else {
        3 * model.level_count() - 1
    }
}

/// The blocks of one resolution keep two tensors, or three where a lower resolution follows.
proof fn lemma_down_level(model: UnetModel, level: int, numbers: Level)
    requires
        numbers.stack >= 1,
        0 <= level < model.level_count(),
    ensures
        graph::leads(
            true,
            down_level_steps(model, level),
            numbers,
            (Level {
                stack: numbers.stack,
                skips: numbers.skips + kept(model, level + 1) - kept(model, level),
            }),
        ),
{
    let a = stage_steps(model == UnetModel::Sd15);
    let b = down_layer_steps(model, level, 0);
    let c = down_layer_steps(model, level, 1);
    let d = shrink_steps(model, level);
    let one = Level { stack: numbers.stack, skips: numbers.skips + 1 };
    let two = Level { stack: numbers.stack, skips: numbers.skips + 2 };
    let after = Level {
        stack: numbers.stack,
        skips: numbers.skips + kept(model, level + 1) - kept(model, level),
    };
    lemma_stage(model == UnetModel::Sd15, numbers);
    lemma_down_layer(model, level, 0, numbers);
    lemma_down_layer(model, level, 1, one);
    assert(graph::leads(true, d, two, after)) by {
        reveal_with_fuel(graph::levels, 3);
    }
    graph::lemma_leads(true, a, b, numbers, numbers, one);
    graph::lemma_leads(true, a + b, c, numbers, one, two);
    graph::lemma_leads(true, a + b + c, d, numbers, two, after);
}

/// The first `count` resolutions on the way down.
pub open spec fn down_steps(model: UnetModel, count: int) -> Seq<OpData>
    decreases count,
{
    if count <= 0 {
        Seq::empty()
    } else {
        down_steps(model, count - 1) + down_level_steps(model, count - 1)
    }
}

/// The way down keeps the tensors counted by [`kept`].
proof fn lemma_down(model: UnetModel, count: int, numbers: Level)
    requires
        numbers.stack >= 1,
        0 <= count <= model.level_count(),
    ensures
        graph::leads(
            true,
            down_steps(model, count),
            numbers,
            (Level { stack: numbers.stack, skips: numbers.skips + kept(model, count) }),
        ),
    decreases count,
{
    if count > 0 {
        let middle = Level {
            stack: numbers.stack,
            skips: numbers.skips + kept(model, count - 1),
        };
        lemma_down(model, count - 1, numbers);
        lemma_down_level(model, count - 1, middle);
        graph::lemma_leads(
            true,
            down_steps(model, count - 1),
            down_level_steps(model, count - 1),
            numbers,
            middle,
            Level { stack: numbers.stack, skips: numbers.skips + kept(model, count) },
        );
    }
}

/// The blocks of the lowest resolution.
pub open spec fn mid_steps(model: UnetModel) -> Seq<OpData> {
    stage_steps(true) + blocks::timed_resnet_steps("mid_block.resnets.0"@)
        + blocks::transformer_steps(
        "mid_block.attentions.0"@,
        model.heads_at(2),
        model.depth_at(2),
        model.projects_linearly(),
    ) + stage_steps(model == UnetModel::Sdxl) + blocks::timed_resnet_steps("mid_block.resnets.1"@)
}

/// Adds the blocks of the lowest resolution.
fn mid(program: &mut Vec<Op>, model: UnetModel)
    ensures
        graph::steps(final(program)@) == graph::steps(old(program)@) + mid_steps(model),
{
    begin_weight_stage(program, true);
    timed_resnet(program, "mid_block.resnets.0");
    transformer(
        program,
        "mid_block.attentions.0",
        model.heads(2),
        model.depth(2),
        model == UnetModel::Sdxl,
    );
    begin_weight_stage(program, model == UnetModel::Sdxl);
    timed_resnet(program, "mid_block.resnets.1");
    proof {
        assert(graph::steps(program@) =~= graph::steps(old(program)@) + mid_steps(model));
    }
}

/// The blocks of the lowest resolution change no number of tensors.
proof fn lemma_mid(model: UnetModel, numbers: Level)
    requires
        numbers.stack >= 1,
    ensures
        graph::leads(true, mid_steps(model), numbers, numbers),
{
    let a = stage_steps(true);
    let b = blocks::timed_resnet_steps("mid_block.resnets.0"@);
    let c = blocks::transformer_steps(
        "mid_block.attentions.0"@,
        model.heads_at(2),
        model.depth_at(2),
        model.projects_linearly(),
    );
    let d = stage_steps(model == UnetModel::Sdxl);
    let e = blocks::timed_resnet_steps("mid_block.resnets.1"@);
    lemma_stage(true, numbers);
    blocks::lemma_timed_resnet("mid_block.resnets.0"@, numbers);
    blocks::lemma_transformer(
        "mid_block.attentions.0"@,
        model.heads_at(2),
        model.depth_at(2),
        model.projects_linearly(),
        numbers,
    );
    lemma_stage(model == UnetModel::Sdxl, numbers);
    blocks::lemma_timed_resnet("mid_block.resnets.1"@, numbers);
    graph::lemma_leads(true, a, b, numbers, numbers, numbers);
    graph::lemma_leads(true, a + b, c, numbers, numbers, numbers);
    graph::lemma_leads(true, a + b + c, d, numbers, numbers, numbers);
    graph::lemma_leads(true, a + b + c + d, e, numbers, numbers, numbers);
}

/// A layer on the way up; it starts with a tensor kept on the way down.
pub open spec fn up_layer_steps(model: UnetModel, up: int, index: int) -> Seq<OpData> {
    stage_steps(model == UnetModel::Sdxl) + seq![OpData::Join] + layer_steps(
        model,
        "up_blocks."@,
        up,
        model.level_count() - 1 - up,
        index,
    )
}

/// Adds a layer on the way up.
fn up_layer(program: &mut Vec<Op>, model: UnetModel, up: usize, index: usize)
    requires
        up < model.level_count(),
    ensures
        graph::steps(final(program)@) == graph::steps(old(program)@) + up_layer_steps(
            model,
            up as int,
            index as int,
        ),
{
    begin_weight_stage(program, model == UnetModel::Sdxl);
    put(program, Op::Join);
    layer(program, model, "up_blocks.", up, model.levels() - 1 - up, index);
    proof {
        assert(graph::steps(program@) =~= graph::steps(old(program)@) + up_layer_steps(
            model,
            up as int,
            index as int,
        ));
    }
}

/// A layer on the way up uses one kept tensor.
proof fn lemma_up_layer(model: UnetModel, up: int, index: int, numbers: Level)
    requires
        numbers.stack >= 1,
        numbers.skips >= 1,
    ensures
        graph::leads(
            true,
            up_layer_steps(model, up, index),
            numbers,
            (Level { stack: numbers.stack, skips: numbers.skips - 1 }),
        ),
{
    let a = stage_steps(model == UnetModel::Sdxl);
    let b = layer_steps(model, "up_blocks."@, up, model.level_count() - 1 - up, index);
    let after = Level { stack: numbers.stack, skips: numbers.skips - 1 };
    lemma_stage(model == UnetModel::Sdxl, numbers);
    assert(graph::leads(true, seq![OpData::Join], numbers, after)) by {
        reveal_with_fuel(graph::levels, 2);
    }
    lemma_layer(model, "up_blocks."@, up, model.level_count() - 1 - up, index, after);
    graph::lemma_leads(true, a, seq![OpData::Join], numbers, numbers, after);
    graph::lemma_leads(true, a + seq![OpData::Join], b, numbers, after, after);
}

/// The way from one resolution to the next higher one.
pub open spec fn grow_steps(model: UnetModel, up: int) -> Seq<OpData> {
    if up + 1 < model.level_count() {
        seq![
            OpData::Apply(LayerData::Upsample),
            blocks::conv(sampler("up_blocks."@, up, ".upsamplers.0.conv"@), 1, 1),
        ]
    } else {
        Seq::empty()
    }
}

/// The blocks of one resolution on the way up.
pub open spec fn up_level_steps(model: UnetModel, up: int) -> Seq<OpData> {
    stage_steps(model == UnetModel::Sd15) + up_layer_steps(model, up, 0) + up_layer_steps(
        model,
        up,
        1,
    ) + up_layer_steps(model, up, 2) + grow_steps(model, up)
}

/// Adds the blocks of one resolution on the way up.
fn up_level(program: &mut Vec<Op>, model: UnetModel, up: usize)
    requires
        up < model.level_count(),
    ensures
        graph::steps(final(program)@) == graph::steps(old(program)@) + up_level_steps(
            model,
            up as int,
        ),
{
    begin_weight_stage(program, model == UnetModel::Sd15);
    up_layer(program, model, up, 0);
    up_layer(program, model, up, 1);
    up_layer(program, model, up, 2);
    let ghost before = graph::steps(program@);
    if up + 1 < model.levels() {
        let block = numbered("up_blocks.", up);
        let prefix = named(block.as_str(), ".upsamplers.0.conv");
        put(program, Op::Apply(Layer::Upsample));
        put(program, Op::Apply(Layer::Conv { prefix, stride: 1, padding: 1 }));
    }
    proof {
        assert(graph::steps(program@) =~= before + grow_steps(model, up as int));
        let start = graph::steps(old(program)@);
        let a = stage_steps(model == UnetModel::Sd15);
        let b = up_layer_steps(model, up as int, 0);
        let c = up_layer_steps(model, up as int, 1);
        let d = up_layer_steps(model, up as int, 2);
        graph::lemma_joined(start, a, b);
        graph::lemma_joined(start, a + b, c);
        graph::lemma_joined(start, a + b + c, d);
        graph::lemma_joined(start, a + b + c + d, grow_steps(model, up as int));
    }
}

/// The blocks of one resolution on the way up use three kept tensors.
proof fn lemma_up_level(model: UnetModel, up: int, numbers: Level)
    requires
        numbers.stack >= 1,
        numbers.skips >= 3,
    ensures
        graph::leads(
            true,
            up_level_steps(model, up),
            numbers,
            (Level { stack: numbers.stack, skips: numbers.skips - 3 }),
        ),
{
    let a = stage_steps(model == UnetModel::Sd15);
    let b = up_layer_steps(model, up, 0);
    let c = up_layer_steps(model, up, 1);
    let d = up_layer_steps(model, up, 2);
    let e = grow_steps(model, up);
    let one = Level { stack: numbers.stack, skips: numbers.skips - 1 };
    let two = Level { stack: numbers.stack, skips: numbers.skips - 2 };
    let three = Level { stack: numbers.stack, skips: numbers.skips - 3 };
    lemma_stage(model == UnetModel::Sd15, numbers);
    lemma_up_layer(model, up, 0, numbers);
    lemma_up_layer(model, up, 1, one);
    lemma_up_layer(model, up, 2, two);
    assert(graph::leads(true, e, three, three)) by {
        reveal_with_fuel(graph::levels, 3);
    }
    graph::lemma_leads(true, a, b, numbers, numbers, one);
    graph::lemma_leads(true, a + b, c, numbers, one, two);
    graph::lemma_leads(true, a + b + c, d, numbers, two, three);
    graph::lemma_leads(true, a + b + c + d, e, numbers, three, three);
}

/// The first `count` resolutions on the way up.
pub open spec fn up_steps(model: UnetModel, count: int) -> Seq<OpData>
    decreases count,
{
    if count <= 0 {
        Seq::empty()
    } else {
        up_steps(model, count - 1) + up_level_steps(model, count - 1)
    }
}

/// The way up uses three kept tensors for each resolution.
proof fn lemma_up(model: UnetModel, count: int, numbers: Level)
    requires
        numbers.stack >= 1,
        count >= 0,
        numbers.skips >= 3 * count,
    ensures
        graph::leads(
            true,
            up_steps(model, count),
            numbers,
            (Level { stack: numbers.stack, skips: numbers.skips - 3 * count }),
        ),
    decreases count,
{
    if count > 0 {
        let middle = Level { stack: numbers.stack, skips: numbers.skips - 3 * (count - 1) };
        lemma_up(model, count - 1, numbers);
        lemma_up_level(model, count - 1, middle);
        graph::lemma_leads(
            true,
            up_steps(model, count - 1),
            up_level_steps(model, count - 1),
            numbers,
            middle,
            Level { stack: numbers.stack, skips: numbers.skips - 3 * count },
        );
    }
}

/// The first convolution; its result is kept.
pub open spec fn entry_steps() -> Seq<OpData> {
    seq![blocks::conv("conv_in"@, 1, 1), OpData::Save]
}

/// The normalization and the convolution at the end.
pub open spec fn exit_steps() -> Seq<OpData> {
    seq![
        OpData::Stage,
        blocks::group_norm("conv_norm_out"@, layers::EPSILON_5),
        OpData::Apply(LayerData::Silu),
        blocks::conv("conv_out"@, 1, 1),
    ]
}

/// The whole network.
pub open spec fn unet_steps(model: UnetModel) -> Seq<OpData> {
    entry_steps() + down_steps(model, model.level_count() as int) + mid_steps(model) + up_steps(
        model,
        model.level_count() as int,
    ) + exit_steps()
}

/// The U-Net uses every tensor that it keeps on its way down, each on its way up, and never asks
/// for one that is not there.
pub proof fn skips_are_used_up(model: UnetModel)
    ensures
        graph::balanced(true, unet_steps(model)),
{
    let n = model.level_count() as int;
    let start = Level { stack: 1, skips: 0 };
    let one = Level { stack: 1, skips: 1 };
    let full = Level { stack: 1, skips: 3 * n };
    let a = entry_steps();
    let b = down_steps(model, n);
    let c = mid_steps(model);
    let d = up_steps(model, n);
    let e = exit_steps();
    assert(graph::leads(true, a, start, one)) by {
        reveal_with_fuel(graph::levels, 3);
    }
    lemma_down(model, n, one);
    lemma_mid(model, full);
    lemma_up(model, n, full);
    assert(graph::leads(true, e, start, start)) by {
        reveal_with_fuel(graph::levels, 5);
    }
    graph::lemma_leads(true, a, b, start, one, full);
    graph::lemma_leads(true, a + b, c, start, full, full);
    graph::lemma_leads(true, a + b + c, d, start, full, start);
    graph::lemma_leads(true, a + b + c + d, e, start, start, start);
}

/// Adds the first convolution.
fn entry(program: &mut Vec<Op>)
    ensures
        graph::steps(final(program)@) == graph::steps(old(program)@) + entry_steps(),
{
    put(program, Op::Apply(Layer::Conv { prefix: "conv_in".to_owned(), stride: 1, padding: 1 }));
    put(program, Op::Save);
    proof {
        assert(graph::steps(program@) =~= graph::steps(old(program)@) + entry_steps());
    }
}

/// Adds the normalization and the convolution at the end.
fn exit(program: &mut Vec<Op>)
    ensures
        graph::steps(final(program)@) == graph::steps(old(program)@) + exit_steps(),
{
    put(program, Op::Stage);
    put(
        program,
        Op::Apply(
            Layer::GroupNorm { prefix: "conv_norm_out".to_owned(), epsilon: layers::EPSILON_5 },
        ),
    );
    put(program, Op::Apply(Layer::Silu));
    put(program, Op::Apply(Layer::Conv { prefix: "conv_out".to_owned(), stride: 1, padding: 1 }));
    proof {
        assert(graph::steps(program@) =~= graph::steps(old(program)@) + exit_steps());
    }
}

/// Adds the way down.
fn down(program: &mut Vec<Op>, model: UnetModel)
    ensures
        graph::steps(final(program)@) == graph::steps(old(program)@) + down_steps(
            model,
            model.level_count() as int,
        ),
{
    let ghost start = graph::steps(program@);
    let levels: usize = model.levels();
    proof {
        assert(start + down_steps(model, 0) =~= start);
    }
    let mut level: usize = 0;
    while level < levels
        invariant
            level <= levels <= 4,
            graph::steps(program@) == start + down_steps(model, level as int),
        decreases levels - level,
    {
        down_level(program, model, level);
        proof {
            graph::lemma_joined(
                start,
                down_steps(model, level as int),
                down_level_steps(model, level as int),
            );
        }
        level = level + 1;
    }
}

/// Adds the way up.
fn up(program: &mut Vec<Op>, model: UnetModel)
    ensures
        graph::steps(final(program)@) == graph::steps(old(program)@) + up_steps(
            model,
            model.level_count() as int,
        ),
{
    let ghost start = graph::steps(program@);
    let levels: usize = model.levels();
    proof {
        assert(start + up_steps(model, 0) =~= start);
    }
    let mut index: usize = 0;
    while index < levels
        invariant
            index <= levels,
            levels == model.level_count(),
            graph::steps(program@) == start + up_steps(model, index as int),
        decreases levels - index,
    {
        up_level(program, model, index);
        proof {
            graph::lemma_joined(
                start,
                up_steps(model, index as int),
                up_level_steps(model, index as int),
            );
        }
        index = index + 1;
    }
}

/// The whole network as a program.
pub fn unet_program(model: UnetModel) -> (program: Vec<Op>)
    ensures
        graph::steps(program@) == unet_steps(model),
{
    let mut program: Vec<Op> = Vec::new();
    let ghost none = graph::steps(program@);
    entry(&mut program);
    down(&mut program, model);
    mid(&mut program, model);
    up(&mut program, model);
    exit(&mut program);
    proof {
        assert(none + entry_steps() =~= entry_steps());
    }
    program
}

} // verus!
