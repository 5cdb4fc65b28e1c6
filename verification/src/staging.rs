//! Budgets for loading the weights of a U-Net group by group.

use vstd::prelude::*;
use crate::blocks::{named, numbered};
use crate::pack;
use crate::safetensors;
use crate::safetensors::SafeTensorFile;
use crate::text;
use crate::text::{chars_of, occurs_at};
use crate::unet;
use crate::unet::{part_name, UnetModel};

verus! {

broadcast use vstd::string::group_string_axioms;

/// A name starts with one of the prefixes.
pub open spec fn belongs(name: Seq<char>, prefixes: Seq<Seq<char>>) -> bool {
    exists|i: int| 0 <= i < prefixes.len() && text::occurs(name, #[trigger] prefixes[i], 0)
}

/// The number of bytes and of tensors of a group.
pub struct Tally {
    pub bytes: nat,
    pub count: nat,
}

/// The bytes and tensors of a list whose names belong to a group.
pub open spec fn tallied(list: pack::Listing, prefixes: Seq<Seq<char>>) -> Tally
    decreases list.len(),
{
    if list.len() == 0 {
        Tally { bytes: 0, count: 0 }
    } else {
        let before = tallied(list.drop_last(), prefixes);
        let (name, data) = list.last();
        if belongs(name, prefixes) {
            Tally { bytes: before.bytes + (data.end - data.start) as nat, count: before.count + 1 }
        } else {
            before
        }
    }
}

/// The greater of two numbers.
pub open spec fn greater(a: nat, b: nat) -> nat {
    if a > b {
        a
    } else {
        b
    }
}

/// The most bytes and the most tensors of the first `n` groups.
pub open spec fn largest(list: pack::Listing, stages: Seq<Seq<Seq<char>>>, n: int) -> Tally
    decreases n,
{
    if n <= 0 {
        Tally { bytes: 0, count: 0 }
    } else {
        let before = largest(list, stages, n - 1);
        let here = tallied(list, stages[n - 1]);
        Tally {
            bytes: greater(before.bytes, here.bytes),
            count: greater(before.count, here.count),
        }
    }
}

/// The room for the largest group and a quarter more, if any tensor belongs to a group.
pub open spec fn budget(list: pack::Listing, stages: Seq<Seq<Seq<char>>>) -> Option<(nat, nat)> {
    let most = largest(list, stages, stages.len() as int);
    if most.bytes == 0 {
        None
    } else {
        Some((most.bytes + most.bytes / 4, most.count + most.count / 4 + 1))
    }
}

/// What texts say.
pub open spec fn texts(names: Seq<String>) -> Seq<Seq<char>> {
    Seq::new(names.len(), |i: int| names[i]@)
}

/// What groups of texts say.
pub open spec fn groups(stages: Seq<Vec<String>>) -> Seq<Seq<Seq<char>>> {
    Seq::new(stages.len(), |i: int| texts(stages[i]@))
}

/// The groups of the first model.
pub open spec fn sd15_stages() -> Seq<Seq<Seq<char>>> {
    seq![seq!["conv_in"@, "time_embedding"@]] + Seq::new(
        4,
        |block: int| seq![unet::sampler("down_blocks."@, block, "."@)],
    ) + seq![seq!["mid_block."@]] + Seq::new(
        4,
        |block: int| seq![unet::sampler("up_blocks."@, block, "."@)],
    ) + seq![seq!["conv_norm_out"@, "conv_out"@]]
}

/// The two kinds of parts of a layer.
pub open spec fn layer_stage(base: Seq<char>, block: int, index: int) -> Seq<Seq<char>> {
    seq![
        unet::part(base, block, ".resnets."@, index),
        unet::part(base, block, ".attentions."@, index),
    ]
}

/// The groups of the first `count` resolutions on the way down.
pub open spec fn sdxl_down_stages(count: int) -> Seq<Seq<Seq<char>>>
    decreases count,
{
    if count <= 0 {
        Seq::empty()
    } else {
        let level = count - 1;
        sdxl_down_stages(level).push(layer_stage("down_blocks."@, level, 0)).push(
            layer_stage("down_blocks."@, level, 1),
        ) + (if level < 2 {
            seq![seq![unet::sampler("down_blocks."@, level, ".downsamplers.0.conv"@)]]
        } else {
            Seq::empty()
        })
    }
}

/// The groups of the first `count` resolutions on the way up.
pub open spec fn sdxl_up_stages(count: int) -> Seq<Seq<Seq<char>>>
    decreases count,
{
    if count <= 0 {
        Seq::empty()
    } else {
        let up = count - 1;
        sdxl_up_stages(up).push(layer_stage("up_blocks."@, up, 0)).push(
            layer_stage("up_blocks."@, up, 1),
        ).push(layer_stage("up_blocks."@, up, 2)) + (if up < 2 {
            seq![seq![unet::sampler("up_blocks."@, up, ".upsamplers.0.conv"@)]]
        } else {
            Seq::empty()
        })
    }
}

/// The groups of the second model.
pub open spec fn sdxl_stages() -> Seq<Seq<Seq<char>>> {
    seq![seq!["conv_in"@, "time_embedding"@, "add_embedding"@]] + sdxl_down_stages(3) + seq![
        seq!["mid_block.resnets.0"@, "mid_block.attentions.0"@],
        seq!["mid_block.resnets.1"@],
    ] + sdxl_up_stages(3) + seq![seq!["conv_norm_out"@, "conv_out"@]]
}

/// The groups of a model.
pub open spec fn stages(model: UnetModel) -> Seq<Seq<Seq<char>>> {
    match model {
        UnetModel::Sd15 => sd15_stages(),
        UnetModel::Sdxl => sdxl_stages(),
    }
}

/// Adds a group of names.
fn group(stages: &mut Vec<Vec<String>>, names: Vec<String>)
    ensures
        groups(final(stages)@) == groups(old(stages)@).push(texts(names@)),
{
    stages.push(names);
    proof {
        assert(groups(stages@) =~= groups(old(stages)@).push(texts(names@)));
    }
}

/// A group of one name.
fn one(name: String) -> (names: Vec<String>)
    ensures
        texts(names@) == seq![name@],
{
    let names: Vec<String> = vec![name];
    assert(texts(names@) =~= seq![name@]);
    names
}

/// A group of two names.
fn two(first: String, second: String) -> (names: Vec<String>)
    ensures
        texts(names@) == seq![first@, second@],
{
    let names: Vec<String> = vec![first, second];
    assert(texts(names@) =~= seq![first@, second@]);
    names
}

/// The groups of the first model.
fn sd15_stage_prefixes() -> (stages: Vec<Vec<String>>)
    ensures
        groups(stages@) == sd15_stages(),
{
    let mut stages: Vec<Vec<String>> = Vec::new();
    group(&mut stages, two("conv_in".to_owned(), "time_embedding".to_owned()));
    let ghost first = groups(stages@);
    assert(first =~= seq![seq!["conv_in"@, "time_embedding"@]]);
    let mut block: usize = 0;
    while block < 4
        invariant
            block <= 4,
            first == seq![seq!["conv_in"@, "time_embedding"@]],
            groups(stages@) == first + Seq::new(
                block as nat,
                |b: int| seq![unet::sampler("down_blocks."@, b, "."@)],
            ),
        decreases 4 - block,
    {
        group(&mut stages, one(named(numbered("down_blocks.", block).as_str(), ".")));
        proof {
            assert(groups(stages@) =~= first + Seq::new(
                (block + 1) as nat,
                |b: int| seq![unet::sampler("down_blocks."@, b, "."@)],
            ));
        }
        block = block + 1;
    }
    group(&mut stages, one("mid_block.".to_owned()));
    let ghost second = groups(stages@);
    let mut up: usize = 0;
    while up < 4
        invariant
            up <= 4,
            groups(stages@) == second + Seq::new(
                up as nat,
                |b: int| seq![unet::sampler("up_blocks."@, b, "."@)],
            ),
        decreases 4 - up,
    {
        group(&mut stages, one(named(numbered("up_blocks.", up).as_str(), ".")));
        proof {
            assert(groups(stages@) =~= second + Seq::new(
                (up + 1) as nat,
                |b: int| seq![unet::sampler("up_blocks."@, b, "."@)],
            ));
        }
        up = up + 1;
    }
    group(&mut stages, two("conv_norm_out".to_owned(), "conv_out".to_owned()));
    proof {
        assert(groups(stages@) =~= sd15_stages());
    }
    stages
}

/// Adds the parts of a layer as a group.
fn layer_group(stages: &mut Vec<Vec<String>>, base: &str, block: usize, index: usize)
    ensures
        groups(final(stages)@) == groups(old(stages)@).push(
            layer_stage(base@, block as int, index as int),
        ),
{
    group(
        stages,
        two(
            part_name(base, block, ".resnets.", index),
            part_name(base, block, ".attentions.", index),
        ),
    );
}

/// Adds the groups on the way down.
fn sdxl_down(stages: &mut Vec<Vec<String>>)
    ensures
        groups(final(stages)@) == groups(old(stages)@) + sdxl_down_stages(3),
{
    let ghost first = groups(stages@);
    assert(first + sdxl_down_stages(0) =~= first);
    let mut level: usize = 0;
    while level < 3
        invariant
            level <= 3,
            groups(stages@) == first + sdxl_down_stages(level as int),
        decreases 3 - level,
    {
        layer_group(stages, "down_blocks.", level, 0);
        layer_group(stages, "down_blocks.", level, 1);
        if level < 2 {
            group(
                stages,
                one(named(numbered("down_blocks.", level).as_str(), ".downsamplers.0.conv")),
            );
        }
        proof {
            assert(groups(stages@) =~= first + sdxl_down_stages(level + 1));
        }
        level = level + 1;
    }
}

/// Adds the groups on the way up.
fn sdxl_up(stages: &mut Vec<Vec<String>>)
    ensures
        groups(final(stages)@) == groups(old(stages)@) + sdxl_up_stages(3),
{
    let ghost first = groups(stages@);
    assert(first + sdxl_up_stages(0) =~= first);
    let mut up: usize = 0;
    while up < 3
        invariant
            up <= 3,
            groups(stages@) == first + sdxl_up_stages(up as int),
        decreases 3 - up,
    {
        layer_group(stages, "up_blocks.", up, 0);
        layer_group(stages, "up_blocks.", up, 1);
        layer_group(stages, "up_blocks.", up, 2);
        if up < 2 {
            group(stages, one(named(numbered("up_blocks.", up).as_str(), ".upsamplers.0.conv")));
        }
        proof {
            assert(groups(stages@) =~= first + sdxl_up_stages(up + 1));
        }
        up = up + 1;
    }
}

/// The groups of the second model.
fn sdxl_stage_prefixes() -> (stages: Vec<Vec<String>>)
    ensures
        groups(stages@) == sdxl_stages(),
{
    let mut stages: Vec<Vec<String>> = Vec::new();
    let names: Vec<String> = vec![
        "conv_in".to_owned(),
        "time_embedding".to_owned(),
        "add_embedding".to_owned(),
    ];
    assert(texts(names@) =~= seq!["conv_in"@, "time_embedding"@, "add_embedding"@]);
    group(&mut stages, names);
    sdxl_down(&mut stages);
    group(&mut stages, two("mid_block.resnets.0".to_owned(), "mid_block.attentions.0".to_owned()));
    group(&mut stages, one("mid_block.resnets.1".to_owned()));
    sdxl_up(&mut stages);
    group(&mut stages, two("conv_norm_out".to_owned(), "conv_out".to_owned()));
    proof {
        assert(groups(stages@) =~= sdxl_stages());
    }
    stages
}

/// The groups of weights of a model, each by the prefixes of its names.
pub fn stage_prefixes(model: UnetModel) -> (result: Vec<Vec<String>>)
    ensures
        groups(result@) == stages(model),
{
    match model {
        UnetModel::Sd15 => sd15_stage_prefixes(),
        UnetModel::Sdxl => sdxl_stage_prefixes(),
    }
}

/// Whether a name starts with one of the prefixes.
fn is_member(name: &str, prefixes: &Vec<String>) -> (member: bool)
    ensures
        member == belongs(name@, texts(prefixes@)),
{
    let chars = chars_of(name);
    let mut i: usize = 0;
    while i < prefixes.len()
        invariant
            i <= prefixes@.len(),
            chars@ == name@,
            forall|j: int| 0 <= j < i ==> !text::occurs(name@, #[trigger] texts(prefixes@)[j], 0),
        decreases prefixes@.len() - i,
    {
        let prefix = chars_of(prefixes[i].as_str());
        if occurs_at(&chars, &prefix, 0) {
            assert(text::occurs(name@, texts(prefixes@)[i as int], 0));
            return true;
        }
        i = i + 1;
    }
    false
}

/// The bytes of the tensors of the first `n` rows.
spec fn occupied(list: pack::Listing, n: int) -> Set<int>
    decreases n,
{
    if n <= 0 {
        Set::empty()
    } else {
        occupied(list, n - 1).union(
            vstd::set_lib::set_int_range(list[n - 1].1.start as int, list[n - 1].1.end as int),
        )
    }
}

/// The length of the tensors of the first `n` rows.
spec fn occupied_len(list: pack::Listing, n: int) -> int
    decreases n,
{
    if n <= 0 {
        0
    } else {
        occupied_len(list, n - 1) + (list[n - 1].1.end - list[n - 1].1.start)
    }
}

/// Tensors that share no byte occupy as many bytes as they are long.
proof fn lemma_occupied(list: pack::Listing, n: int, len: int)
    requires
        0 <= n <= list.len(),
        safetensors::disjoint(list),
        forall|i: int|
            0 <= i < list.len() ==> (#[trigger] list[i]).1.start <= list[i].1.end <= len,
    ensures
        occupied(list, n).finite(),
        occupied(list, n).len() == occupied_len(list, n),
        occupied(list, n).subset_of(vstd::set_lib::set_int_range(0, len)),
        forall|x: int|
            occupied(list, n).contains(x) ==> exists|i: int|
                0 <= i < n && (#[trigger] list[i]).1.start <= x < list[i].1.end,
    decreases n,
{
    if n > 0 {
        lemma_occupied(list, n - 1, len);
        let last = list[n - 1].1;
        let range = vstd::set_lib::set_int_range(last.start as int, last.end as int);
        vstd::set_lib::lemma_int_range(last.start as int, last.end as int);
        assert(occupied(list, n - 1).disjoint(range)) by {
            assert forall|x: int| occupied(list, n - 1).contains(x) implies !range.contains(x) by {
                let i = choose|i: int|
                    0 <= i < n - 1 && (#[trigger] list[i]).1.start <= x < list[i].1.end;
                assert(!list[i].1.overlaps(list[n - 1].1));
            }
        }
        vstd::set_lib::lemma_set_disjoint_lens(occupied(list, n - 1), range);
        assert forall|x: int| occupied(list, n).contains(x) implies exists|i: int|
            0 <= i < n && (#[trigger] list[i]).1.start <= x < list[i].1.end by {
            if occupied(list, n - 1).contains(x) {
                let i = choose|i: int|
                    0 <= i < n - 1 && (#[trigger] list[i]).1.start <= x < list[i].1.end;
                assert(list[i].1.start <= x < list[i].1.end);
            } else {
                assert(list[n - 1].1.start <= x < list[n - 1].1.end);
            }
        }
    }
}

/// A group has no more bytes than all tensors, and no more tensors than bytes.
proof fn lemma_tallied(list: pack::Listing, prefixes: Seq<Seq<char>>, n: int)
    requires
        0 <= n <= list.len(),
        forall|i: int| 0 <= i < list.len() ==> (#[trigger] list[i]).1.start < list[i].1.end,
    ensures
        tallied(list.take(n), prefixes).bytes <= occupied_len(list, n),
        tallied(list.take(n), prefixes).count <= tallied(list.take(n), prefixes).bytes,
    decreases n,
{
    if n > 0 {
        lemma_tallied(list, prefixes, n - 1);
        assert(list.take(n).drop_last() =~= list.take(n - 1));
        assert(list.take(n).last() == list[n - 1]);
    }
}

/// The tensors of a weight file are no longer together than the file, so no group is.
pub proof fn groups_fit_in_the_file(file: &SafeTensorFile, prefixes: Seq<Seq<char>>, n: int)
    requires
        file.wf(),
        0 <= n <= file.tensors().len(),
    ensures
        tallied(file.tensors().take(n), prefixes).bytes <= file.file().len(),
        tallied(file.tensors().take(n), prefixes).count <= file.file().len(),
{
    let list = file.tensors();
    let len = file.file().len() as int;
    assert forall|i: int| 0 <= i < list.len() implies (#[trigger] list[i]).1.start < list[i].1.end
        && list[i].1.end <= len by {
        file.tensors_fit(i, i);
        let data = list[i].1;
        assert(crate::layout::product(data.shape) * data.dtype.width() > 0) by (nonlinear_arith)
            requires
                crate::layout::product(data.shape) > 0,
                data.dtype.width() > 0,
        ;
    }
    assert(safetensors::disjoint(list)) by {
        assert forall|i: int, j: int|
            #![trigger list[i], list[j]]
            0 <= i < list.len() && 0 <= j < list.len() && i != j implies !list[i].1.overlaps(
            list[j].1,
        ) by {
            file.tensors_fit(i, j);
        }
    }
    lemma_occupied(list, n, len);
    vstd::set_lib::lemma_int_range(0, len);
    vstd::set_lib::lemma_len_subset(occupied(list, n), vstd::set_lib::set_int_range(0, len));
    lemma_tallied(list, prefixes, n);
}

/// The bytes and tensors of a group.
fn tally(file: &SafeTensorFile, prefixes: &Vec<String>) -> (result: (usize, usize))
    requires
        file.wf(),
        file.file().len() <= usize::MAX,
    ensures
        result.0 == tallied(file.tensors(), texts(prefixes@)).bytes,
        result.1 == tallied(file.tensors(), texts(prefixes@)).count,
{
    let ghost list = file.tensors();
    let ghost names = texts(prefixes@);
    let count: usize = file.tensor_count();
    let mut bytes: usize = 0;
    let mut members: usize = 0;
    let mut i: usize = 0;
    while i < count
        invariant
            i <= count,
            count == list.len(),
            list == file.tensors(),
            names == texts(prefixes@),
            file.wf(),
            file.file().len() <= usize::MAX,
            bytes == tallied(list.take(i as int), names).bytes,
            members == tallied(list.take(i as int), names).count,
        decreases count - i,
    {
        proof {
            groups_fit_in_the_file(file, names, i + 1);
            assert(list.take(i + 1).drop_last() =~= list.take(i as int));
            assert(list.take(i + 1).last() == list[i as int]);
            file.tensors_fit(i as int, i as int);
        }
        let (name, info) = file.tensor_at(i);
        if is_member(name, prefixes) {
            bytes = bytes + info.byte_len();
            members = members + 1;
        }
        i = i + 1;
    }
    proof {
        assert(list.take(count as int) =~= list);
    }
    (bytes, members)
}

/// No tensor of the file belongs to a group of the model.
#[derive(Clone, Copy, Debug, PartialEq, Eq, Structural)]
pub struct NoStage {
    pub model: UnetModel,
}

impl NoStage {
    /// The message for people.
    pub open spec fn text(self) -> Seq<char> {
        match self.model {
            UnetModel::Sd15 =>
                "could not size a staged-loading budget: no UNet tensors matched a known stage"@,
            UnetModel::Sdxl =>
                "could not size a staged-loading budget: no SDXL UNet tensors matched a known stage"@,
        }
    }

    /// The message for people.
    pub fn message(&self) -> (message: &'static str)
        ensures
            message@ == self.text(),
    {
        match self.model {
            UnetModel::Sd15 =>
                "could not size a staged-loading budget: no UNet tensors matched a known stage",
            UnetModel::Sdxl =>
                "could not size a staged-loading budget: no SDXL UNet tensors matched a known stage",
        }
    }
}

/// The bytes and the number of tensors that staged loading has to make room for: those of the
/// largest group, and a quarter more.
pub fn staged_loading_budget(model: UnetModel, weights: &SafeTensorFile) -> (result: Result<
    (usize, usize),
    NoStage,
>)
    requires
        weights.wf(),
        weights.file().len() + weights.file().len() / 4 < usize::MAX,
    ensures
        match budget(weights.tensors(), stages(model)) {
            Some((bytes, count)) => result is Ok && result->Ok_0.0 == bytes && result->Ok_0.1
                == count,
            None => result == Err::<(usize, usize), _>(NoStage { model }),
        },
{
    let prefixes = stage_prefixes(model);
    let ghost list = weights.tensors();
    let ghost all = stages(model);
    let mut max_bytes: usize = 0;
    let mut max_count: usize = 0;
    let mut i: usize = 0;
    while i < prefixes.len()
        invariant
            i <= prefixes@.len(),
            groups(prefixes@) == all,
            list == weights.tensors(),
            weights.wf(),
            weights.file().len() + weights.file().len() / 4 < usize::MAX,
            max_bytes == largest(list, all, i as int).bytes,
            max_count == largest(list, all, i as int).count,
            max_bytes <= weights.file().len(),
            max_count <= weights.file().len(),
        decreases prefixes@.len() - i,
    {
        let (bytes, count) = tally(weights, &prefixes[i]);
        proof {
            assert(all[i as int] == texts(prefixes@[i as int]@));
            groups_fit_in_the_file(weights, all[i as int], list.len() as int);
            assert(list.take(list.len() as int) =~= list);
        }
        if bytes > max_bytes {
            max_bytes = bytes;
        }
        if count > max_count {
            max_count = count;
        }
        i = i + 1;
    }
    if max_bytes == 0 {
        return Err(NoStage { model });
    }
    Ok((max_bytes + max_bytes / 4, max_count + max_count / 4 + 1))
}

} // verus!
