//! The Stable Diffusion 1.5 model pack.

use vstd::prelude::*;
use crate::clip_tokenizer::{ClipFault, ClipTokenizer};
use crate::config;
use crate::config::{check_rules, ConfigError, Constant, Expected, ExpectedData, Rule, RuleData};
use crate::fold;
use crate::json::Json;
use crate::layers::Kernels;
use crate::pack;
use crate::pack::{
    require_all_f16, require_count, require_root_counts, require_tensors, Requirement,
    RequirementData, WeightsError, WeightsFault,
};
use crate::pack_files;
use crate::pack_files::{
    check_config, check_special, load_tokenizer, load_weights, PackError, PackFault, PackFile,
};
use crate::safetensors;
use crate::safetensors::{DType, SafeTensorFile, Scalar};
use crate::sd_clip;
use crate::sd_unet;
use crate::sd_vae;
use crate::sd_vae::VaeError;
use crate::tensor::Tensor;
use crate::text;
use crate::text::push_usize;
use crate::text_encoder::EncoderError;
use crate::tiles::Blend;
use crate::unet;
use crate::unet::{UnetError, UnetModel};

verus! {

broadcast use vstd::string::group_string_axioms;

/// The number of tensors of the text encoder.
pub const TEXT_ENCODER_TENSORS: usize = 197;

/// The number of tensors of the UNet.
pub const UNET_TENSORS: usize = 686;

/// The number of tensors of the VAE.
pub const VAE_TENSORS: usize = 248;

/// A required tensor.
pub open spec fn required(name: Seq<char>, dtype: DType, shape: Seq<usize>) -> RequirementData {
    RequirementData { name, dtype, shape }
}

/// A required tensor.
pub(crate) fn require(name: &str, dtype: DType, shape: Vec<usize>) -> (requirement: Requirement)
    ensures
        requirement@ == required(name@, dtype, shape@),
{
    Requirement { name: name.to_owned(), dtype, shape }
}

/// What the model index must say.
pub open spec fn model_index_rules() -> Seq<RuleData> {
    seq![
        RuleData {
            pointer: "/_class_name"@,
            expected: ExpectedData::Text("StableDiffusionPipeline"@),
        },
        RuleData { pointer: "/text_encoder/1"@, expected: ExpectedData::Text("CLIPTextModel"@) },
        RuleData { pointer: "/tokenizer/1"@, expected: ExpectedData::Text("CLIPTokenizer"@) },
        RuleData { pointer: "/unet/1"@, expected: ExpectedData::Text("UNet2DConditionModel"@) },
        RuleData { pointer: "/vae/1"@, expected: ExpectedData::Text("AutoencoderKL"@) },
    ]
}

/// What the model index must say.
fn make_model_index_rules() -> (rules: Vec<Rule>)
    ensures
        config::rules_of(rules@) == model_index_rules(),
{
    let rules: Vec<Rule> = vec![
        Rule { pointer: "/_class_name", expected: Expected::Text("StableDiffusionPipeline") },
        Rule { pointer: "/text_encoder/1", expected: Expected::Text("CLIPTextModel") },
        Rule { pointer: "/tokenizer/1", expected: Expected::Text("CLIPTokenizer") },
        Rule { pointer: "/unet/1", expected: Expected::Text("UNet2DConditionModel") },
        Rule { pointer: "/vae/1", expected: Expected::Text("AutoencoderKL") },
    ];
    proof {
        assert(config::rules_of(rules@) =~~= model_index_rules());
    }
    rules
}

/// Checks a document against these rules.
pub fn validate_model_index(value: &Json) -> (result: Result<(), ConfigError>)
    ensures
        config::reports(result, config::first_fault(value@, model_index_rules())),
{
    check_rules(value, &make_model_index_rules())
}

/// What the configuration of the text encoder must say.
pub open spec fn text_config_rules() -> Seq<RuleData> {
    seq![
        RuleData { pointer: "/model_type"@, expected: ExpectedData::Text("clip_text_model"@) },
        RuleData { pointer: "/hidden_act"@, expected: ExpectedData::Text("quick_gelu"@) },
        RuleData { pointer: "/hidden_size"@, expected: ExpectedData::Number(768) },
        RuleData { pointer: "/intermediate_size"@, expected: ExpectedData::Number(3072) },
        RuleData { pointer: "/max_position_embeddings"@, expected: ExpectedData::Number(77) },
        RuleData { pointer: "/num_attention_heads"@, expected: ExpectedData::Number(12) },
        RuleData { pointer: "/num_hidden_layers"@, expected: ExpectedData::Number(12) },
        RuleData { pointer: "/vocab_size"@, expected: ExpectedData::Number(49408) },
        RuleData {
            pointer: "/layer_norm_eps"@,
            expected: ExpectedData::Near(Constant::NormEpsilon),
        },
    ]
}

/// What the configuration of the text encoder must say.
fn make_text_config_rules() -> (rules: Vec<Rule>)
    ensures
        config::rules_of(rules@) == text_config_rules(),
{
    let rules: Vec<Rule> = vec![
        Rule { pointer: "/model_type", expected: Expected::Text("clip_text_model") },
        Rule { pointer: "/hidden_act", expected: Expected::Text("quick_gelu") },
        Rule { pointer: "/hidden_size", expected: Expected::Number(768) },
        Rule { pointer: "/intermediate_size", expected: Expected::Number(3072) },
        Rule { pointer: "/max_position_embeddings", expected: Expected::Number(77) },
        Rule { pointer: "/num_attention_heads", expected: Expected::Number(12) },
        Rule { pointer: "/num_hidden_layers", expected: Expected::Number(12) },
        Rule { pointer: "/vocab_size", expected: Expected::Number(49408) },
        Rule { pointer: "/layer_norm_eps", expected: Expected::Near(Constant::NormEpsilon) },
    ];
    proof {
        assert(config::rules_of(rules@) =~~= text_config_rules());
    }
    rules
}

/// Checks a document against these rules.
pub fn validate_text_config(value: &Json) -> (result: Result<(), ConfigError>)
    ensures
        config::reports(result, config::first_fault(value@, text_config_rules())),
{
    check_rules(value, &make_text_config_rules())
}

/// What the configuration of the UNet must say.
pub open spec fn unet_config_rules() -> Seq<RuleData> {
    seq![
        RuleData {
            pointer: "/_class_name"@,
            expected: ExpectedData::Text("UNet2DConditionModel"@),
        },
        RuleData { pointer: "/act_fn"@, expected: ExpectedData::Text("silu"@) },
        RuleData { pointer: "/attention_head_dim"@, expected: ExpectedData::Number(8) },
        RuleData {
            pointer: "/block_out_channels"@,
            expected: ExpectedData::Numbers(seq![320u64, 640, 1280, 1280]),
        },
        RuleData { pointer: "/cross_attention_dim"@, expected: ExpectedData::Number(768) },
        RuleData { pointer: "/flip_sin_to_cos"@, expected: ExpectedData::Flag(true) },
        RuleData { pointer: "/in_channels"@, expected: ExpectedData::Number(4) },
        RuleData { pointer: "/layers_per_block"@, expected: ExpectedData::Number(2) },
        RuleData { pointer: "/norm_eps"@, expected: ExpectedData::Near(Constant::NormEpsilon) },
        RuleData { pointer: "/norm_num_groups"@, expected: ExpectedData::Number(32) },
        RuleData { pointer: "/out_channels"@, expected: ExpectedData::Number(4) },
        RuleData { pointer: "/sample_size"@, expected: ExpectedData::Number(64) },
    ]
}

/// What the configuration of the UNet must say.
fn make_unet_config_rules() -> (rules: Vec<Rule>)
    ensures
        config::rules_of(rules@) == unet_config_rules(),
{
    let rules: Vec<Rule> = vec![
        Rule { pointer: "/_class_name", expected: Expected::Text("UNet2DConditionModel") },
        Rule { pointer: "/act_fn", expected: Expected::Text("silu") },
        Rule { pointer: "/attention_head_dim", expected: Expected::Number(8) },
        Rule {
            pointer: "/block_out_channels",
            expected: Expected::Numbers(vec![320, 640, 1280, 1280]),
        },
        Rule { pointer: "/cross_attention_dim", expected: Expected::Number(768) },
        Rule { pointer: "/flip_sin_to_cos", expected: Expected::Flag(true) },
        Rule { pointer: "/in_channels", expected: Expected::Number(4) },
        Rule { pointer: "/layers_per_block", expected: Expected::Number(2) },
        Rule { pointer: "/norm_eps", expected: Expected::Near(Constant::NormEpsilon) },
        Rule { pointer: "/norm_num_groups", expected: Expected::Number(32) },
        Rule { pointer: "/out_channels", expected: Expected::Number(4) },
        Rule { pointer: "/sample_size", expected: Expected::Number(64) },
    ];
    proof {
        assert(config::rules_of(rules@) =~~= unet_config_rules());
    }
    rules
}

/// Checks a document against these rules.
pub fn validate_unet_config(value: &Json) -> (result: Result<(), ConfigError>)
    ensures
        config::reports(result, config::first_fault(value@, unet_config_rules())),
{
    check_rules(value, &make_unet_config_rules())
}

/// What the configuration of the VAE must say.
pub open spec fn vae_config_rules() -> Seq<RuleData> {
    seq![
        RuleData { pointer: "/_class_name"@, expected: ExpectedData::Text("AutoencoderKL"@) },
        RuleData { pointer: "/act_fn"@, expected: ExpectedData::Text("silu"@) },
        RuleData {
            pointer: "/block_out_channels"@,
            expected: ExpectedData::Numbers(seq![128u64, 256, 512, 512]),
        },
        RuleData { pointer: "/latent_channels"@, expected: ExpectedData::Number(4) },
        RuleData { pointer: "/layers_per_block"@, expected: ExpectedData::Number(2) },
        RuleData { pointer: "/norm_num_groups"@, expected: ExpectedData::Number(32) },
        RuleData { pointer: "/out_channels"@, expected: ExpectedData::Number(3) },
        RuleData { pointer: "/sample_size"@, expected: ExpectedData::Number(512) },
    ]
}

/// What the configuration of the VAE must say.
fn make_vae_config_rules() -> (rules: Vec<Rule>)
    ensures
        config::rules_of(rules@) == vae_config_rules(),
{
    let rules: Vec<Rule> = vec![
        Rule { pointer: "/_class_name", expected: Expected::Text("AutoencoderKL") },
        Rule { pointer: "/act_fn", expected: Expected::Text("silu") },
        Rule {
            pointer: "/block_out_channels",
            expected: Expected::Numbers(vec![128, 256, 512, 512]),
        },
        Rule { pointer: "/latent_channels", expected: Expected::Number(4) },
        Rule { pointer: "/layers_per_block", expected: Expected::Number(2) },
        Rule { pointer: "/norm_num_groups", expected: Expected::Number(32) },
        Rule { pointer: "/out_channels", expected: Expected::Number(3) },
        Rule { pointer: "/sample_size", expected: Expected::Number(512) },
    ];
    proof {
        assert(config::rules_of(rules@) =~~= vae_config_rules());
    }
    rules
}

/// Checks a document against these rules.
pub fn validate_vae_config(value: &Json) -> (result: Result<(), ConfigError>)
    ensures
        config::reports(result, config::first_fault(value@, vae_config_rules())),
{
    check_rules(value, &make_vae_config_rules())
}

/// What the configuration of the scheduler must say.
pub open spec fn scheduler_config_rules() -> Seq<RuleData> {
    seq![
        RuleData { pointer: "/_class_name"@, expected: ExpectedData::Text("PNDMScheduler"@) },
        RuleData { pointer: "/beta_schedule"@, expected: ExpectedData::Text("scaled_linear"@) },
        RuleData { pointer: "/beta_start"@, expected: ExpectedData::Near(Constant::BetaStart) },
        RuleData { pointer: "/beta_end"@, expected: ExpectedData::Near(Constant::BetaEnd) },
        RuleData { pointer: "/num_train_timesteps"@, expected: ExpectedData::Number(1000) },
        RuleData { pointer: "/set_alpha_to_one"@, expected: ExpectedData::Flag(false) },
        RuleData { pointer: "/skip_prk_steps"@, expected: ExpectedData::Flag(true) },
        RuleData { pointer: "/steps_offset"@, expected: ExpectedData::Number(1) },
    ]
}

/// What the configuration of the scheduler must say.
fn make_scheduler_config_rules() -> (rules: Vec<Rule>)
    ensures
        config::rules_of(rules@) == scheduler_config_rules(),
{
    let rules: Vec<Rule> = vec![
        Rule { pointer: "/_class_name", expected: Expected::Text("PNDMScheduler") },
        Rule { pointer: "/beta_schedule", expected: Expected::Text("scaled_linear") },
        Rule { pointer: "/beta_start", expected: Expected::Near(Constant::BetaStart) },
        Rule { pointer: "/beta_end", expected: Expected::Near(Constant::BetaEnd) },
        Rule { pointer: "/num_train_timesteps", expected: Expected::Number(1000) },
        Rule { pointer: "/set_alpha_to_one", expected: Expected::Flag(false) },
        Rule { pointer: "/skip_prk_steps", expected: Expected::Flag(true) },
        Rule { pointer: "/steps_offset", expected: Expected::Number(1) },
    ];
    proof {
        assert(config::rules_of(rules@) =~~= scheduler_config_rules());
    }
    rules
}

/// Checks a document against these rules.
pub fn validate_scheduler_config(value: &Json) -> (result: Result<(), ConfigError>)
    ensures
        config::reports(result, config::first_fault(value@, scheduler_config_rules())),
{
    check_rules(value, &make_scheduler_config_rules())
}

/// The tensors whose type and shape are checked in the UNet.
pub open spec fn unet_requirements() -> Seq<RequirementData> {
    seq![
        required("conv_in.weight"@, DType::F16, seq![320usize, 4, 3, 3]),
        required("conv_in.bias"@, DType::F16, seq![320usize]),
        required("time_embedding.linear_1.weight"@, DType::F16, seq![1280usize, 320]),
        required("time_embedding.linear_2.weight"@, DType::F16, seq![1280usize, 1280]),
        required(
            "down_blocks.0.downsamplers.0.conv.weight"@,
            DType::F16,
            seq![320usize, 320, 3, 3],
        ),
        required("down_blocks.1.resnets.0.conv1.weight"@, DType::F16, seq![640usize, 320, 3, 3]),
        required(
            "down_blocks.2.attentions.1.transformer_blocks.0.attn2.to_k.weight"@,
            DType::F16,
            seq![1280usize, 768],
        ),
        required("mid_block.resnets.0.conv1.weight"@, DType::F16, seq![1280usize, 1280, 3, 3]),
        required(
            "mid_block.attentions.0.transformer_blocks.0.attn2.to_k.weight"@,
            DType::F16,
            seq![1280usize, 768],
        ),
        required("up_blocks.0.resnets.0.conv1.weight"@, DType::F16, seq![1280usize, 2560, 3, 3]),
        required("up_blocks.1.upsamplers.0.conv.weight"@, DType::F16, seq![1280usize, 1280, 3, 3]),
        required("up_blocks.3.resnets.2.conv2.weight"@, DType::F16, seq![320usize, 320, 3, 3]),
        required("conv_out.weight"@, DType::F16, seq![4usize, 320, 3, 3]),
        required("conv_out.bias"@, DType::F16, seq![4usize]),
    ]
}

/// The tensors whose type and shape are checked in the UNet.
fn make_unet_requirements() -> (list: Vec<Requirement>)
    ensures
        pack::requirements_of(list@) == unet_requirements(),
{
    let list: Vec<Requirement> = vec![
        require("conv_in.weight", DType::F16, vec![320, 4, 3, 3]),
        require("conv_in.bias", DType::F16, vec![320]),
        require("time_embedding.linear_1.weight", DType::F16, vec![1280, 320]),
        require("time_embedding.linear_2.weight", DType::F16, vec![1280, 1280]),
        require("down_blocks.0.downsamplers.0.conv.weight", DType::F16, vec![320, 320, 3, 3]),
        require("down_blocks.1.resnets.0.conv1.weight", DType::F16, vec![640, 320, 3, 3]),
        require(
            "down_blocks.2.attentions.1.transformer_blocks.0.attn2.to_k.weight",
            DType::F16,
            vec![1280, 768],
        ),
        require("mid_block.resnets.0.conv1.weight", DType::F16, vec![1280, 1280, 3, 3]),
        require(
            "mid_block.attentions.0.transformer_blocks.0.attn2.to_k.weight",
            DType::F16,
            vec![1280, 768],
        ),
        require("up_blocks.0.resnets.0.conv1.weight", DType::F16, vec![1280, 2560, 3, 3]),
        require("up_blocks.1.upsamplers.0.conv.weight", DType::F16, vec![1280, 1280, 3, 3]),
        require("up_blocks.3.resnets.2.conv2.weight", DType::F16, vec![320, 320, 3, 3]),
        require("conv_out.weight", DType::F16, vec![4, 320, 3, 3]),
        require("conv_out.bias", DType::F16, vec![4]),
    ];
    proof {
        assert(pack::requirements_of(list@) =~~= unet_requirements());
    }
    list
}

/// The tensors whose type and shape are checked in the VAE.
pub open spec fn vae_requirements() -> Seq<RequirementData> {
    seq![
        required("post_quant_conv.weight"@, DType::F16, seq![4usize, 4, 1, 1]),
        required("decoder.conv_in.weight"@, DType::F16, seq![512usize, 4, 3, 3]),
        required(
            "decoder.mid_block.resnets.0.conv1.weight"@,
            DType::F16,
            seq![512usize, 512, 3, 3],
        ),
        required("decoder.mid_block.attentions.0.to_q.weight"@, DType::F16, seq![512usize, 512]),
        required(
            "decoder.up_blocks.0.resnets.0.conv1.weight"@,
            DType::F16,
            seq![512usize, 512, 3, 3],
        ),
        required(
            "decoder.up_blocks.0.upsamplers.0.conv.weight"@,
            DType::F16,
            seq![512usize, 512, 3, 3],
        ),
        required(
            "decoder.up_blocks.3.resnets.2.conv2.weight"@,
            DType::F16,
            seq![128usize, 128, 3, 3],
        ),
        required("decoder.conv_norm_out.weight"@, DType::F16, seq![128usize]),
        required("decoder.conv_out.weight"@, DType::F16, seq![3usize, 128, 3, 3]),
        required("decoder.conv_out.bias"@, DType::F16, seq![3usize]),
    ]
}

/// The tensors whose type and shape are checked in the VAE.
fn make_vae_requirements() -> (list: Vec<Requirement>)
    ensures
        pack::requirements_of(list@) == vae_requirements(),
{
    let list: Vec<Requirement> = vec![
        require("post_quant_conv.weight", DType::F16, vec![4, 4, 1, 1]),
        require("decoder.conv_in.weight", DType::F16, vec![512, 4, 3, 3]),
        require("decoder.mid_block.resnets.0.conv1.weight", DType::F16, vec![512, 512, 3, 3]),
        require("decoder.mid_block.attentions.0.to_q.weight", DType::F16, vec![512, 512]),
        require("decoder.up_blocks.0.resnets.0.conv1.weight", DType::F16, vec![512, 512, 3, 3]),
        require("decoder.up_blocks.0.upsamplers.0.conv.weight", DType::F16, vec![512, 512, 3, 3]),
        require("decoder.up_blocks.3.resnets.2.conv2.weight", DType::F16, vec![128, 128, 3, 3]),
        require("decoder.conv_norm_out.weight", DType::F16, vec![128]),
        require("decoder.conv_out.weight", DType::F16, vec![3, 128, 3, 3]),
        require("decoder.conv_out.bias", DType::F16, vec![3]),
    ];
    proof {
        assert(pack::requirements_of(list@) =~~= vae_requirements());
    }
    list
}

/// The roots of the UNet's tensor names.
pub open spec fn unet_roots() -> pack::Tree {
    seq![
        ("conv_in"@, 2nat),
        ("conv_norm_out"@, 2nat),
        ("conv_out"@, 2nat),
        ("down_blocks"@, 246nat),
        ("mid_block"@, 46nat),
        ("time_embedding"@, 4nat),
        ("up_blocks"@, 384nat),
    ]
}

/// The roots of the UNet's tensor names.
fn make_unet_roots() -> (rows: Vec<(String, usize)>)
    ensures
        pack::tree_of(rows@) == unet_roots(),
{
    let rows: Vec<(String, usize)> = vec![
        ("conv_in".to_owned(), 2),
        ("conv_norm_out".to_owned(), 2),
        ("conv_out".to_owned(), 2),
        ("down_blocks".to_owned(), 246),
        ("mid_block".to_owned(), 46),
        ("time_embedding".to_owned(), 4),
        ("up_blocks".to_owned(), 384),
    ];
    proof {
        assert(pack::tree_of(rows@) =~= unet_roots());
    }
    rows
}

/// The roots of the VAE's tensor names.
pub open spec fn vae_roots() -> pack::Tree {
    seq![
        ("decoder"@, 138nat),
        ("encoder"@, 106nat),
        ("post_quant_conv"@, 2nat),
        ("quant_conv"@, 2nat),
    ]
}

/// The roots of the VAE's tensor names.
fn make_vae_roots() -> (rows: Vec<(String, usize)>)
    ensures
        pack::tree_of(rows@) == vae_roots(),
{
    let rows: Vec<(String, usize)> = vec![
        ("decoder".to_owned(), 138),
        ("encoder".to_owned(), 106),
        ("post_quant_conv".to_owned(), 2),
        ("quant_conv".to_owned(), 2),
    ];
    proof {
        assert(pack::tree_of(rows@) =~= vae_roots());
    }
    rows
}

/// The tensors of one layer of the text encoder.
pub open spec fn text_layer(layer: nat) -> Seq<RequirementData> {
    let prefix = "text_model.encoder.layers."@ + text::decimal(layer);
    seq![
        required(prefix + ".layer_norm1.weight"@, DType::F16, seq![768usize]),
        required(prefix + ".layer_norm1.bias"@, DType::F16, seq![768usize]),
        required(prefix + ".layer_norm2.weight"@, DType::F16, seq![768usize]),
        required(prefix + ".layer_norm2.bias"@, DType::F16, seq![768usize]),
        required(prefix + ".mlp.fc1.weight"@, DType::F16, seq![3072usize, 768]),
        required(prefix + ".mlp.fc1.bias"@, DType::F16, seq![3072usize]),
        required(prefix + ".mlp.fc2.weight"@, DType::F16, seq![768usize, 3072]),
        required(prefix + ".mlp.fc2.bias"@, DType::F16, seq![768usize]),
        required(prefix + ".self_attn.q_proj.weight"@, DType::F16, seq![768usize, 768]),
        required(prefix + ".self_attn.q_proj.bias"@, DType::F16, seq![768usize]),
        required(prefix + ".self_attn.k_proj.weight"@, DType::F16, seq![768usize, 768]),
        required(prefix + ".self_attn.k_proj.bias"@, DType::F16, seq![768usize]),
        required(prefix + ".self_attn.v_proj.weight"@, DType::F16, seq![768usize, 768]),
        required(prefix + ".self_attn.v_proj.bias"@, DType::F16, seq![768usize]),
        required(prefix + ".self_attn.out_proj.weight"@, DType::F16, seq![768usize, 768]),
        required(prefix + ".self_attn.out_proj.bias"@, DType::F16, seq![768usize]),
    ]
}

/// The tensors of the first `n` layers of the text encoder.
pub open spec fn text_layers(n: nat) -> Seq<RequirementData>
    decreases n,
{
    if n == 0 {
        Seq::empty()
    } else {
        text_layers((n - 1) as nat) + text_layer((n - 1) as nat)
    }
}

/// The tensors of the text encoder before its layers.
pub open spec fn text_head() -> Seq<RequirementData> {
    seq![
        required("text_model.embeddings.position_ids"@, DType::I64, seq![1usize, 77]),
        required(
            "text_model.embeddings.position_embedding.weight"@,
            DType::F16,
            seq![77usize, 768],
        ),
        required(
            "text_model.embeddings.token_embedding.weight"@,
            DType::F16,
            seq![49408usize, 768],
        ),
    ]
}

/// The tensors of the text encoder after its layers.
pub open spec fn text_tail() -> Seq<RequirementData> {
    seq![
        required("text_model.final_layer_norm.weight"@, DType::F16, seq![768usize]),
        required("text_model.final_layer_norm.bias"@, DType::F16, seq![768usize]),
    ]
}

/// The tensors of the text encoder.
pub open spec fn text_requirements() -> Seq<RequirementData> {
    text_head() + text_layers(12) + text_tail()
}

/// A required tensor whose name is a prefix and a suffix.
fn require_under(prefix: &str, suffix: &str, shape: Vec<usize>) -> (requirement: Requirement)
    ensures
        requirement@ == required(prefix@ + suffix@, DType::F16, shape@),
{
    let mut name = prefix.to_owned();
    name.append(suffix);
    Requirement { name, dtype: DType::F16, shape }
}

/// The tensors of one layer of the text encoder.
fn make_text_layer(layer: usize) -> (list: Vec<Requirement>)
    ensures
        pack::requirements_of(list@) == text_layer(layer as nat),
{
    let mut name = String::new();
    name.append("text_model.encoder.layers.");
    push_usize(&mut name, layer);
    let prefix = name.as_str();
    let list: Vec<Requirement> = vec![
        require_under(prefix, ".layer_norm1.weight", vec![768]),
        require_under(prefix, ".layer_norm1.bias", vec![768]),
        require_under(prefix, ".layer_norm2.weight", vec![768]),
        require_under(prefix, ".layer_norm2.bias", vec![768]),
        require_under(prefix, ".mlp.fc1.weight", vec![3072, 768]),
        require_under(prefix, ".mlp.fc1.bias", vec![3072]),
        require_under(prefix, ".mlp.fc2.weight", vec![768, 3072]),
        require_under(prefix, ".mlp.fc2.bias", vec![768]),
        require_under(prefix, ".self_attn.q_proj.weight", vec![768, 768]),
        require_under(prefix, ".self_attn.q_proj.bias", vec![768]),
        require_under(prefix, ".self_attn.k_proj.weight", vec![768, 768]),
        require_under(prefix, ".self_attn.k_proj.bias", vec![768]),
        require_under(prefix, ".self_attn.v_proj.weight", vec![768, 768]),
        require_under(prefix, ".self_attn.v_proj.bias", vec![768]),
        require_under(prefix, ".self_attn.out_proj.weight", vec![768, 768]),
        require_under(prefix, ".self_attn.out_proj.bias", vec![768]),
    ];
    proof {
        assert(pack::requirements_of(list@) =~~= text_layer(layer as nat));
    }
    list
}

/// Moves requirements to the end of a list.
fn append_all(list: &mut Vec<Requirement>, mut more: Vec<Requirement>)
    ensures
        pack::requirements_of(final(list)@) == pack::requirements_of(old(list)@)
            + pack::requirements_of(more@),
{
    let ghost before = list@;
    let ghost added = more@;
    list.append(&mut more);
    proof {
        assert(pack::requirements_of(before + added) =~= pack::requirements_of(before)
            + pack::requirements_of(added));
    }
}

/// The tensors of the text encoder.
fn make_text_requirements() -> (list: Vec<Requirement>)
    ensures
        pack::requirements_of(list@) == text_requirements(),
{
    let mut list: Vec<Requirement> = vec![
        require("text_model.embeddings.position_ids", DType::I64, vec![1, 77]),
        require("text_model.embeddings.position_embedding.weight", DType::F16, vec![77, 768]),
        require("text_model.embeddings.token_embedding.weight", DType::F16, vec![49408, 768]),
    ];
    proof {
        assert(pack::requirements_of(list@) =~~= text_head());
        assert(text_head() + text_layers(0) =~= text_head());
    }
    let mut layer: usize = 0;
    while layer < 12
        invariant
            layer <= 12,
            pack::requirements_of(list@) == text_head() + text_layers(layer as nat),
        decreases 12 - layer,
    {
        append_all(&mut list, make_text_layer(layer));
        proof {
            assert(text_head() + text_layers(layer as nat) + text_layer(layer as nat)
                =~= text_head() + text_layers((layer + 1) as nat));
        }
        layer = layer + 1;
    }
    let tail: Vec<Requirement> = vec![
        require("text_model.final_layer_norm.weight", DType::F16, vec![768]),
        require("text_model.final_layer_norm.bias", DType::F16, vec![768]),
    ];
    proof {
        assert(pack::requirements_of(tail@) =~~= text_tail());
    }
    append_all(&mut list, tail);
    list
}

/// What is wrong with the weights of the text encoder.
pub open spec fn text_weights_fault(list: pack::Listing) -> Option<WeightsFault> {
    pack::either(
        pack::count_fault(list, "text encoder"@, TEXT_ENCODER_TENSORS as nat),
        pack::tensors_fault(list, text_requirements()),
    )
}

/// What is wrong with the weights of the UNet.
pub open spec fn unet_weights_fault(list: pack::Listing) -> Option<WeightsFault> {
    pack::either(
        pack::either(
            pack::either(
                pack::count_fault(list, "UNet"@, UNET_TENSORS as nat),
                pack::half_fault(list, "UNet"@),
            ),
            pack::roots_fault(list, "UNet"@, unet_roots()),
        ),
        pack::tensors_fault(list, unet_requirements()),
    )
}

/// What is wrong with the weights of the VAE.
pub open spec fn vae_weights_fault(list: pack::Listing) -> Option<WeightsFault> {
    pack::either(
        pack::either(
            pack::either(
                pack::count_fault(list, "VAE"@, VAE_TENSORS as nat),
                pack::half_fault(list, "VAE"@),
            ),
            pack::roots_fault(list, "VAE"@, vae_roots()),
        ),
        pack::tensors_fault(list, vae_requirements()),
    )
}

/// Checks the weights of the text encoder.
pub fn validate_text_weights(file: &SafeTensorFile) -> (result: Result<(), WeightsError>)
    requires
        file.wf(),
    ensures
        pack::reports(result, text_weights_fault(file.tensors())),
{
    match require_count(file, "text encoder", TEXT_ENCODER_TENSORS) {
        Err(error) => Err(error),
        Ok(()) => require_tensors(file, &make_text_requirements()),
    }
}

/// Checks the weights of the UNet.
pub fn validate_unet_weights(file: &SafeTensorFile) -> (result: Result<(), WeightsError>)
    requires
        file.wf(),
    ensures
        pack::reports(result, unet_weights_fault(file.tensors())),
{
    match require_count(file, "UNet", UNET_TENSORS) {
        Err(error) => {
            return Err(error);
        },
        Ok(()) => {},
    }
    match require_all_f16(file, "UNet") {
        Err(error) => {
            return Err(error);
        },
        Ok(()) => {},
    }
    match require_root_counts(file, "UNet", make_unet_roots()) {
        Err(error) => {
            return Err(error);
        },
        Ok(()) => {},
    }
    require_tensors(file, &make_unet_requirements())
}

/// Checks the weights of the VAE.
pub fn validate_vae_weights(file: &SafeTensorFile) -> (result: Result<(), WeightsError>)
    requires
        file.wf(),
    ensures
        pack::reports(result, vae_weights_fault(file.tensors())),
{
    match require_count(file, "VAE", VAE_TENSORS) {
        Err(error) => {
            return Err(error);
        },
        Ok(()) => {},
    }
    match require_all_f16(file, "VAE") {
        Err(error) => {
            return Err(error);
        },
        Ok(()) => {},
    }
    match require_root_counts(file, "VAE", make_vae_roots()) {
        Err(error) => {
            return Err(error);
        },
        Ok(()) => {},
    }
    require_tensors(file, &make_vae_requirements())
}

/// The files of a pack; those that could not be read are missing.
#[derive(Clone, Copy)]
pub struct Sd15Files<'a> {
    pub model_index: Option<&'a [u8]>,
    pub text_config: Option<&'a [u8]>,
    pub unet_config: Option<&'a [u8]>,
    pub vae_config: Option<&'a [u8]>,
    pub scheduler_config: Option<&'a [u8]>,
    pub vocabulary: Option<&'a str>,
    pub merges: Option<&'a str>,
    pub text_weights: Option<&'a [u8]>,
    pub unet_weights: Option<&'a [u8]>,
    pub vae_weights: Option<&'a [u8]>,
}

impl<'a> Sd15Files<'a> {
    /// The first fault of the configuration files.
    pub open spec fn configs_fault(self) -> Option<PackFault> {
        pack::either(
            pack::either(
                pack::either(
                    pack::either(
                        pack_files::config_fault(
                            pack_files::bytes_of(self.model_index),
                            PackFile::ModelIndex,
                            model_index_rules(),
                        ),
                        pack_files::config_fault(
                            pack_files::bytes_of(self.text_config),
                            PackFile::TextConfig,
                            text_config_rules(),
                        ),
                    ),
                    pack_files::config_fault(
                        pack_files::bytes_of(self.unet_config),
                        PackFile::UnetConfig,
                        unet_config_rules(),
                    ),
                ),
                pack_files::config_fault(
                    pack_files::bytes_of(self.vae_config),
                    PackFile::VaeConfig,
                    vae_config_rules(),
                ),
            ),
            pack_files::config_fault(
                pack_files::bytes_of(self.scheduler_config),
                PackFile::SchedulerConfig,
                scheduler_config_rules(),
            ),
        )
    }

    /// The first fault of the tokenizer.
    pub open spec fn tokenizer_fault(self) -> Option<PackFault> {
        pack::either(
            pack_files::tokenizer_fault(
                pack_files::text_of(self.vocabulary),
                pack_files::text_of(self.merges),
                PackFile::Vocabulary,
                PackFile::Merges,
            ),
            pack_files::special_fault(
                pack_files::text_of(self.vocabulary),
                pack_files::text_of(self.merges),
                PackFile::Vocabulary,
            ),
        )
    }

    /// The first fault of the weight files as containers.
    pub open spec fn containers_fault(self) -> Option<PackFault> {
        pack::either(
            pack::either(
                pack_files::container_fault(
                    pack_files::bytes_of(self.text_weights),
                    PackFile::TextWeights,
                ),
                pack_files::container_fault(
                    pack_files::bytes_of(self.unet_weights),
                    PackFile::UnetWeights,
                ),
            ),
            pack_files::container_fault(
                pack_files::bytes_of(self.vae_weights),
                PackFile::VaeWeights,
            ),
        )
    }

    /// The first fault of the weights.
    pub open spec fn weights_fault(self) -> Option<PackFault> {
        pack_files::weights_fault(
            pack::either(
                pack::either(
                    text_weights_fault(safetensors::listed(self.text_weights->0@)->Ok_0),
                    unet_weights_fault(safetensors::listed(self.unet_weights->0@)->Ok_0),
                ),
                vae_weights_fault(safetensors::listed(self.vae_weights->0@)->Ok_0),
            ),
        )
    }

    /// The first fault of the pack: configurations, then the tokenizer, then containers, then
    /// weights.
    pub open spec fn fault(self) -> Option<PackFault> {
        pack::either(
            pack::either(
                pack::either(self.configs_fault(), self.tokenizer_fault()),
                self.containers_fault(),
            ),
            self.weights_fault(),
        )
    }

    /// The file that a container error is about.
    pub open spec fn container(self, file: PackFile) -> Option<&'a [u8]> {
        match file {
            PackFile::TextWeights => self.text_weights,
            PackFile::UnetWeights => self.unet_weights,
            _ => self.vae_weights,
        }
    }

    /// Checks the configuration files, in order.
    fn check_configs(&self) -> (result: Result<(), PackError>)
        ensures
            match self.configs_fault() {
                Some(fault) => result is Err && result->Err_0@ == fault && !(
                result->Err_0 is Container),
                None => result is Ok,
            },
    {
        match check_config(self.model_index, PackFile::ModelIndex, &make_model_index_rules()) {
            Err(error) => {
                return Err(error);
            },
            Ok(()) => {},
        }
        match check_config(self.text_config, PackFile::TextConfig, &make_text_config_rules()) {
            Err(error) => {
                return Err(error);
            },
            Ok(()) => {},
        }
        match check_config(self.unet_config, PackFile::UnetConfig, &make_unet_config_rules()) {
            Err(error) => {
                return Err(error);
            },
            Ok(()) => {},
        }
        match check_config(self.vae_config, PackFile::VaeConfig, &make_vae_config_rules()) {
            Err(error) => {
                return Err(error);
            },
            Ok(()) => {},
        }
        check_config(
            self.scheduler_config,
            PackFile::SchedulerConfig,
            &make_scheduler_config_rules(),
        )
    }
}

/// A pack that has been checked.
pub struct Sd15Pack<'a> {
    pub text_encoder: SafeTensorFile<'a>,
    pub unet: SafeTensorFile<'a>,
    pub vae: SafeTensorFile<'a>,
    pub tokenizer: ClipTokenizer,
}

impl<'a> Sd15Pack<'a> {
    /// The parts are well-formed.
    pub open spec fn wf(&self) -> bool {
        &&& self.text_encoder.wf()
        &&& self.unet.wf()
        &&& self.vae.wf()
        &&& self.tokenizer.wf()
    }

    /// The parts are those of the files.
    pub open spec fn comes_from(&self, files: Sd15Files<'a>) -> bool {
        &&& self.text_encoder.file() == files.text_weights->0@
        &&& self.text_encoder.tensors() == safetensors::listed(files.text_weights->0@)->Ok_0
        &&& self.unet.file() == files.unet_weights->0@
        &&& self.unet.tensors() == safetensors::listed(files.unet_weights->0@)->Ok_0
        &&& self.vae.file() == files.vae_weights->0@
        &&& self.vae.tensors() == safetensors::listed(files.vae_weights->0@)->Ok_0
        &&& pack_files::lexicon(files.vocabulary->0@, files.merges->0@) == Ok::<_, ClipFault>(
            self.tokenizer@,
        )
    }

    /// Checks the files of a pack and makes a pack of them.
    pub fn open(files: &Sd15Files<'a>) -> (result: Result<Self, PackError>)
        ensures
            match files.fault() {
                Some(fault) => result is Err && result->Err_0@ == fault,
                None => result is Ok && result->Ok_0.wf() && result->Ok_0.comes_from(*files),
            },
            result matches Err(PackError::Container { file, error }) ==> safetensors::refuses(
                files.container(file)->0@,
                error@,
            ),
    {
        match files.check_configs() {
            Err(error) => {
                return Err(error);
            },
            Ok(()) => {},
        }
        let tokenizer = match load_tokenizer(
            files.vocabulary,
            files.merges,
            PackFile::Vocabulary,
            PackFile::Merges,
        ) {
            Err(error) => {
                return Err(error);
            },
            Ok(tokenizer) => tokenizer,
        };
        match check_special(&tokenizer, PackFile::Vocabulary) {
            Err(error) => {
                return Err(error);
            },
            Ok(()) => {},
        }
        let text_encoder = match load_weights(files.text_weights, PackFile::TextWeights) {
            Err(error) => {
                return Err(error);
            },
            Ok(weights) => weights,
        };
        let unet = match load_weights(files.unet_weights, PackFile::UnetWeights) {
            Err(error) => {
                return Err(error);
            },
            Ok(weights) => weights,
        };
        let vae = match load_weights(files.vae_weights, PackFile::VaeWeights) {
            Err(error) => {
                return Err(error);
            },
            Ok(weights) => weights,
        };
        match validate_text_weights(&text_encoder) {
            Err(error) => {
                return Err(PackError::Weights(error));
            },
            Ok(()) => {},
        }
        match validate_unet_weights(&unet) {
            Err(error) => {
                return Err(PackError::Weights(error));
            },
            Ok(()) => {},
        }
        match validate_vae_weights(&vae) {
            Err(error) => {
                return Err(PackError::Weights(error));
            },
            Ok(()) => {},
        }
        Ok(Sd15Pack { text_encoder, unet, vae, tokenizer })
    }

    /// The length of all weight files together, as far as it fits in a word.
    pub fn total_bytes(&self) -> (total: usize)
        ensures
            total == {
                let sum = self.text_encoder.file().len() + self.unet.file().len()
                    + self.vae.file().len();
                if sum <= usize::MAX {
                    sum
                } else {
                    usize::MAX as nat
                }
            },
    {
        self.text_encoder.mapped_len().saturating_add(self.unet.mapped_len()).saturating_add(
            self.vae.mapped_len(),
        )
    }

    /// Encodes a prompt to identifiers.
    pub fn tokenize(&self, prompt: &str) -> (ids: [u32; 77])
        requires
            self.wf(),
        ensures
            ids@ == self.tokenizer@.encode(prompt@),
    {
        self.tokenizer.encode(prompt)
    }

    /// Encodes a prompt to the text context.
    pub fn encode_prompt<
        T: Copy,
        Z: Copy,
        M: Fn(T, T, T) -> T + Copy,
        P: Fn(T, T) -> T + Copy,
        G: Fn(T, T) -> T + Copy,
        L: Fn(T) -> T + Copy,
        E: Fn(T) -> T + Copy,
        Q: Fn(T) -> T + Copy,
        A: Fn(&[T], u32) -> Z + Copy,
        B: Fn(T, Z, T, T) -> T + Copy,
        C: Fn(T, usize) -> T + Copy,
        H: Fn(Vec<T>) -> Vec<T> + Copy,
        N: Fn(Scalar) -> T + Copy,
    >(&self, kernels: &Kernels<T, M, P, G, L, E, Q, A, B, C, H, N>, prompt: &str) -> (result: Result<
        Tensor<T>,
        EncoderError,
    >)
        requires
            self.wf(),
            kernels.usable(),
        ensures
            sd_clip::encodes(
                *kernels,
                self.text_encoder.weights(),
                self.tokenizer@.encode(prompt@),
                result,
            ),
    {
        let tokens: [u32; 77] = self.tokenizer.encode(prompt);
        sd_clip::encode(kernels, &self.text_encoder, &tokens)
    }

    /// Predicts the noise in a sample of latents.
    pub fn predict_noise<
        T: Copy,
        Z: Copy,
        M: Fn(T, T, T) -> T + Copy,
        P: Fn(T, T) -> T + Copy,
        G: Fn(T, T) -> T + Copy,
        L: Fn(T) -> T + Copy,
        E: Fn(T) -> T + Copy,
        Q: Fn(T) -> T + Copy,
        A: Fn(&[T], u32) -> Z + Copy,
        B: Fn(T, Z, T, T) -> T + Copy,
        C: Fn(T, usize) -> T + Copy,
        H: Fn(Vec<T>) -> Vec<T> + Copy,
        N: Fn(Scalar) -> T + Copy,
        U: Fn(u32, usize, usize) -> T + Copy,
        V: Fn(u32, usize, usize) -> T + Copy,
    >(
        &self,
        kernels: &Kernels<T, M, P, G, L, E, Q, A, B, C, H, N>,
        sample: &Tensor<T>,
        timestep: u32,
        context: &Tensor<T>,
        cosine: U,
        sine: V,
    ) -> (result: Result<Tensor<T>, UnetError>)
        requires
            self.wf(),
            kernels.usable(),
            sample.wf(),
            context.wf(),
            fold::accepts3(cosine),
            fold::accepts3(sine),
            unet::input_refusal(UnetModel::Sd15, sample.dims(), context.dims(), 0) is None
                ==> sample.dims()[0] * 320 <= usize::MAX,
        ensures
            sd_unet::predicts(
                *kernels,
                self.unet.weights(),
                sample.array(),
                timestep,
                context.array(),
                cosine,
                sine,
                result,
            ),
    {
        sd_unet::predict_noise(kernels, &self.unet, sample, timestep, context, cosine, sine)
    }

    /// Decodes latents that still have to be divided by their scale.
    pub fn decode_latents<
        T: Copy,
        Z: Copy,
        M: Fn(T, T, T) -> T + Copy,
        P: Fn(T, T) -> T + Copy,
        G: Fn(T, T) -> T + Copy,
        L: Fn(T) -> T + Copy,
        E: Fn(T) -> T + Copy,
        Q: Fn(T) -> T + Copy,
        A: Fn(&[T], u32) -> Z + Copy,
        B: Fn(T, Z, T, T) -> T + Copy,
        C: Fn(T, usize) -> T + Copy,
        H: Fn(Vec<T>) -> Vec<T> + Copy,
        N: Fn(Scalar) -> T + Copy,
        F: Fn(usize, usize) -> T + Copy,
        W: Fn(T, T) -> T + Copy,
        O: Fn(T) -> bool + Copy,
        D: Fn(T, T) -> T + Copy,
        X: Fn(T, u32) -> T + Copy,
    >(
        &self,
        kernels: &Kernels<T, M, P, G, L, E, Q, A, B, C, H, N>,
        blend: &Blend<F, W, O, D>,
        latents: &Tensor<T>,
        divide: X,
    ) -> (result: Result<Tensor<T>, VaeError>)
        requires
            self.wf(),
            kernels.usable(),
            blend.usable(),
            latents.wf(),
            fold::total2(divide),
            sd_vae::latents_fit(latents.dims()) ==> 192 * (latents.dims()[2] * latents.dims()[3])
                <= usize::MAX,
        ensures
            sd_vae::decodes_scaled(
                *kernels,
                *blend,
                self.vae.weights(),
                latents.array(),
                sd_vae::LATENT_SCALE,
                divide,
                result,
            ),
    {
        sd_vae::decode(kernels, blend, &self.vae, latents, divide)
    }

    /// Decodes latents.
    pub fn decode_unscaled_latents<
        T: Copy,
        Z: Copy,
        M: Fn(T, T, T) -> T + Copy,
        P: Fn(T, T) -> T + Copy,
        G: Fn(T, T) -> T + Copy,
        L: Fn(T) -> T + Copy,
        E: Fn(T) -> T + Copy,
        Q: Fn(T) -> T + Copy,
        A: Fn(&[T], u32) -> Z + Copy,
        B: Fn(T, Z, T, T) -> T + Copy,
        C: Fn(T, usize) -> T + Copy,
        H: Fn(Vec<T>) -> Vec<T> + Copy,
        N: Fn(Scalar) -> T + Copy,
        F: Fn(usize, usize) -> T + Copy,
        W: Fn(T, T) -> T + Copy,
        O: Fn(T) -> bool + Copy,
        D: Fn(T, T) -> T + Copy,
    >(
        &self,
        kernels: &Kernels<T, M, P, G, L, E, Q, A, B, C, H, N>,
        blend: &Blend<F, W, O, D>,
        latents: &Tensor<T>,
    ) -> (result: Result<Tensor<T>, VaeError>)
        requires
            self.wf(),
            kernels.usable(),
            blend.usable(),
            latents.wf(),
            sd_vae::latents_fit(latents.dims()) ==> 192 * (latents.dims()[2] * latents.dims()[3])
                <= usize::MAX,
        ensures
            sd_vae::decodes_unscaled(
                *kernels,
                *blend,
                self.vae.weights(),
                latents.array(),
                result,
            ),
    {
        sd_vae::decode_unscaled(kernels, blend, &self.vae, latents)
    }
}

} // verus!
