//! The SDXL model pack.

use vstd::prelude::*;
use crate::clip_tokenizer::{ClipFault, ClipTokenizer};
use crate::config;
use crate::config::{check_rules, ConfigError, Constant, Expected, ExpectedData, Rule, RuleData};
use crate::fold;
use crate::json::Json;
use crate::layers::Kernels;
use crate::layout;
use crate::pack;
use crate::pack::{require_all_f16, require_tensors, Requirement, RequirementData, WeightsFault};
use crate::pack_files;
use crate::pack_files::{
    check_config, check_special, load_tokenizer, load_weights, PackError, PackFault, PackFile,
};
use crate::reshape;
use crate::reshape::concat_last_dim;
use crate::safetensors;
use crate::safetensors::{DType, SafeTensorFile, Scalar};
use crate::sd15;
use crate::sd15::require;
use crate::sd_vae;
use crate::sd_vae::{unscale, VaeError};
use crate::sdxl_clip;
use crate::sdxl_clip::{activation_name, clip_bigg, clip_l, ClipEncoderSpec};
use crate::sdxl_unet;
use crate::tensor::Tensor;
use crate::text_encoder::EncoderError;
use crate::tiles::Blend;
use crate::unet;
use crate::unet::{UnetError, UnetModel};

verus! {

broadcast use vstd::string::group_string_axioms;

/// What the model index must say.
pub open spec fn model_index_rules() -> Seq<RuleData> {
    seq![
        RuleData {
            pointer: "/_class_name"@,
            expected: ExpectedData::Text("StableDiffusionXLPipeline"@),
        },
        RuleData { pointer: "/text_encoder/1"@, expected: ExpectedData::Text("CLIPTextModel"@) },
        RuleData {
            pointer: "/text_encoder_2/1"@,
            expected: ExpectedData::Text("CLIPTextModelWithProjection"@),
        },
        RuleData { pointer: "/tokenizer/1"@, expected: ExpectedData::Text("CLIPTokenizer"@) },
        RuleData { pointer: "/tokenizer_2/1"@, expected: ExpectedData::Text("CLIPTokenizer"@) },
        RuleData { pointer: "/unet/1"@, expected: ExpectedData::Text("UNet2DConditionModel"@) },
        RuleData { pointer: "/vae/1"@, expected: ExpectedData::Text("AutoencoderKL"@) },
    ]
}

/// What the model index must say.
fn make_model_index_rules() -> (rules: Vec<Rule>)
    ensures
        config::rules_of(rules@) == model_index_rules(),
{
    let rules: Vec<Rule> = vec![
        Rule { pointer: "/_class_name", expected: Expected::Text("StableDiffusionXLPipeline") },
        Rule { pointer: "/text_encoder/1", expected: Expected::Text("CLIPTextModel") },
        Rule {
            pointer: "/text_encoder_2/1",
            expected: Expected::Text("CLIPTextModelWithProjection"),
        },
        Rule { pointer: "/tokenizer/1", expected: Expected::Text("CLIPTokenizer") },
        Rule { pointer: "/tokenizer_2/1", expected: Expected::Text("CLIPTokenizer") },
        Rule { pointer: "/unet/1", expected: Expected::Text("UNet2DConditionModel") },
        Rule { pointer: "/vae/1", expected: Expected::Text("AutoencoderKL") },
    ];
    proof {
        assert(config::rules_of(rules@) =~~= model_index_rules());
    }
    rules
}

/// Checks a document against these rules.
pub fn validate_model_index(value: &Json) -> (result: Result<(), ConfigError>)
    ensures
        config::reports(result, config::first_fault(value@, model_index_rules())),
{
    check_rules(value, &make_model_index_rules())
}

/// What the configuration of a text encoder must say.
pub open spec fn clip_config_rules(spec: ClipEncoderSpec) -> Seq<RuleData> {
    seq![
        RuleData { pointer: "/model_type"@, expected: ExpectedData::Text("clip_text_model"@) },
        RuleData { pointer: "/hidden_act"@, expected: ExpectedData::Text(spec.activation()) },
        RuleData { pointer: "/hidden_size"@, expected: ExpectedData::Number(spec.hidden as u64) },
        RuleData { pointer: "/max_position_embeddings"@, expected: ExpectedData::Number(77) },
        RuleData {
            pointer: "/num_attention_heads"@,
            expected: ExpectedData::Number(spec.heads as u64),
        },
        RuleData {
            pointer: "/num_hidden_layers"@,
            expected: ExpectedData::Number(spec.layers as u64),
        },
        RuleData { pointer: "/vocab_size"@, expected: ExpectedData::Number(spec.vocab as u64) },
    ]
}

/// What the configuration of a text encoder must say.
fn make_clip_config_rules(spec: &ClipEncoderSpec) -> (rules: Vec<Rule>)
    ensures
        config::rules_of(rules@) == clip_config_rules(*spec),
{
    let rules: Vec<Rule> = vec![
        Rule { pointer: "/model_type", expected: Expected::Text("clip_text_model") },
        Rule { pointer: "/hidden_act", expected: Expected::Text(activation_name(spec)) },
        Rule { pointer: "/hidden_size", expected: Expected::Number(spec.hidden as u64) },
        Rule { pointer: "/max_position_embeddings", expected: Expected::Number(77) },
        Rule { pointer: "/num_attention_heads", expected: Expected::Number(spec.heads as u64) },
        Rule { pointer: "/num_hidden_layers", expected: Expected::Number(spec.layers as u64) },
        Rule { pointer: "/vocab_size", expected: Expected::Number(spec.vocab as u64) },
    ];
    proof {
        assert(config::rules_of(rules@) =~~= clip_config_rules(*spec));
    }
    rules
}

/// Checks a document against these rules.
pub fn validate_clip_config(
    value: &Json,
    spec: &ClipEncoderSpec,
) -> (result: Result<(), ConfigError>)
    ensures
        config::reports(result, config::first_fault(value@, clip_config_rules(*spec))),
{
    check_rules(value, &make_clip_config_rules(spec))
}

/// What the configuration of the UNet must say.
pub open spec fn unet_config_rules() -> Seq<RuleData> {
    seq![
        RuleData {
            pointer: "/_class_name"@,
            expected: ExpectedData::Text("UNet2DConditionModel"@),
        },
        RuleData { pointer: "/act_fn"@, expected: ExpectedData::Text("silu"@) },
        RuleData { pointer: "/addition_embed_type"@, expected: ExpectedData::Text("text_time"@) },
        RuleData { pointer: "/addition_time_embed_dim"@, expected: ExpectedData::Number(256) },
        RuleData {
            pointer: "/attention_head_dim"@,
            expected: ExpectedData::Numbers(seq![5u64, 10, 20]),
        },
        RuleData {
            pointer: "/block_out_channels"@,
            expected: ExpectedData::Numbers(seq![320u64, 640, 1280]),
        },
        RuleData { pointer: "/cross_attention_dim"@, expected: ExpectedData::Number(2048) },
        RuleData { pointer: "/in_channels"@, expected: ExpectedData::Number(4) },
        RuleData { pointer: "/layers_per_block"@, expected: ExpectedData::Number(2) },
        RuleData { pointer: "/norm_eps"@, expected: ExpectedData::Near(Constant::NormEpsilon) },
        RuleData { pointer: "/norm_num_groups"@, expected: ExpectedData::Number(32) },
        RuleData { pointer: "/out_channels"@, expected: ExpectedData::Number(4) },
        RuleData {
            pointer: "/projection_class_embeddings_input_dim"@,
            expected: ExpectedData::Number(2816),
        },
        RuleData {
            pointer: "/transformer_layers_per_block"@,
            expected: ExpectedData::Numbers(seq![1u64, 2, 10]),
        },
        RuleData { pointer: "/use_linear_projection"@, expected: ExpectedData::Flag(true) },
    ]
}

/// What the configuration of the UNet must say.
fn make_unet_config_rules() -> (rules: Vec<Rule>)
    ensures
        config::rules_of(rules@) == unet_config_rules(),
{
    let rules: Vec<Rule> = vec![
        Rule { pointer: "/_class_name", expected: Expected::Text("UNet2DConditionModel") },
        Rule { pointer: "/act_fn", expected: Expected::Text("silu") },
        Rule { pointer: "/addition_embed_type", expected: Expected::Text("text_time") },
        Rule { pointer: "/addition_time_embed_dim", expected: Expected::Number(256) },
        Rule { pointer: "/attention_head_dim", expected: Expected::Numbers(vec![5, 10, 20]) },
        Rule { pointer: "/block_out_channels", expected: Expected::Numbers(vec![320, 640, 1280]) },
        Rule { pointer: "/cross_attention_dim", expected: Expected::Number(2048) },
        Rule { pointer: "/in_channels", expected: Expected::Number(4) },
        Rule { pointer: "/layers_per_block", expected: Expected::Number(2) },
        Rule { pointer: "/norm_eps", expected: Expected::Near(Constant::NormEpsilon) },
        Rule { pointer: "/norm_num_groups", expected: Expected::Number(32) },
        Rule { pointer: "/out_channels", expected: Expected::Number(4) },
        Rule {
            pointer: "/projection_class_embeddings_input_dim",
            expected: Expected::Number(2816),
        },
        Rule {
            pointer: "/transformer_layers_per_block",
            expected: Expected::Numbers(vec![1, 2, 10]),
        },
        Rule { pointer: "/use_linear_projection", expected: Expected::Flag(true) },
    ];
    proof {
        assert(config::rules_of(rules@) =~~= unet_config_rules());
    }
    rules
}

/// Checks a document against these rules.
pub fn validate_unet_config(value: &Json) -> (result: Result<(), ConfigError>)
    ensures
        config::reports(result, config::first_fault(value@, unet_config_rules())),
{
    check_rules(value, &make_unet_config_rules())
}

/// What the configuration of the VAE must say.
pub open spec fn vae_config_rules() -> Seq<RuleData> {
    seq![
        RuleData { pointer: "/_class_name"@, expected: ExpectedData::Text("AutoencoderKL"@) },
        RuleData { pointer: "/act_fn"@, expected: ExpectedData::Text("silu"@) },
        RuleData {
            pointer: "/block_out_channels"@,
            expected: ExpectedData::Numbers(seq![128u64, 256, 512, 512]),
        },
        RuleData { pointer: "/latent_channels"@, expected: ExpectedData::Number(4) },
        RuleData { pointer: "/layers_per_block"@, expected: ExpectedData::Number(2) },
        RuleData { pointer: "/norm_num_groups"@, expected: ExpectedData::Number(32) },
        RuleData { pointer: "/out_channels"@, expected: ExpectedData::Number(3) },
        RuleData { pointer: "/scaling_factor"@, expected: ExpectedData::Near(Constant::VaeScale) },
    ]
}

/// What the configuration of the VAE must say.
fn make_vae_config_rules() -> (rules: Vec<Rule>)
    ensures
        config::rules_of(rules@) == vae_config_rules(),
{
    let rules: Vec<Rule> = vec![
        Rule { pointer: "/_class_name", expected: Expected::Text("AutoencoderKL") },
        Rule { pointer: "/act_fn", expected: Expected::Text("silu") },
        Rule {
            pointer: "/block_out_channels",
            expected: Expected::Numbers(vec![128, 256, 512, 512]),
        },
        Rule { pointer: "/latent_channels", expected: Expected::Number(4) },
        Rule { pointer: "/layers_per_block", expected: Expected::Number(2) },
        Rule { pointer: "/norm_num_groups", expected: Expected::Number(32) },
        Rule { pointer: "/out_channels", expected: Expected::Number(3) },
        Rule { pointer: "/scaling_factor", expected: Expected::Near(Constant::VaeScale) },
    ];
    proof {
        assert(config::rules_of(rules@) =~~= vae_config_rules());
    }
    rules
}

/// Checks a document against these rules.
pub fn validate_vae_config(value: &Json) -> (result: Result<(), ConfigError>)
    ensures
        config::reports(result, config::first_fault(value@, vae_config_rules())),
{
    check_rules(value, &make_vae_config_rules())
}

/// What the configuration of the scheduler must say.
pub open spec fn scheduler_config_rules() -> Seq<RuleData> {
    seq![
        RuleData {
            pointer: "/_class_name"@,
            expected: ExpectedData::Text("EulerDiscreteScheduler"@),
        },
        RuleData { pointer: "/beta_schedule"@, expected: ExpectedData::Text("scaled_linear"@) },
        RuleData { pointer: "/beta_start"@, expected: ExpectedData::Near(Constant::BetaStart) },
        RuleData { pointer: "/beta_end"@, expected: ExpectedData::Near(Constant::BetaEnd) },
        RuleData { pointer: "/prediction_type"@, expected: ExpectedData::Text("epsilon"@) },
        RuleData { pointer: "/num_train_timesteps"@, expected: ExpectedData::Number(1000) },
        RuleData { pointer: "/use_karras_sigmas"@, expected: ExpectedData::Flag(false) },
        RuleData { pointer: "/steps_offset"@, expected: ExpectedData::Number(1) },
        RuleData { pointer: "/timestep_spacing"@, expected: ExpectedData::Text("leading"@) },
    ]
}

/// What the configuration of the scheduler must say.
fn make_scheduler_config_rules() -> (rules: Vec<Rule>)
    ensures
        config::rules_of(rules@) == scheduler_config_rules(),
{
    let rules: Vec<Rule> = vec![
        Rule { pointer: "/_class_name", expected: Expected::Text("EulerDiscreteScheduler") },
        Rule { pointer: "/beta_schedule", expected: Expected::Text("scaled_linear") },
        Rule { pointer: "/beta_start", expected: Expected::Near(Constant::BetaStart) },
        Rule { pointer: "/beta_end", expected: Expected::Near(Constant::BetaEnd) },
        Rule { pointer: "/prediction_type", expected: Expected::Text("epsilon") },
        Rule { pointer: "/num_train_timesteps", expected: Expected::Number(1000) },
        Rule { pointer: "/use_karras_sigmas", expected: Expected::Flag(false) },
        Rule { pointer: "/steps_offset", expected: Expected::Number(1) },
        Rule { pointer: "/timestep_spacing", expected: Expected::Text("leading") },
    ];
    proof {
        assert(config::rules_of(rules@) =~~= scheduler_config_rules());
    }
    rules
}

/// Checks a document against these rules.
pub fn validate_scheduler_config(value: &Json) -> (result: Result<(), ConfigError>)
    ensures
        config::reports(result, config::first_fault(value@, scheduler_config_rules())),
{
    check_rules(value, &make_scheduler_config_rules())
}

/// The tensors whose type and shape are checked in the UNet.
pub open spec fn unet_requirements() -> Seq<RequirementData> {
    seq![
        sd15::required("add_embedding.linear_1.weight"@, DType::F16, seq![1280usize, 2816]),
        sd15::required("conv_in.weight"@, DType::F16, seq![320usize, 4, 3, 3]),
    ]
}

/// The tensor whose type and shape are checked in the second text encoder.
pub open spec fn projection_requirements() -> Seq<RequirementData> {
    seq![sd15::required("text_projection.weight"@, DType::F16, seq![1280usize, 1280])]
}

/// The files of a pack; those that could not be read are missing.
#[derive(Clone, Copy)]
pub struct SdxlFiles<'a> {
    pub model_index: Option<&'a [u8]>,
    pub text_config: Option<&'a [u8]>,
    pub text_config_2: Option<&'a [u8]>,
    pub unet_config: Option<&'a [u8]>,
    pub vae_config: Option<&'a [u8]>,
    pub scheduler_config: Option<&'a [u8]>,
    pub vocabulary: Option<&'a str>,
    pub merges: Option<&'a str>,
    pub vocabulary_2: Option<&'a str>,
    pub merges_2: Option<&'a str>,
    pub text_weights: Option<&'a [u8]>,
    pub text_weights_2: Option<&'a [u8]>,
    pub unet_weights: Option<&'a [u8]>,
    pub vae_weights: Option<&'a [u8]>,
}

impl<'a> SdxlFiles<'a> {
    /// The first fault of the configuration files.
    pub open spec fn configs_fault(self) -> Option<PackFault> {
        pack::either(
            pack::either(
                pack::either(
                    pack::either(
                        pack::either(
                            pack_files::config_fault(
                                pack_files::bytes_of(self.model_index),
                                PackFile::ModelIndex,
                                model_index_rules(),
                            ),
                            pack_files::config_fault(
                                pack_files::bytes_of(self.text_config),
                                PackFile::TextConfig,
                                clip_config_rules(sdxl_clip::clip_l_spec()),
                            ),
                        ),
                        pack_files::config_fault(
                            pack_files::bytes_of(self.text_config_2),
                            PackFile::TextConfig2,
                            clip_config_rules(sdxl_clip::clip_bigg_spec()),
                        ),
                    ),
                    pack_files::config_fault(
                        pack_files::bytes_of(self.unet_config),
                        PackFile::UnetConfig,
                        unet_config_rules(),
                    ),
                ),
                pack_files::config_fault(
                    pack_files::bytes_of(self.vae_config),
                    PackFile::VaeConfig,
                    vae_config_rules(),
                ),
            ),
            pack_files::config_fault(
                pack_files::bytes_of(self.scheduler_config),
                PackFile::SchedulerConfig,
                scheduler_config_rules(),
            ),
        )
    }

    /// The first fault of the tokenizers.
    pub open spec fn tokenizers_fault(self) -> Option<PackFault> {
        pack::either(
            pack::either(
                pack::either(
                    pack_files::tokenizer_fault(
                        pack_files::text_of(self.vocabulary),
                        pack_files::text_of(self.merges),
                        PackFile::Vocabulary,
                        PackFile::Merges,
                    ),
                    pack_files::tokenizer_fault(
                        pack_files::text_of(self.vocabulary_2),
                        pack_files::text_of(self.merges_2),
                        PackFile::Vocabulary2,
                        PackFile::Merges2,
                    ),
                ),
                pack_files::special_fault(
                    pack_files::text_of(self.vocabulary),
                    pack_files::text_of(self.merges),
                    PackFile::Vocabulary,
                ),
            ),
            pack_files::special_fault(
                pack_files::text_of(self.vocabulary_2),
                pack_files::text_of(self.merges_2),
                PackFile::Vocabulary2,
            ),
        )
    }

    /// The first fault of the weight files as containers.
    pub open spec fn containers_fault(self) -> Option<PackFault> {
        pack::either(
            pack::either(
                pack::either(
                    pack_files::container_fault(
                        pack_files::bytes_of(self.text_weights),
                        PackFile::TextWeights,
                    ),
                    pack_files::container_fault(
                        pack_files::bytes_of(self.text_weights_2),
                        PackFile::TextWeights2,
                    ),
                ),
                pack_files::container_fault(
                    pack_files::bytes_of(self.unet_weights),
                    PackFile::UnetWeights,
                ),
            ),
            pack_files::container_fault(
                pack_files::bytes_of(self.vae_weights),
                PackFile::VaeWeights,
            ),
        )
    }

    /// The first fault of the weights.
    pub open spec fn weights_fault(self) -> Option<WeightsFault> {
        pack::either(
            pack::either(
                pack::either(
                    pack::either(
                        pack::either(
                            pack::half_fault(
                                safetensors::listed(self.text_weights->0@)->Ok_0,
                                "text encoder"@,
                            ),
                            pack::half_fault(
                                safetensors::listed(self.text_weights_2->0@)->Ok_0,
                                "text encoder 2"@,
                            ),
                        ),
                        pack::half_fault(safetensors::listed(self.unet_weights->0@)->Ok_0, "UNet"@),
                    ),
                    pack::half_fault(safetensors::listed(self.vae_weights->0@)->Ok_0, "VAE"@),
                ),
                pack::tensors_fault(
                    safetensors::listed(self.unet_weights->0@)->Ok_0,
                    unet_requirements(),
                ),
            ),
            pack::tensors_fault(
                safetensors::listed(self.text_weights_2->0@)->Ok_0,
                projection_requirements(),
            ),
        )
    }

    /// The first fault of the pack: configurations, then tokenizers, then containers, then weights.
    pub open spec fn fault(self) -> Option<PackFault> {
        pack::either(
            pack::either(
                pack::either(self.configs_fault(), self.tokenizers_fault()),
                self.containers_fault(),
            ),
            pack_files::weights_fault(self.weights_fault()),
        )
    }

    /// The file that a container error is about.
    pub open spec fn container(self, file: PackFile) -> Option<&'a [u8]> {
        match file {
            PackFile::TextWeights => self.text_weights,
            PackFile::TextWeights2 => self.text_weights_2,
            PackFile::UnetWeights => self.unet_weights,
            _ => self.vae_weights,
        }
    }

    /// Checks the configuration files, in order.
    fn check_configs(&self) -> (result: Result<(), PackError>)
        ensures
            match self.configs_fault() {
                Some(fault) => result is Err && result->Err_0@ == fault && !(
                result->Err_0 is Container),
                None => result is Ok,
            },
    {
        match check_config(self.model_index, PackFile::ModelIndex, &make_model_index_rules()) {
            Err(error) => {
                return Err(error);
            },
            Ok(()) => {},
        }
        match check_config(
            self.text_config,
            PackFile::TextConfig,
            &make_clip_config_rules(&clip_l()),
        ) {
            Err(error) => {
                return Err(error);
            },
            Ok(()) => {},
        }
        match check_config(
            self.text_config_2,
            PackFile::TextConfig2,
            &make_clip_config_rules(&clip_bigg()),
        ) {
            Err(error) => {
                return Err(error);
            },
            Ok(()) => {},
        }
        match check_config(self.unet_config, PackFile::UnetConfig, &make_unet_config_rules()) {
            Err(error) => {
                return Err(error);
            },
            Ok(()) => {},
        }
        match check_config(self.vae_config, PackFile::VaeConfig, &make_vae_config_rules()) {
            Err(error) => {
                return Err(error);
            },
            Ok(()) => {},
        }
        match check_config(
            self.scheduler_config,
            PackFile::SchedulerConfig,
            &make_scheduler_config_rules(),
        ) {
            Err(error) => {
                return Err(error);
            },
            Ok(()) => {},
        }
        Ok(())
    }

    /// Reads both tokenizers, then checks both.
    fn load_tokenizers(&self) -> (result: Result<(ClipTokenizer, ClipTokenizer), PackError>)
        ensures
            match self.tokenizers_fault() {
                Some(fault) => result is Err && result->Err_0@ == fault && !(
                result->Err_0 is Container),
                None => {
                    &&& result is Ok
                    &&& result->Ok_0.0.wf() && result->Ok_0.1.wf()
                    &&& pack_files::lexicon(self.vocabulary->0@, self.merges->0@) == Ok::<
                        _,
                        ClipFault,
                    >(result->Ok_0.0@)
                    &&& pack_files::lexicon(self.vocabulary_2->0@, self.merges_2->0@) == Ok::<
                        _,
                        ClipFault,
                    >(result->Ok_0.1@)
                },
            },
    {
        let tokenizer = match load_tokenizer(
            self.vocabulary,
            self.merges,
            PackFile::Vocabulary,
            PackFile::Merges,
        ) {
            Err(error) => {
                return Err(error);
            },
            Ok(tokenizer) => tokenizer,
        };
        let tokenizer_2 = match load_tokenizer(
            self.vocabulary_2,
            self.merges_2,
            PackFile::Vocabulary2,
            PackFile::Merges2,
        ) {
            Err(error) => {
                return Err(error);
            },
            Ok(tokenizer) => tokenizer,
        };
        match check_special(&tokenizer, PackFile::Vocabulary) {
            Err(error) => {
                return Err(error);
            },
            Ok(()) => {},
        }
        match check_special(&tokenizer_2, PackFile::Vocabulary2) {
            Err(error) => {
                return Err(error);
            },
            Ok(()) => {},
        }
        Ok((tokenizer, tokenizer_2))
    }
}

/// A pack that has been checked.
pub struct SdxlPack<'a> {
    pub text_encoder: SafeTensorFile<'a>,
    pub text_encoder_2: SafeTensorFile<'a>,
    pub unet: SafeTensorFile<'a>,
    pub vae: SafeTensorFile<'a>,
    pub tokenizer: ClipTokenizer,
    pub tokenizer_2: ClipTokenizer,
}

impl<'a> SdxlPack<'a> {
    /// The parts are well-formed.
    pub open spec fn wf(&self) -> bool {
        &&& self.text_encoder.wf()
        &&& self.text_encoder_2.wf()
        &&& self.unet.wf()
        &&& self.vae.wf()
        &&& self.tokenizer.wf()
        &&& self.tokenizer_2.wf()
    }

    /// A weight file is the one that bytes hold.
    pub open spec fn holds(weights: SafeTensorFile<'a>, bytes: Option<&'a [u8]>) -> bool {
        &&& weights.file() == bytes->0@
        &&& weights.tensors() == safetensors::listed(bytes->0@)->Ok_0
    }

    /// The parts are those of the files.
    pub open spec fn comes_from(&self, files: SdxlFiles<'a>) -> bool {
        &&& Self::holds(self.text_encoder, files.text_weights)
        &&& Self::holds(self.text_encoder_2, files.text_weights_2)
        &&& Self::holds(self.unet, files.unet_weights)
        &&& Self::holds(self.vae, files.vae_weights)
        &&& pack_files::lexicon(files.vocabulary->0@, files.merges->0@) == Ok::<_, ClipFault>(
            self.tokenizer@,
        )
        &&& pack_files::lexicon(files.vocabulary_2->0@, files.merges_2->0@) == Ok::<_, ClipFault>(
            self.tokenizer_2@,
        )
    }

    /// Checks the files of a pack and makes a pack of them.
    #[verifier::rlimit(50)]
    pub fn open(files: &SdxlFiles<'a>) -> (result: Result<Self, PackError>)
        ensures
            match files.fault() {
                Some(fault) => result is Err && result->Err_0@ == fault,
                None => result is Ok && result->Ok_0.wf() && result->Ok_0.comes_from(*files),
            },
            result matches Err(PackError::Container { file, error }) ==> safetensors::refuses(
                files.container(file)->0@,
                error@,
            ),
    {
        match files.check_configs() {
            Err(error) => {
                return Err(error);
            },
            Ok(()) => {},
        }
        let (tokenizer, tokenizer_2) = match files.load_tokenizers() {
            Err(error) => {
                return Err(error);
            },
            Ok(tokenizers) => tokenizers,
        };
        let text_encoder = match load_weights(files.text_weights, PackFile::TextWeights) {
            Err(error) => {
                return Err(error);
            },
            Ok(weights) => weights,
        };
        let text_encoder_2 = match load_weights(files.text_weights_2, PackFile::TextWeights2) {
            Err(error) => {
                return Err(error);
            },
            Ok(weights) => weights,
        };
        let unet = match load_weights(files.unet_weights, PackFile::UnetWeights) {
            Err(error) => {
                return Err(error);
            },
            Ok(weights) => weights,
        };
        let vae = match load_weights(files.vae_weights, PackFile::VaeWeights) {
            Err(error) => {
                return Err(error);
            },
            Ok(weights) => weights,
        };
        match require_all_f16(&text_encoder, "text encoder") {
            Err(error) => {
                return Err(PackError::Weights(error));
            },
            Ok(()) => {},
        }
        match require_all_f16(&text_encoder_2, "text encoder 2") {
            Err(error) => {
                return Err(PackError::Weights(error));
            },
            Ok(()) => {},
        }
        match require_all_f16(&unet, "UNet") {
            Err(error) => {
                return Err(PackError::Weights(error));
            },
            Ok(()) => {},
        }
        match require_all_f16(&vae, "VAE") {
            Err(error) => {
                return Err(PackError::Weights(error));
            },
            Ok(()) => {},
        }
        let unet_list: Vec<Requirement> = vec![
            require("add_embedding.linear_1.weight", DType::F16, vec![1280, 2816]),
            require("conv_in.weight", DType::F16, vec![320, 4, 3, 3]),
        ];
        proof {
            assert(pack::requirements_of(unet_list@) =~~= unet_requirements());
        }
        match require_tensors(&unet, &unet_list) {
            Err(error) => {
                return Err(PackError::Weights(error));
            },
            Ok(()) => {},
        }
        let projection_list: Vec<Requirement> = vec![
            require("text_projection.weight", DType::F16, vec![1280, 1280]),
        ];
        proof {
            assert(pack::requirements_of(projection_list@) =~~= projection_requirements());
        }
        match require_tensors(&text_encoder_2, &projection_list) {
            Err(error) => {
                return Err(PackError::Weights(error));
            },
            Ok(()) => {},
        }
        Ok(SdxlPack { text_encoder, text_encoder_2, unet, vae, tokenizer, tokenizer_2 })
    }

    /// The length of all weight files together.
    pub fn total_bytes(&self) -> (total: usize)
        requires
            self.text_encoder.file().len() + self.text_encoder_2.file().len()
                + self.unet.file().len() + self.vae.file().len() <= usize::MAX,
        ensures
            total == self.text_encoder.file().len() + self.text_encoder_2.file().len()
                + self.unet.file().len() + self.vae.file().len(),
    {
        self.text_encoder.mapped_len() + self.text_encoder_2.mapped_len() + self.unet.mapped_len()
            + self.vae.mapped_len()
    }
}

/// The bit pattern of 0.13025, by which latents are divided.
pub const SCALING_FACTOR: u32 = 0x3e05_6042;

/// Why latents are not decoded to an image of finite numbers.
#[derive(Clone, Debug, PartialEq, Eq)]
pub enum DecodeError {
    Vae(VaeError),
    NonFinite,
}

impl DecodeError {
    /// The message for people.
    pub open spec fn text(self) -> Seq<char> {
        match self {
            DecodeError::Vae(error) => error@.text(),
            DecodeError::NonFinite => non_finite_text(),
        }
    }

    /// The message for people.
    pub fn message(&self) -> (message: String)
        ensures
            message@ == self.text(),
    {
        match self {
            DecodeError::Vae(error) => error.message(),
            DecodeError::NonFinite => {
                let mut out = "SDXL VAE decode produced non-finite output (a known fp16 ".to_owned();
                out.append("instability in the base VAE weights \u{2014} the ");
                out.append("'sdxl-vae-fp16-fix' community weights avoid this)");
                out
            },
        }
    }
}

/// What is said of an image that holds numbers that are not finite.
pub open spec fn non_finite_text() -> Seq<char> {
    "SDXL VAE decode produced non-finite output (a known fp16 "@
        + "instability in the base VAE weights \u{2014} the "@
        + "'sdxl-vae-fp16-fix' community weights avoid this)"@
}

/// Every element passes a test.
pub open spec fn all_pass<T, F: Fn(T) -> bool>(test: F, data: Seq<T>) -> bool {
    forall|i: int| 0 <= i < data.len() ==> call_ensures(test, (#[trigger] data[i],), true)
}

/// Some element fails a test.
pub open spec fn some_fails<T, F: Fn(T) -> bool>(test: F, data: Seq<T>) -> bool {
    exists|i: int| 0 <= i < data.len() && call_ensures(test, (#[trigger] data[i],), false)
}

/// Whether every element passes a test.
fn passes<T: Copy, F: Fn(T) -> bool>(test: &F, data: &[T]) -> (all: bool)
    requires
        fold::total1(*test),
    ensures
        all ==> all_pass(*test, data@),
        !all ==> some_fails(*test, data@),
{
    let mut i: usize = 0;
    assert(data@.len() == data.len());
    while i < data.len()
        invariant
            i <= data@.len(),
            data@.len() == data.len(),
            fold::total1(*test),
            forall|j: int| 0 <= j < i ==> call_ensures(*test, (#[trigger] data@[j],), true),
        decreases data@.len() - i,
    {
        if !test(data[i]) {
            assert(call_ensures(*test, (data@[i as int],), false));
            return false;
        }
        i = i + 1;
    }
    true
}

impl<'a> SdxlPack<'a> {
    /// Encodes a prompt to the text context and the pooled text embedding: the texts of both
    /// encoders side by side, and the embedding of the second.
    #[verifier::spinoff_prover]
    #[verifier::rlimit(80)]
    pub fn encode_prompt<
        T: Copy,
        Z: Copy,
        M: Fn(T, T, T) -> T + Copy,
        P: Fn(T, T) -> T + Copy,
        G: Fn(T, T) -> T + Copy,
        L: Fn(T) -> T + Copy,
        E: Fn(T) -> T + Copy,
        Q: Fn(T) -> T + Copy,
        A: Fn(&[T], u32) -> Z + Copy,
        B: Fn(T, Z, T, T) -> T + Copy,
        C: Fn(T, usize) -> T + Copy,
        H: Fn(Vec<T>) -> Vec<T> + Copy,
        N: Fn(Scalar) -> T + Copy,
    >(&self, kernels: &Kernels<T, M, P, G, L, E, Q, A, B, C, H, N>, prompt: &str) -> (result: Result<
        (Tensor<T>, Vec<T>),
        EncoderError,
    >)
        requires
            self.wf(),
            kernels.usable(),
        ensures
            exists|first: Result<Tensor<T>, EncoderError>|
                {
                    &&& #[trigger] sdxl_clip::encodes(
                        *kernels,
                        self.text_encoder.weights(),
                        self.tokenizer@.encode(prompt@),
                        sdxl_clip::clip_l_spec(),
                        first,
                    )
                    &&& match first {
                        Err(error) => result is Err && result->Err_0 == error,
                        Ok(text) => exists|second: Result<(Tensor<T>, Vec<T>), EncoderError>|
                            {
                                &&& #[trigger] sdxl_clip::encodes_and_pools(
                                    *kernels,
                                    self.text_encoder_2.weights(),
                                    self.tokenizer_2@.encode(prompt@),
                                    sdxl_clip::clip_bigg_spec(),
                                    second,
                                )
                                &&& match second {
                                    Err(error) => result is Err && result->Err_0 == error,
                                    Ok((text_2, pooled)) => {
                                        &&& result is Ok
                                        &&& result->Ok_0.0.wf()
                                        &&& result->Ok_0.0.dims() == seq![
                                            1usize,
                                            77usize,
                                            2048usize,
                                        ]
                                        &&& result->Ok_0.0.array() == reshape::joined_last(
                                            text.array(),
                                            text_2.array(),
                                        )
                                        &&& result->Ok_0.1@ == pooled@
                                    },
                                }
                            },
                    }
                },
    {
        let tokens: [u32; 77] = self.tokenizer.encode(prompt);
        let tokens_2: [u32; 77] = self.tokenizer_2.encode(prompt);
        let first = sdxl_clip::encode_penultimate(kernels, &self.text_encoder, &tokens, &clip_l());
        assert(sdxl_clip::encodes(
            *kernels,
            self.text_encoder.weights(),
            self.tokenizer@.encode(prompt@),
            sdxl_clip::clip_l_spec(),
            first,
        ));
        let text = match first {
            Ok(text) => text,
            Err(error) => {
                return Err(error);
            },
        };
        let second = sdxl_clip::encode_with_pool(
            kernels,
            &self.text_encoder_2,
            &tokens_2,
            &clip_bigg(),
        );
        assert(sdxl_clip::encodes_and_pools(
            *kernels,
            self.text_encoder_2.weights(),
            self.tokenizer_2@.encode(prompt@),
            sdxl_clip::clip_bigg_spec(),
            second,
        ));
        let (text_2, pooled) = match second {
            Ok(both) => both,
            Err(error) => {
                return Err(error);
            },
        };
        let joined = concat_last_dim(&text, &text_2);
        proof {
            assert(text.dims() == seq![1usize, 77usize, 768usize]);
            assert(text_2.dims() == seq![1usize, 77usize, 1280usize]);
            layout::lemma_product_small(text.dims());
            layout::lemma_product_small(text_2.dims());
        }
        let context = joined.unwrap();
        assert(context.dims() =~= seq![1usize, 77usize, 2048usize]);
        Ok((context, pooled))
    }

    /// Predicts the noise in a sample of latents.
    pub fn predict_noise<
        T: Copy,
        Z: Copy,
        M: Fn(T, T, T) -> T + Copy,
        P: Fn(T, T) -> T + Copy,
        G: Fn(T, T) -> T + Copy,
        L: Fn(T) -> T + Copy,
        E: Fn(T) -> T + Copy,
        Q: Fn(T) -> T + Copy,
        A: Fn(&[T], u32) -> Z + Copy,
        B: Fn(T, Z, T, T) -> T + Copy,
        C: Fn(T, usize) -> T + Copy,
        H: Fn(Vec<T>) -> Vec<T> + Copy,
        N: Fn(Scalar) -> T + Copy,
        U: Fn(u32, usize, usize) -> T + Copy,
        V: Fn(u32, usize, usize) -> T + Copy,
    >(
        &self,
        kernels: &Kernels<T, M, P, G, L, E, Q, A, B, C, H, N>,
        sample: &Tensor<T>,
        timestep: u32,
        context: &Tensor<T>,
        pooled_text_embed: &[T],
        time_ids: [u32; 6],
        cosine: U,
        sine: V,
    ) -> (result: Result<Tensor<T>, UnetError>)
        requires
            self.wf(),
            kernels.usable(),
            sample.wf(),
            context.wf(),
            fold::accepts3(cosine),
            fold::accepts3(sine),
            unet::input_refusal(
                UnetModel::Sdxl,
                sample.dims(),
                context.dims(),
                pooled_text_embed@.len(),
            ) is None ==> sample.dims()[0] * 320 <= usize::MAX,
        ensures
            sdxl_unet::predicts(
                *kernels,
                self.unet.weights(),
                sample.array(),
                timestep,
                context.array(),
                pooled_text_embed@,
                time_ids@,
                cosine,
                sine,
                result,
            ),
    {
        sdxl_unet::predict_noise(
            kernels,
            &self.unet,
            sample,
            timestep,
            context,
            pooled_text_embed,
            time_ids,
            cosine,
            sine,
        )
    }

    /// Decodes latents to an image of finite numbers.
    pub fn decode_latents<
        T: Copy,
        Z: Copy,
        M: Fn(T, T, T) -> T + Copy,
        P: Fn(T, T) -> T + Copy,
        G: Fn(T, T) -> T + Copy,
        L: Fn(T) -> T + Copy,
        E: Fn(T) -> T + Copy,
        Q: Fn(T) -> T + Copy,
        A: Fn(&[T], u32) -> Z + Copy,
        B: Fn(T, Z, T, T) -> T + Copy,
        C: Fn(T, usize) -> T + Copy,
        H: Fn(Vec<T>) -> Vec<T> + Copy,
        N: Fn(Scalar) -> T + Copy,
        F: Fn(usize, usize) -> T + Copy,
        W: Fn(T, T) -> T + Copy,
        O: Fn(T) -> bool + Copy,
        D: Fn(T, T) -> T + Copy,
        X: Fn(T, u32) -> T + Copy,
        Y: Fn(T) -> bool + Copy,
    >(
        &self,
        kernels: &Kernels<T, M, P, G, L, E, Q, A, B, C, H, N>,
        blend: &Blend<F, W, O, D>,
        latents: &Tensor<T>,
        divide: X,
        finite: Y,
    ) -> (result: Result<Tensor<T>, DecodeError>)
        requires
            self.wf(),
            kernels.usable(),
            blend.usable(),
            latents.wf(),
            fold::total2(divide),
            fold::total1(finite),
            sd_vae::latents_fit(latents.dims()) ==> 192 * (latents.dims()[2] * latents.dims()[3])
                <= usize::MAX,
        ensures
            exists|decoded: Result<Tensor<T>, VaeError>|
                {
                    &&& #[trigger] sd_vae::decodes_scaled(
                        *kernels,
                        *blend,
                        self.vae.weights(),
                        latents.array(),
                        SCALING_FACTOR,
                        divide,
                        decoded,
                    )
                    &&& match decoded {
                        Err(error) => result is Err && result->Err_0 == DecodeError::Vae(error),
                        Ok(image) => match result {
                            Ok(out) => out == image && out.wf() && all_pass(finite, image@),
                            Err(error) => error is NonFinite && some_fails(finite, image@),
                        },
                    }
                },
    {
        let scaled = unscale(latents, SCALING_FACTOR, &divide);
        assert(sd_vae::unscaled(divide, SCALING_FACTOR, latents.array(), scaled.array()));
        let decoded = sd_vae::decode_unscaled(kernels, blend, &self.vae, &scaled);
        assert(sd_vae::decodes_scaled(
            *kernels,
            *blend,
            self.vae.weights(),
            latents.array(),
            SCALING_FACTOR,
            divide,
            decoded,
        ));
        match decoded {
            Ok(image) => {
                if !passes(&finite, image.data()) {
                    return Err(DecodeError::NonFinite);
                }
                Ok(image)
            },
            Err(error) => Err(DecodeError::Vae(error)),
        }
    }
}

} // verus!
