//! The shape of a language model.

use vstd::prelude::*;
use crate::float_order;
use crate::gguf;
use crate::gguf::{GgufFile, GgufValue};
use crate::text;
use crate::text::{chars_of, find_from};

verus! {

/// The bit pattern of 10000.
pub const DEFAULT_ROPE_THETA: u32 = 0x461c_4000;

/// The bit pattern of 1.
pub const ONE: u32 = 0x3f80_0000;

/// The shape of a language model.
#[derive(Clone, Copy, Debug, PartialEq, Eq)]
pub struct Config {
    pub vocab_size: usize,
    pub embed_dim: usize,
    pub n_heads: usize,
    pub n_kv_heads: usize,
    pub n_layers: usize,
    pub ffn_dim: usize,
    /// The bit pattern of the base of the rotary frequencies.
    pub rope_theta: u32,
    /// The width of a head of queries and keys.
    pub head_dim: usize,
    /// Zero for a dense feed-forward network.
    pub n_experts: usize,
    /// How many experts each token is routed to.
    pub n_experts_used: usize,
    /// The bit pattern of the scaling factor of the rotary frequencies.
    pub yarn_scale: u32,
    pub yarn_orig_ctx: usize,
    /// Whether the experts clamp their gates and values.
    pub clamped_swiglu: bool,
}

/// Why a file gives no shape.
#[derive(Clone, Copy, Debug, PartialEq, Eq)]
pub enum ConfigError {
    EmbeddingLength,
    HeadCount,
    BlockCount,
    FeedForwardLength,
    NoHeads,
    VocabSize,
}

impl ConfigError {
    /// What the message says.
    pub open spec fn text(self) -> Seq<char> {
        match self {
            ConfigError::EmbeddingLength => "missing embedding_length"@,
            ConfigError::HeadCount => "missing head_count"@,
            ConfigError::BlockCount => "missing block_count"@,
            ConfigError::FeedForwardLength => "missing feed_forward_length"@,
            ConfigError::NoHeads => "attempt to divide by zero"@,
            ConfigError::VocabSize => "cannot determine vocab_size"@,
        }
    }

    /// A message for the user.
    pub fn message(self) -> (message: &'static str)
        ensures
            message@ == self.text(),
    {
        match self {
            ConfigError::EmbeddingLength => "missing embedding_length",
            ConfigError::HeadCount => "missing head_count",
            ConfigError::BlockCount => "missing block_count",
            ConfigError::FeedForwardLength => "missing feed_forward_length",
            ConfigError::NoHeads => "attempt to divide by zero",
            ConfigError::VocabSize => "cannot determine vocab_size",
        }
    }
}

/// A number, or what stands for it.
pub open spec fn or_else<V>(found: Option<V>, other: V) -> V {
    match found {
        Some(v) => v,
        None => other,
    }
}

/// The size of the vocabulary: the architecture's own number, or the length of the token list.
pub open spec fn vocab_size_of(contents: gguf::GgufContents) -> Option<u32> {
    match contents.arch_u32("vocab_size"@) {
        Some(n) => Some(n),
        None => match contents.at("tokenizer.ggml.tokens"@) {
            Some(gguf::GgufData::Array(items)) => Some(items.len() as u32),
            _ => None,
        },
    }
}

/// The architecture is one whose experts clamp their gates and values.
pub open spec fn clamps(contents: gguf::GgufContents) -> bool {
    text::first_from(or_else(contents.architecture(), "llama"@), "gpt-oss"@, 0) is Some
}

/// The shape that a file gives, or why it gives none.
pub open spec fn config_of(contents: gguf::GgufContents) -> Result<Config, ConfigError> {
    let heads = contents.arch_u32_any(seq!["head_count"@, "attention.head_count"@]);
    let ffn = contents.arch_u32_any(
        seq![
            "expert_feed_forward_length"@,
            "feed_forward_length"@,
            "attention.feed_forward_length"@,
        ],
    );
    let key_length = contents.arch_u32_any(seq!["attention.key_length"@]);
    let experts = or_else(
        contents.arch_u32_any(seq!["expert_count"@, "experts_count"@, "num_experts"@]),
        0,
    );
    if contents.arch_u32("embedding_length"@) is None {
        Err(ConfigError::EmbeddingLength)
    } else if heads is None {
        Err(ConfigError::HeadCount)
    } else if contents.arch_u32("block_count"@) is None {
        Err(ConfigError::BlockCount)
    } else if ffn is None {
        Err(ConfigError::FeedForwardLength)
    } else if heads->0 == 0 {
        Err(ConfigError::NoHeads)
    } else if vocab_size_of(contents) is None {
        Err(ConfigError::VocabSize)
    } else {
        Ok(
            Config {
                vocab_size: vocab_size_of(contents)->0 as usize,
                embed_dim: contents.arch_u32("embedding_length"@)->0 as usize,
                n_heads: heads->0 as usize,
                n_kv_heads: or_else(
                    contents.arch_u32_any(seq!["head_count_kv"@, "attention.head_count_kv"@]),
                    heads->0,
                ) as usize,
                n_layers: contents.arch_u32("block_count"@)->0 as usize,
                ffn_dim: ffn->0 as usize,
                rope_theta: or_else(
                    contents.arch_f32_any(seq!["rope.freq_base"@, "attention.rope.freq_base"@]),
                    DEFAULT_ROPE_THETA,
                ),
                head_dim: match key_length {
                    Some(n) => n as usize,
                    None => (contents.arch_u32("embedding_length"@)->0 / heads->0) as usize,
                },
                n_experts: experts as usize,
                n_experts_used: or_else(
                    contents.arch_u32_any(seq!["expert_used_count"@, "experts_used"@]),
                    if experts > 0 {
                        2
                    } else {
                        0
                    },
                ) as usize,
                yarn_scale: or_else(contents.arch_f32_any(seq!["rope.scaling.factor"@]), ONE),
                yarn_orig_ctx: or_else(
                    contents.arch_u32_any(seq!["rope.scaling.original_context_length"@]),
                    0,
                ) as usize,
                clamped_swiglu: clamps(contents),
            },
        )
    }
}

/// A number of the architecture.
fn u32_of1(file: &GgufFile, first: &str) -> (found: Option<u32>)
    ensures
        found == file@.arch_u32_any(seq![first@]),
{
    let suffixes = [first];
    proof {
        assert(Seq::new(suffixes@.len(), |i: int| suffixes@[i]@) =~= seq![first@]);
    }
    file.arch_u32_any(&suffixes)
}

/// The first of two numbers that the architecture has.
fn u32_of2(file: &GgufFile, first: &str, second: &str) -> (found: Option<u32>)
    ensures
        found == file@.arch_u32_any(seq![first@, second@]),
{
    let suffixes = [first, second];
    proof {
        assert(Seq::new(suffixes@.len(), |i: int| suffixes@[i]@) =~= seq![first@, second@]);
    }
    file.arch_u32_any(&suffixes)
}

/// The first of three numbers that the architecture has.
fn u32_of3(file: &GgufFile, first: &str, second: &str, third: &str) -> (found: Option<u32>)
    ensures
        found == file@.arch_u32_any(seq![first@, second@, third@]),
{
    let suffixes = [first, second, third];
    proof {
        assert(Seq::new(suffixes@.len(), |i: int| suffixes@[i]@) =~= seq![first@, second@, third@]);
    }
    file.arch_u32_any(&suffixes)
}

/// A single-precision number of the architecture, by bit pattern.
fn f32_of1(file: &GgufFile, first: &str) -> (found: Option<u32>)
    ensures
        found == file@.arch_f32_any(seq![first@]),
{
    let suffixes = [first];
    proof {
        assert(Seq::new(suffixes@.len(), |i: int| suffixes@[i]@) =~= seq![first@]);
    }
    file.arch_f32_any(&suffixes)
}

/// The first of two single-precision numbers that the architecture has, by bit pattern.
fn f32_of2(file: &GgufFile, first: &str, second: &str) -> (found: Option<u32>)
    ensures
        found == file@.arch_f32_any(seq![first@, second@]),
{
    let suffixes = [first, second];
    proof {
        assert(Seq::new(suffixes@.len(), |i: int| suffixes@[i]@) =~= seq![first@, second@]);
    }
    file.arch_f32_any(&suffixes)
}

impl Config {
    /// The width of all queries of a token.
    pub open spec fn q_total(self) -> nat {
        (self.n_heads * self.head_dim) as nat
    }

    /// The width of all keys of a token.
    pub open spec fn kv_total(self) -> nat {
        (self.n_kv_heads * self.head_dim) as nat
    }

    /// The rotary frequencies are scaled.
    pub open spec fn scaled(self) -> bool {
        float_order::greater(self.yarn_scale, ONE) && self.yarn_orig_ctx > 0
    }

    /// Reads the shape of a model from its file.
    pub fn from_gguf(file: &GgufFile) -> (result: Result<Self, ConfigError>)
        ensures
            result == config_of(file@),
    {
        let embed_dim: u32 = match file.arch_u32("embedding_length") {
            Some(n) => n,
            None => {
                return Err(ConfigError::EmbeddingLength);
            },
        };
        let n_heads: u32 = match u32_of2(file, "head_count", "attention.head_count") {
            Some(n) => n,
            None => {
                return Err(ConfigError::HeadCount);
            },
        };
        let n_kv_heads: u32 = match u32_of2(file, "head_count_kv", "attention.head_count_kv") {
            Some(n) => n,
            None => n_heads,
        };
        let n_layers: u32 = match file.arch_u32("block_count") {
            Some(n) => n,
            None => {
                return Err(ConfigError::BlockCount);
            },
        };
        let ffn_dim: u32 = match u32_of3(
            file,
            "expert_feed_forward_length",
            "feed_forward_length",
            "attention.feed_forward_length",
        ) {
            Some(n) => n,
            None => {
                return Err(ConfigError::FeedForwardLength);
            },
        };
        let rope_theta: u32 = match f32_of2(file, "rope.freq_base", "attention.rope.freq_base") {
            Some(bits) => bits,
            None => DEFAULT_ROPE_THETA,
        };
        if n_heads == 0 {
            return Err(ConfigError::NoHeads);
        }
        let head_dim: u32 = match u32_of1(file, "attention.key_length") {
            Some(n) => n,
            None => embed_dim / n_heads,
        };
        let vocab_size: u32 = match file.arch_u32("vocab_size") {
            Some(n) => n,
            None => match file.metadata.get("tokenizer.ggml.tokens") {
                Some(GgufValue::Array(items)) => items.len() as u32,
                _ => {
                    return Err(ConfigError::VocabSize);
                },
            },
        };
        let n_experts: u32 = match u32_of3(file, "expert_count", "experts_count", "num_experts") {
            Some(n) => n,
            None => 0,
        };
        let n_experts_used: u32 = match u32_of2(file, "expert_used_count", "experts_used") {
            Some(n) => n,
            None => if n_experts > 0 {
                2
            } else {
                0
            },
        };
        let yarn_scale: u32 = match f32_of1(file, "rope.scaling.factor") {
            Some(bits) => bits,
            None => ONE,
        };
        let yarn_orig_ctx: u32 = match u32_of1(file, "rope.scaling.original_context_length") {
            Some(n) => n,
            None => 0,
        };
        let name = match file.architecture() {
            Some(name) => name,
            None => "llama",
        };
        let clamped_swiglu = find_from(&chars_of(name), &chars_of("gpt-oss"), 0).is_some();
        Ok(
            Config {
                vocab_size: vocab_size as usize,
                embed_dim: embed_dim as usize,
                n_heads: n_heads as usize,
                n_kv_heads: n_kv_heads as usize,
                n_layers: n_layers as usize,
                ffn_dim: ffn_dim as usize,
                rope_theta,
                head_dim: head_dim as usize,
                n_experts: n_experts as usize,
                n_experts_used: n_experts_used as usize,
                yarn_scale,
                yarn_orig_ctx: yarn_orig_ctx as usize,
                clamped_swiglu,
            },
        )
    }

    /// The width of all queries of a token.
    pub fn q_total_dim(&self) -> (width: usize)
        requires
            self.q_total() <= usize::MAX,
        ensures
            width == self.q_total(),
    {
        self.n_heads * self.head_dim
    }

    /// The width of all keys of a token.
    pub fn kv_total_dim(&self) -> (width: usize)
        requires
            self.kv_total() <= usize::MAX,
        ensures
            width == self.kv_total(),
    {
        self.n_kv_heads * self.head_dim
    }

    /// Whether the rotary frequencies are scaled.
    pub fn use_yarn(&self) -> (scaled: bool)
        ensures
            scaled == self.scaled(),
    {
        float_order::is_greater(self.yarn_scale, ONE) && self.yarn_orig_ctx > 0
    }
}

} // verus!
