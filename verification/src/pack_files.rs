//! The files of a diffusion model pack, and how each of them is read.

use vstd::prelude::*;
use crate::bpe;
use crate::clip_tokenizer;
use crate::clip_tokenizer::{ClipError, ClipFault, ClipTokenizer};
use crate::config;
use crate::config::{check_rules, ConfigError, ConfigFault, Decimal, Rule, RuleData};
use crate::json;
use crate::pack::{WeightsError, WeightsFault};
use crate::safetensors;
use crate::safetensors::{HeaderError, SafeTensorFile};
use crate::text;
use crate::text::push_decimal;

verus! {

broadcast use vstd::string::group_string_axioms;

/// The model family of a pack.
#[derive(Clone, Copy, Debug, PartialEq, Eq, Structural)]
pub enum Family {
    Sd15,
    Sdxl,
}

/// A file of a pack.
#[derive(Clone, Copy, Debug, PartialEq, Eq, Structural)]
pub enum PackFile {
    ModelIndex,
    TextConfig,
    TextConfig2,
    UnetConfig,
    VaeConfig,
    SchedulerConfig,
    Vocabulary,
    Merges,
    Vocabulary2,
    Merges2,
    TextWeights,
    TextWeights2,
    UnetWeights,
    VaeWeights,
}

impl PackFile {
    /// Where in the pack the file lies.
    pub open spec fn location(self) -> Seq<char> {
        match self {
            PackFile::ModelIndex => "model_index.json"@,
            PackFile::TextConfig => "text_encoder/config.json"@,
            PackFile::TextConfig2 => "text_encoder_2/config.json"@,
            PackFile::UnetConfig => "unet/config.json"@,
            PackFile::VaeConfig => "vae/config.json"@,
            PackFile::SchedulerConfig => "scheduler/scheduler_config.json"@,
            PackFile::Vocabulary => "tokenizer/vocab.json"@,
            PackFile::Merges => "tokenizer/merges.txt"@,
            PackFile::Vocabulary2 => "tokenizer_2/vocab.json"@,
            PackFile::Merges2 => "tokenizer_2/merges.txt"@,
            PackFile::TextWeights => "text_encoder/model.fp16.safetensors"@,
            PackFile::TextWeights2 => "text_encoder_2/model.fp16.safetensors"@,
            PackFile::UnetWeights => "unet/diffusion_pytorch_model.fp16.safetensors"@,
            PackFile::VaeWeights => "vae/diffusion_pytorch_model.fp16.safetensors"@,
        }
    }

    /// Where in the pack the file lies.
    pub fn path(self) -> (path: &'static str)
        ensures
            path@ == self.location(),
    {
        match self {
            PackFile::ModelIndex => "model_index.json",
            PackFile::TextConfig => "text_encoder/config.json",
            PackFile::TextConfig2 => "text_encoder_2/config.json",
            PackFile::UnetConfig => "unet/config.json",
            PackFile::VaeConfig => "vae/config.json",
            PackFile::SchedulerConfig => "scheduler/scheduler_config.json",
            PackFile::Vocabulary => "tokenizer/vocab.json",
            PackFile::Merges => "tokenizer/merges.txt",
            PackFile::Vocabulary2 => "tokenizer_2/vocab.json",
            PackFile::Merges2 => "tokenizer_2/merges.txt",
            PackFile::TextWeights => "text_encoder/model.fp16.safetensors",
            PackFile::TextWeights2 => "text_encoder_2/model.fp16.safetensors",
            PackFile::UnetWeights => "unet/diffusion_pytorch_model.fp16.safetensors",
            PackFile::VaeWeights => "vae/diffusion_pytorch_model.fp16.safetensors",
        }
    }

    /// What messages call the part of the model that the file holds.
    pub open spec fn label(self) -> Seq<char> {
        match self {
            PackFile::Vocabulary | PackFile::Merges => "tokenizer"@,
            PackFile::Vocabulary2 | PackFile::Merges2 => "tokenizer_2"@,
            PackFile::TextWeights | PackFile::TextConfig => "text encoder"@,
            PackFile::TextWeights2 | PackFile::TextConfig2 => "text encoder 2"@,
            PackFile::UnetWeights | PackFile::UnetConfig => "UNet"@,
            PackFile::VaeWeights | PackFile::VaeConfig => "VAE"@,
            PackFile::ModelIndex => "model index"@,
            PackFile::SchedulerConfig => "scheduler"@,
        }
    }

    /// What messages call the part of the model that the file holds.
    pub fn name(self) -> (name: &'static str)
        ensures
            name@ == self.label(),
    {
        match self {
            PackFile::Vocabulary | PackFile::Merges => "tokenizer",
            PackFile::Vocabulary2 | PackFile::Merges2 => "tokenizer_2",
            PackFile::TextWeights | PackFile::TextConfig => "text encoder",
            PackFile::TextWeights2 | PackFile::TextConfig2 => "text encoder 2",
            PackFile::UnetWeights | PackFile::UnetConfig => "UNet",
            PackFile::VaeWeights | PackFile::VaeConfig => "VAE",
            PackFile::ModelIndex => "model index",
            PackFile::SchedulerConfig => "scheduler",
        }
    }
}

/// Why a pack is refused.
#[allow(inconsistent_fields)]
#[derive(Clone, Debug, PartialEq, Eq)]
pub enum PackError {
    Unreadable { file: PackFile },
    NotJson { file: PackFile },
    Config(ConfigError),
    Tokenizer { file: PackFile, error: ClipError },
    SpecialTokens { file: PackFile, bos: u32, eos: u32 },
    Container { file: PackFile, error: HeaderError },
    Weights(WeightsError),
}

/// What a [`PackError`] says, with texts and lists as sequences. What is wrong with a container is
/// left to its own error.
pub enum PackFault {
    Unreadable { file: PackFile },
    NotJson { file: PackFile },
    Config(ConfigFault),
    Tokenizer { file: PackFile, fault: ClipFault },
    SpecialTokens { file: PackFile, bos: u32, eos: u32 },
    Container { file: PackFile },
    Weights(WeightsFault),
}

impl View for PackError {
    type V = PackFault;

    open spec fn view(&self) -> PackFault {
        match *self {
            PackError::Unreadable { file } => PackFault::Unreadable { file },
            PackError::NotJson { file } => PackFault::NotJson { file },
            PackError::Config(error) => PackFault::Config(error@),
            PackError::Tokenizer { file, error } => PackFault::Tokenizer { file, fault: error@ },
            PackError::SpecialTokens { file, bos, eos } => PackFault::SpecialTokens {
                file,
                bos,
                eos,
            },
            PackError::Container { file, error } => PackFault::Container { file },
            PackError::Weights(error) => PackFault::Weights(error@),
        }
    }
}

/// How messages write a family.
pub open spec fn family_text(family: Family) -> Seq<char> {
    match family {
        Family::Sd15 => "SD1.5"@,
        Family::Sdxl => "SDXL"@,
    }
}

impl PackFault {
    /// A message tells of the fault. `show` writes a number in double precision.
    pub open spec fn told<S: Fn(Decimal) -> String>(
        self,
        family: Family,
        show: S,
        message: Seq<char>,
    ) -> bool {
        match self {
            PackFault::Config(fault) => fault.told(show, message),
            _ => message == self.text(family),
        }
    }

    /// The message for people, but for what a configuration says.
    pub open spec fn text(self, family: Family) -> Seq<char> {
        match self {
            PackFault::Unreadable { file } => "required model file is missing: "@
                + file.location(),
            PackFault::NotJson { file } => "invalid JSON in "@ + file.location(),
            PackFault::Config(_) => Seq::empty(),
            PackFault::Tokenizer { file, fault } => match family {
                Family::Sd15 => "invalid SD1.5 CLIP tokenizer"@,
                Family::Sdxl => "invalid SDXL "@ + file.label(),
            },
            PackFault::SpecialTokens { file, bos, eos } => file.label()
                + " special-token IDs are "@ + text::decimal(bos as nat) + ", "@ + text::decimal(
                eos as nat,
            ) + "; "@ + family_text(family) + " requires 49406, 49407"@,
            PackFault::Container { file } => "cannot load "@ + family_text(family) + " "@
                + file.label(),
            PackFault::Weights(fault) => fault.text(),
        }
    }
}

/// How messages write a family.
pub fn family_name(family: Family) -> (name: &'static str)
    ensures
        name@ == family_text(family),
{
    match family {
        Family::Sd15 => "SD1.5",
        Family::Sdxl => "SDXL",
    }
}

impl PackError {
    /// The message for people. `show` writes a number in double precision.
    pub fn message<S: Fn(Decimal) -> String>(&self, family: Family, show: &S) -> (message: String)
        requires
            forall|d: Decimal| call_requires(*show, (d,)),
        ensures
            self@.told(family, *show, message@),
    {
        let mut out = String::new();
        match self {
            PackError::Unreadable { file } => {
                out.append("required model file is missing: ");
                out.append(file.path());
            },
            PackError::NotJson { file } => {
                out.append("invalid JSON in ");
                out.append(file.path());
            },
            PackError::Config(error) => {
                return error.message(show);
            },
            PackError::Tokenizer { file, error: _ } => match family {
                Family::Sd15 => {
                    out.append("invalid SD1.5 CLIP tokenizer");
                },
                Family::Sdxl => {
                    out.append("invalid SDXL ");
                    out.append(file.name());
                },
            },
            PackError::SpecialTokens { file, bos, eos } => {
                out.append(file.name());
                out.append(" special-token IDs are ");
                push_decimal(&mut out, *bos as u64);
                out.append(", ");
                push_decimal(&mut out, *eos as u64);
                out.append("; ");
                out.append(family_name(family));
                out.append(" requires 49406, 49407");
            },
            PackError::Container { file, error: _ } => {
                out.append("cannot load ");
                out.append(family_name(family));
                out.append(" ");
                out.append(file.name());
            },
            PackError::Weights(error) => {
                return error.message();
            },
        }
        out
    }
}

/// The bytes of a file that could be read.
pub open spec fn bytes_of(file: Option<&[u8]>) -> Option<Seq<u8>> {
    match file {
        Some(bytes) => Some(bytes@),
        None => None,
    }
}

/// The text of a file that could be read.
pub open spec fn text_of(file: Option<&str>) -> Option<Seq<char>> {
    match file {
        Some(text) => Some(text@),
        None => None,
    }
}

/// What is wrong with a configuration file.
pub open spec fn config_fault(
    bytes: Option<Seq<u8>>,
    file: PackFile,
    rules: Seq<RuleData>,
) -> Option<PackFault> {
    match bytes {
        None => Some(PackFault::Unreadable { file }),
        Some(bytes) => match json::json_document(bytes) {
            None => Some(PackFault::NotJson { file }),
            Some(document) => match config::first_fault(document, rules) {
                Some(fault) => Some(PackFault::Config(fault)),
                None => None,
            },
        },
    }
}

/// The tokenizer that a vocabulary and a merge table make.
pub open spec fn lexicon(vocabulary: Seq<char>, merges: Seq<char>) -> Result<
    clip_tokenizer::ClipLexicon,
    ClipFault,
> {
    clip_tokenizer::lexicon_of(json::json_numbers(vocabulary), merges)
}

/// What is wrong with the files of a tokenizer.
pub open spec fn tokenizer_fault(
    vocabulary: Option<Seq<char>>,
    merges: Option<Seq<char>>,
    vocabulary_file: PackFile,
    merges_file: PackFile,
) -> Option<PackFault> {
    match (vocabulary, merges) {
        (None, _) => Some(PackFault::Unreadable { file: vocabulary_file }),
        (_, None) => Some(PackFault::Unreadable { file: merges_file }),
        (Some(vocabulary), Some(merges)) => match lexicon(vocabulary, merges) {
            Err(fault) => Some(PackFault::Tokenizer { file: vocabulary_file, fault }),
            Ok(_) => None,
        },
    }
}

/// What is wrong with the first two identifiers of the empty prompt.
pub open spec fn special_fault(
    vocabulary: Option<Seq<char>>,
    merges: Option<Seq<char>>,
    file: PackFile,
) -> Option<PackFault> {
    let ids = lexicon(vocabulary->0, merges->0)->Ok_0.encode(Seq::empty());
    if ids[0] != 49406 || ids[1] != 49407 {
        Some(PackFault::SpecialTokens { file, bos: ids[0], eos: ids[1] })
    } else {
        None
    }
}

/// What is wrong with a weight file as a container.
pub open spec fn container_fault(bytes: Option<Seq<u8>>, file: PackFile) -> Option<PackFault> {
    match bytes {
        None => Some(PackFault::Unreadable { file }),
        Some(bytes) => if safetensors::accepts(bytes) {
            None
        } else {
            Some(PackFault::Container { file })
        },
    }
}

/// A fault of the weights is a fault of the pack.
pub open spec fn weights_fault(fault: Option<WeightsFault>) -> Option<PackFault> {
    match fault {
        Some(fault) => Some(PackFault::Weights(fault)),
        None => None,
    }
}

/// Reads a configuration file and checks it.
pub fn check_config(bytes: Option<&[u8]>, file: PackFile, rules: &Vec<Rule>) -> (result: Result<
    (),
    PackError,
>)
    ensures
        match config_fault(bytes_of(bytes), file, config::rules_of(rules@)) {
            Some(fault) => result is Err && result->Err_0@ == fault && !(
            result->Err_0 is Container),
            None => result is Ok,
        },
{
    match bytes {
        None => Err(PackError::Unreadable { file }),
        Some(bytes) => match json::parse(bytes) {
            None => Err(PackError::NotJson { file }),
            Some(document) => match check_rules(&document, rules) {
                Ok(()) => Ok(()),
                Err(error) => Err(PackError::Config(error)),
            },
        },
    }
}

/// Reads a tokenizer.
pub fn load_tokenizer(
    vocabulary: Option<&str>,
    merges: Option<&str>,
    vocabulary_file: PackFile,
    merges_file: PackFile,
) -> (result: Result<ClipTokenizer, PackError>)
    ensures
        match tokenizer_fault(text_of(vocabulary), text_of(merges), vocabulary_file, merges_file) {
            Some(fault) => result is Err && result->Err_0@ == fault && !(
            result->Err_0 is Container),
            None => {
                &&& result is Ok && result->Ok_0.wf()
                &&& vocabulary is Some && merges is Some
                &&& lexicon(vocabulary->0@, merges->0@) == Ok::<_, ClipFault>(result->Ok_0@)
            },
        },
{
    match (vocabulary, merges) {
        (None, _) => Err(PackError::Unreadable { file: vocabulary_file }),
        (_, None) => Err(PackError::Unreadable { file: merges_file }),
        (Some(vocabulary), Some(merges)) => match ClipTokenizer::from_texts(vocabulary, merges) {
            Ok(tokenizer) => Ok(tokenizer),
            Err(error) => Err(PackError::Tokenizer { file: vocabulary_file, error }),
        },
    }
}

/// Checks the first two identifiers of the empty prompt.
pub fn check_special(tokenizer: &ClipTokenizer, file: PackFile) -> (result: Result<(), PackError>)
    requires
        tokenizer.wf(),
    ensures
        ({
            let ids = tokenizer@.encode(Seq::empty());
            if ids[0] != 49406 || ids[1] != 49407 {
                result == Err::<(), _>(PackError::SpecialTokens { file, bos: ids[0], eos: ids[1] })
            } else {
                result is Ok
            }
        }),
{
    proof {
        reveal_strlit("");
        assert(""@ =~= Seq::empty());
    }
    let ids: [u32; 77] = tokenizer.encode("");
    if ids[0] != 49406 || ids[1] != 49407 {
        Err(PackError::SpecialTokens { file, bos: ids[0], eos: ids[1] })
    } else {
        Ok(())
    }
}

/// Reads a weight file.
pub fn load_weights<'a>(bytes: Option<&'a [u8]>, file: PackFile) -> (result: Result<
    SafeTensorFile<'a>,
    PackError,
>)
    ensures
        match container_fault(bytes_of(bytes), file) {
            Some(fault) => {
                &&& result is Err && result->Err_0@ == fault
                &&& result->Err_0 matches PackError::Container { file: f, error }
                    ==> safetensors::refuses(bytes->0@, error@)
            },
            None => {
                &&& bytes is Some
                &&& result is Ok && result->Ok_0.wf()
                &&& safetensors::accepts(bytes->0@)
                &&& result->Ok_0.tensors() == safetensors::listed(bytes->0@)->Ok_0
                &&& result->Ok_0.file() == bytes->0@
            },
        },
{
    match bytes {
        None => Err(PackError::Unreadable { file }),
        Some(bytes) => match SafeTensorFile::parse(bytes) {
            Ok(weights) => Ok(weights),
            Err(error) => Err(PackError::Container { file, error }),
        },
    }
}

/// Why a file of a pack is not taken.
#[derive(Clone, Copy, Debug, PartialEq, Eq, Structural)]
pub enum FileRefusal {
    Missing,
    Escapes,
    NotRegular,
}

/// One path lies under another: it starts with all of the other's parts.
pub open spec fn lies_under(parts: Seq<Seq<char>>, root: Seq<Seq<char>>) -> bool {
    root.len() <= parts.len() && parts.take(root.len() as int) == root
}

/// Whether a file of a pack may be used: it must exist, lie under the pack's directory when every
/// link in its path has been followed, and be a regular file. Paths are given by their parts.
pub fn required_file(root: &Vec<String>, resolved: Option<&Vec<String>>, is_file: bool) -> (result:
    Result<(), FileRefusal>)
    ensures
        result == match resolved {
            None => Err::<(), FileRefusal>(FileRefusal::Missing),
            Some(parts) => if !lies_under(
                bpe::texts(parts@),
                bpe::texts(root@),
            ) {
                Err(FileRefusal::Escapes)
            } else if !is_file {
                Err(FileRefusal::NotRegular)
            } else {
                Ok(())
            },
        },
{
    match resolved {
        None => Err(FileRefusal::Missing),
        Some(parts) => {
            let ghost all = bpe::texts(parts@);
            let ghost top = bpe::texts(root@);
            if parts.len() < root.len() {
                return Err(FileRefusal::Escapes);
            }
            let mut i: usize = 0;
            while i < root.len()
                invariant
                    i <= root@.len() <= parts@.len(),
                    resolved == Some(parts),
                    all == bpe::texts(parts@),
                    top == bpe::texts(root@),
                    forall|j: int| 0 <= j < i ==> all[j] == top[j],
                decreases root.len() - i,
            {
                if !text::same_text(parts[i].as_str(), root[i].as_str()) {
                    proof {
                        assert(all.take(top.len() as int)[i as int] != top[i as int]);
                    }
                    return Err(FileRefusal::Escapes);
                }
                i = i + 1;
            }
            proof {
                assert(all.take(top.len() as int) =~= top);
            }
            if is_file {
                Ok(())
            } else {
                Err(FileRefusal::NotRegular)
            }
        },
    }
}

} // verus!
