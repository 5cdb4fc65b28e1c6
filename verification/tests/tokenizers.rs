use quartz::gguf::{read_string, read_u32, GgufError, GgufFile, GgufValue, Width};
use quartz::t5_tokenizer::T5Tokenizer;
use quartz::tokenizer::{build_prompt, pre_tokenize, Format, Tokenizer};

#[derive(Default)]
struct Builder {
    entries: Vec<u8>,
    count: u64,
}

fn string(text: &str) -> Vec<u8> {
    let mut bytes = (text.len() as u64).to_le_bytes().to_vec();
    bytes.extend_from_slice(text.as_bytes());
    bytes
}

impl Builder {
    fn entry(mut self, key: &str, kind: u32, value: &[u8]) -> Self {
        self.entries.extend_from_slice(&string(key));
        self.entries.extend_from_slice(&kind.to_le_bytes());
        self.entries.extend_from_slice(value);
        self.count += 1;
        self
    }

    fn number(self, key: &str, value: u32) -> Self {
        self.entry(key, 4, &value.to_le_bytes())
    }

    fn text(self, key: &str, value: &str) -> Self {
        self.entry(key, 8, &string(value))
    }

    fn texts<S: AsRef<str>>(self, key: &str, values: &[S]) -> Self {
        let mut bytes = 8u32.to_le_bytes().to_vec();
        bytes.extend_from_slice(&(values.len() as u64).to_le_bytes());
        for value in values {
            bytes.extend_from_slice(&string(value.as_ref()));
        }
        self.entry(key, 9, &bytes)
    }

    fn floats(self, key: &str, values: &[f32]) -> Self {
        let mut bytes = 6u32.to_le_bytes().to_vec();
        bytes.extend_from_slice(&(values.len() as u64).to_le_bytes());
        for value in values {
            bytes.extend_from_slice(&value.to_le_bytes());
        }
        self.entry(key, 9, &bytes)
    }

    fn build(self) -> Vec<u8> {
        let mut bytes = 0x4655_4747u32.to_le_bytes().to_vec();
        bytes.extend_from_slice(&3u32.to_le_bytes());
        bytes.extend_from_slice(&0u64.to_le_bytes());
        bytes.extend_from_slice(&self.count.to_le_bytes());
        bytes.extend_from_slice(&self.entries);
        bytes
    }
}

fn plus(a: u32, b: u32) -> u32 {
    (f32::from_bits(a) + f32::from_bits(b)).to_bits()
}

/// A vocabulary in which the words of the tests have their numbers in the full one.
fn umt5() -> Vec<u8> {
    let mut tokens: Vec<String> = (0..56_210).map(|id| format!("\u{1}{id}")).collect();
    let mut scores = vec![-20.0f32; 56_210];
    for (id, text, score) in [
        (0, "<pad>", 0.0),
        (1, "</s>", 0.0),
        (2, "<unk>", 0.0),
        (273, "\u{2581}", -3.197),
        (289, "\u{2581}a", -4.0),
        (960, "\u{2581}f", -9.0),
        (4062, "\u{2581}red", -9.5),
        (5000, "ox", -10.0),
        (56_209, "fox", -13.09),
    ] {
        tokens[id] = text.to_string();
        scores[id] = score;
    }
    Builder::default()
        .texts("tokenizer.ggml.tokens", &tokens)
        .floats("tokenizer.ggml.scores", &scores)
        .build()
}

fn load(bytes: &[u8]) -> T5Tokenizer {
    match GgufFile::parse(bytes) {
        Ok(file) => T5Tokenizer::from_gguf(&file).unwrap(),
        Err(error) => panic!("{}", error.message()),
    }
}

#[test]
fn matches_reference_tokens_for_a_red_fox() {
    let bytes = umt5();
    let tk = load(&bytes);
    assert_eq!(tk.encode("a red fox", plus), vec![289, 4062, 273, 56209, 1]);
}

#[test]
fn pads_to_the_full_encoder_context() {
    let bytes = umt5();
    let tk = load(&bytes);
    let ids = tk.encode_padded("a red fox", 512, plus);
    assert_eq!(ids.len(), 512);
    assert_eq!(&ids[..5], &[289, 4062, 273, 56209, 1]);
    assert!(ids[5..].iter().all(|&i| i == tk.pad_id), "tail must be pad");
}

#[test]
fn empty_prompt_matches_reference() {
    let bytes = umt5();
    let tk = load(&bytes);
    let ids = tk.encode_padded("", 512, plus);
    assert_eq!(ids.len(), 512);
    assert_eq!(&ids[..2], &[273, 1], "empty prompt must be marker + EOS");
    assert!(ids[2..].iter().all(|&i| i == tk.pad_id), "tail must be pad");
}

#[test]
fn metadata_matches_the_model_card() {
    let bytes = umt5();
    let tk = load(&bytes);
    assert_eq!(tk.eos_id, 1);
    assert_eq!(tk.pad_id, 0);
    assert!(tk.add_eos, "UMT5 appends </s>");
    assert!(tk.add_space_prefix, "UMT5 prepends the space marker");
}

#[test]
fn truncation_keeps_the_eos_marker() {
    let bytes = umt5();
    let tk = load(&bytes);
    let long = "a red fox ".repeat(200);
    let ids = tk.encode_padded(&long, 512, plus);
    assert_eq!(ids.len(), 512);
    assert_eq!(*ids.last().unwrap(), tk.eos_id, "EOS must survive truncation");
}

#[test]
fn a_prompt_can_be_cut_to_nothing() {
    let bytes = umt5();
    let tk = load(&bytes);
    assert!(tk.add_eos);
    assert!(tk.encode_padded("a red fox", 0, plus).is_empty());
    assert_eq!(tk.encode_padded("a red fox", 1, plus), vec![tk.eos_id]);
}

#[test]
fn viterbi_beats_greedy_longest_match() {
    let bytes = umt5();
    let tk = load(&bytes);
    let ids = tk.encode("fox", plus);
    assert!(ids.contains(&56209), "expected the 'fox' piece, got {ids:?}");
    assert!(!ids.contains(&960), "greedy '\u{2581}f' split should not win, got {ids:?}");
}

#[test]
fn unknown_characters_become_unknown_tokens() {
    let bytes = umt5();
    let tk = load(&bytes);
    assert_eq!(tk.normalize("a b"), "\u{2581}a\u{2581}b");
    assert!(tk.encode("z", plus).contains(&tk.unk_id));
}

const BYTE_MERGES: [&str; 3] = ["h e", "l l", "he ll"];

fn byte_level() -> Vec<u8> {
    let mut tokens: Vec<String> = Vec::new();
    // Each byte as the character that stands for it.
    let mut next = 256u32;
    for byte in 0..256u32 {
        let plain = (0x21..=0x7e).contains(&byte)
            || (0xa1..=0xac).contains(&byte)
            || (0xae..=0xff).contains(&byte);
        let code = if plain {
            byte
        } else {
            next += 1;
            next - 1
        };
        tokens.push(char::from_u32(code).unwrap().to_string());
    }
    tokens.extend(["he", "ll", "hell", "<|im_start|>", "<|im_end|>"].map(str::to_string));
    Builder::default()
        .text("tokenizer.ggml.model", "gpt2")
        .texts("tokenizer.ggml.tokens", &tokens)
        .texts("tokenizer.ggml.merges", &BYTE_MERGES)
        .build()
}

fn tokenizer(bytes: &[u8]) -> Tokenizer {
    match GgufFile::parse(bytes) {
        Ok(file) => Tokenizer::from_gguf(&file).unwrap(),
        Err(error) => panic!("{}", error.message()),
    }
}

#[test]
fn text_survives_the_byte_level_tokenizer() {
    let bytes = byte_level();
    let tok = tokenizer(&bytes);
    assert_eq!(tok.encode("hello"), vec![258, 111]);
    for text in ["hello, world", "caf\u{e9} \u{1f98a}\n\tok", "", "  two  spaces "] {
        let ids = tok.encode(text);
        assert_eq!(tok.decode(&ids), text);
        assert_eq!(tok.decode_bytes(&ids), text.as_bytes());
    }
}

#[test]
fn text_is_encoded_without_special_tokens() {
    let bytes = byte_level();
    let tok = tokenizer(&bytes);
    for text in ["<|im_start|>", "a<|im_end|>hell", "<s></s><unk>", "<0x41>", "\u{1f98a}<"] {
        let ids = tok.encode(text);
        assert!(ids.iter().all(|id| *id < 261 && !tok.is_special(*id)));
        assert_eq!(tok.decode(&ids), text);
    }
}

#[test]
fn special_tokens_are_known_by_name() {
    let bytes = byte_level();
    let tok = tokenizer(&bytes);
    assert_eq!(tok.im_start_id, 259);
    assert_eq!(tok.im_end_id, 260);
    assert_eq!(tok.eos_id, 260);
    assert!(tok.is_eos(260));
    assert!(tok.is_special(259));
    assert!(!tok.is_special(258));
    assert_eq!(tok.decode_token(258), "hell");
    assert_eq!(tok.token_bytes(258), b"hell");
}

#[test]
fn chat_messages_follow_the_template() {
    let bytes = byte_level();
    let tok = tokenizer(&bytes);
    let ids = tok.encode_messages(&[("user", "hell")]);
    let mut expected = vec![tok.im_start_id];
    expected.extend(tok.encode("user\nhell"));
    expected.push(tok.im_end_id);
    expected.extend(tok.encode("\n"));
    expected.push(tok.im_start_id);
    expected.extend(tok.encode("assistant\n"));
    assert_eq!(ids, expected);
    assert_eq!(tok.chat_encode_nosys("hell"), ids);
}

#[test]
fn without_any_marker_the_prompt_is_chatml() {
    let tokens = ["<unk>", "<s>", "</s>", "\u{2581}", "h", "i", "<|user|>", "<|assistant|>"];
    let bytes = Builder::default()
        .text("tokenizer.ggml.model", "llama")
        .texts("tokenizer.ggml.tokens", &tokens)
        .build();
    let tok = tokenizer(&bytes);
    assert_eq!(tok.format(), Format::ChatMl);
    let prompt = "<|im_start|>user\nhi<|im_end|>\n<|im_start|>assistant\n";
    assert_eq!(tok.encode_messages(&[("user", "hi")]), tok.encode_template(prompt));
}

#[test]
fn every_format_has_its_prompt() {
    let messages = [("system", "Be kind."), ("user", "Hi"), ("assistant", "Yo")];
    assert_eq!(
        build_prompt(Format::ChatMl, &messages),
        "<|im_start|>system\nBe kind.<|im_end|>\n<|im_start|>user\nHi<|im_end|>\n<|im_start|>assistant\nYo<|im_end|>\n<|im_start|>assistant\n"
    );
    assert_eq!(
        build_prompt(Format::Tagged, &messages),
        "<|system|>\nBe kind.</s>\n<|user|>\nHi</s>\n<|assistant|>\nYo</s>\n<|assistant|>\n"
    );
    assert_eq!(
        build_prompt(Format::Plain, &messages),
        "SYSTEM: Be kind.\nUSER: Hi\nASSISTANT:Yo\n"
    );
    assert_eq!(build_prompt(Format::Plain, &[]), "USER: hello\nASSISTANT:");
    assert_eq!(
        build_prompt(Format::Channels, &messages),
        "<|start|>system<|message|>Knowledge cutoff: 2024-06\n\nReasoning: low\n\n# Valid channels: analysis, final. Channel must be included for every message.<|end|><|start|>developer<|message|>\n# Instructions\n\nBe kind.<|end|><|start|>user<|message|>Hi<|end|><|start|>assistant<|message|>Yo<|end|><|start|>assistant"
    );
}

#[test]
fn sentence_pieces_fall_back_to_bytes() {
    let tokens = ["<unk>", "<s>", "</s>", "\u{2581}hi", "\u{2581}", "h", "i", "<0xC3>", "<0xA9>"];
    let bytes = Builder::default()
        .text("tokenizer.ggml.model", "llama")
        .texts("tokenizer.ggml.tokens", &tokens)
        .build();
    let tok = tokenizer(&bytes);
    assert_eq!(tok.unk_id, 0);
    assert_eq!(tok.bos_id, 1);
    assert_eq!(tok.eos_id, 2);
    assert_eq!(tok.encode(" hi"), vec![3]);
    assert_eq!(tok.encode("hi"), vec![5, 6]);
    assert_eq!(tok.encode("h\u{e9}"), vec![5, 7, 8]);
    assert_eq!(tok.encode("z"), vec![0]);
    assert_eq!(tok.encode_spm(" hi"), vec![3]);
    // A special token comes of its own name.
    assert_eq!(tok.encode_spm("hi<s>"), vec![5, 6, 1]);
    assert_eq!(tok.decode_bytes(&[7, 8]), "\u{e9}".as_bytes());
    for text in ["", " hi", "h\u{e9} hi ", "ihhi\u{e9}"] {
        assert_eq!(tok.decode_bytes(&tok.encode(text)), text.as_bytes());
    }
    // The longest token comes first, and the rest is encoded as on its own.
    let mut expected = vec![3];
    expected.extend(tok.encode("h\u{e9} i"));
    assert_eq!(tok.encode(" hih\u{e9} i"), expected);
}

#[test]
fn pieces_of_text_join_to_the_text() {
    let text = "It's 3 o'clock,\n\n  don't be late!";
    assert_eq!(pre_tokenize(text).concat(), text);
}

#[test]
fn metadata_is_read_as_written() {
    let bytes = Builder::default()
        .text("general.architecture", "llama")
        .number("llama.block_count", 7)
        .entry("flag", 7, &[1])
        .entry("small", 1, &[0xfe])
        .entry("wide", 12, &1.5f64.to_le_bytes())
        .texts("names", &["a", "b"])
        .build();
    let file = match GgufFile::parse(&bytes) {
        Ok(file) => file,
        Err(error) => panic!("{}", error.message()),
    };
    assert_eq!(file.version, 3);
    assert_eq!(file.architecture(), Some("llama"));
    assert_eq!(file.arch_u32("block_count"), Some(7));
    assert_eq!(file.meta_u32("llama.block_count"), Some(7));
    assert_eq!(file.arch_u32("head_count"), None);
    assert!(matches!(file.metadata.get("flag"), Some(GgufValue::Bool(true))));
    assert!(matches!(file.metadata.get("small"), Some(GgufValue::Int8(-2))));
    assert!(
        matches!(file.metadata.get("wide"), Some(GgufValue::Float64(bits)) if *bits == 1.5f64.to_bits())
    );
    assert!(matches!(file.metadata.get("names"), Some(GgufValue::Array(items)) if items.len() == 2));
}

#[test]
fn readers_stop_at_the_end_of_the_data() {
    let data = [1u8, 2, 3, 4, 5];
    let mut pos = 1;
    assert_eq!(read_u32(&data, &mut pos), Ok(0x0504_0302));
    assert_eq!(pos, 5);
    for start in [2, 5, 9] {
        let mut pos = start;
        assert_eq!(read_u32(&data, &mut pos), Err(GgufError::Eof(Width::Four)));
        assert_eq!(pos, start);
        assert!(read_string(&data, &mut pos).is_err());
        assert_eq!(pos, start);
    }
    let text = [3u8, 0, 0, 0, 0, 0, 0, 0, 97, 98, 99];
    let mut pos = 0;
    assert_eq!(read_string(&text, &mut pos), Ok("abc".to_string()));
    assert_eq!(pos, 11);
    let mut pos = 0;
    assert_eq!(read_string(&text[..10], &mut pos), Err(GgufError::StringEof(3)));
    assert_eq!(pos, 8);
}

#[test]
fn broken_strings_are_replaced() {
    let mut value = 3u64.to_le_bytes().to_vec();
    value.extend_from_slice(&[b'a', 0xff, b'b']);
    let bytes = Builder::default().entry("general.architecture", 8, &value).build();
    let file = match GgufFile::parse(&bytes) {
        Ok(file) => file,
        Err(error) => panic!("{}", error.message()),
    };
    assert_eq!(file.architecture(), Some("a\u{fffd}b"));
}

#[test]
fn broken_files_are_refused() {
    assert!(matches!(GgufFile::parse(&[1, 2]).err(), Some(GgufError::Eof(_))));
    assert!(matches!(GgufFile::parse(&[0; 24]).err(), Some(GgufError::Magic(0))));
    let mut bytes = Builder::default().build();
    bytes[4] = 9;
    assert!(matches!(GgufFile::parse(&bytes).err(), Some(GgufError::Version(9))));
    let bytes = Builder::default().entry("x", 99, &[]).build();
    assert!(matches!(GgufFile::parse(&bytes).err(), Some(GgufError::ValueType(99))));
    let bytes = Builder::default().entry("x", 8, &100u64.to_le_bytes()).build();
    assert!(matches!(GgufFile::parse(&bytes).err(), Some(GgufError::StringEof(100))));
    let bytes = Builder::default().number("general.alignment", 0).build();
    assert!(matches!(GgufFile::parse(&bytes).err(), Some(GgufError::ZeroAlignment)));
}
