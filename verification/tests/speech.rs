use quartz::channels::{Piece, Transcript};
use quartz::cli::{parse_number, Command};
use quartz::gguf::GgufFile;
use quartz::ordering::{last_greatest, leading};
use quartz::sampling::Settings;
use quartz::server::{address, Wishes};
use quartz::streaming::{emit_utf8, flush_utf8};
use quartz::tokenizer::Tokenizer;

#[test]
fn cut_characters_wait_for_their_rest() {
    let mut pending = Vec::new();
    assert_eq!(emit_utf8(&mut pending, b"a\xf0\x9f"), vec!["a"]);
    assert_eq!(pending, b"\xf0\x9f");
    assert_eq!(emit_utf8(&mut pending, b"\xa6\x8a!"), vec!["\u{1f98a}!"]);
    assert!(pending.is_empty());
    assert!(emit_utf8(&mut pending, b"").is_empty());
}

#[test]
fn chunks_make_the_text_of_all_bytes() {
    let bytes = b"a\xff\xe2\x82b\xf0\x9f\xa6\x8a\xc3\xe2\x82\xac\xed\xa0\x80\xf4\x90z\xf0\x9f";
    let whole = String::from_utf8_lossy(bytes);
    for first in 0..bytes.len() {
        for second in first..bytes.len() {
            let mut pending = Vec::new();
            let mut pieces = emit_utf8(&mut pending, &bytes[..first]);
            pieces.extend(emit_utf8(&mut pending, &bytes[first..second]));
            pieces.extend(emit_utf8(&mut pending, &bytes[second..]));
            pieces.extend(flush_utf8(&mut pending));
            assert_eq!(pieces.concat(), whole, "{first} {second}");
        }
    }
}

#[test]
fn broken_bytes_are_replaced() {
    let mut pending = Vec::new();
    assert_eq!(emit_utf8(&mut pending, b"a\xffb"), vec!["a", "\u{fffd}", "b"]);
    assert!(emit_utf8(&mut pending, b"\xe2\x82").is_empty());
    assert_eq!(flush_utf8(&mut pending), vec!["\u{fffd}"]);
    assert!(pending.is_empty());
    assert!(flush_utf8(&mut pending).is_empty());
}

#[test]
fn chunks_join_to_the_text() {
    let text = "caf\u{e9} \u{1f98a} ok".as_bytes();
    for cut in 0..text.len() {
        let mut pending = Vec::new();
        let mut said = emit_utf8(&mut pending, &text[..cut]).concat();
        said.push_str(&emit_utf8(&mut pending, &text[cut..]).concat());
        said.push_str(&flush_utf8(&mut pending).concat());
        assert_eq!(said.as_bytes(), text);
    }
}

fn string(text: &str) -> Vec<u8> {
    let mut bytes = (text.len() as u64).to_le_bytes().to_vec();
    bytes.extend_from_slice(text.as_bytes());
    bytes
}

const WORDS: [&str; 11] = [
    "<unk>",
    "<|start|>",
    "<|end|>",
    "<|return|>",
    "<|channel|>",
    "<|message|>",
    "analysis",
    "final",
    "think",
    "42",
    "assistant",
];

fn vocabulary() -> Vec<u8> {
    let mut bytes = 0x4655_4747u32.to_le_bytes().to_vec();
    bytes.extend_from_slice(&3u32.to_le_bytes());
    bytes.extend_from_slice(&0u64.to_le_bytes());
    bytes.extend_from_slice(&1u64.to_le_bytes());
    bytes.extend_from_slice(&string("tokenizer.ggml.tokens"));
    bytes.extend_from_slice(&9u32.to_le_bytes());
    bytes.extend_from_slice(&8u32.to_le_bytes());
    bytes.extend_from_slice(&(WORDS.len() as u64).to_le_bytes());
    for word in WORDS {
        bytes.extend_from_slice(&string(word));
    }
    bytes
}

fn tokenizer() -> Tokenizer {
    let bytes = vocabulary();
    match GgufFile::parse(&bytes) {
        Ok(file) => Tokenizer::from_gguf(&file).unwrap(),
        Err(error) => panic!("{}", error.message()),
    }
}

fn id(word: &str) -> u32 {
    WORDS.iter().position(|entry| *entry == word).unwrap() as u32
}

fn heard(words: &[&str]) -> Vec<Piece> {
    let tok = tokenizer();
    let mut transcript = Transcript::new();
    let mut pieces = Vec::new();
    for word in words {
        pieces.extend(transcript.hear(&tok, id(word)));
    }
    pieces.extend(transcript.finish());
    pieces
}

fn piece(text: &str, reasoning: bool) -> Piece {
    Piece { text: text.to_string(), reasoning }
}

#[test]
fn channels_part_reasoning_from_the_answer() {
    assert_eq!(
        heard(&[
            "<|channel|>", "analysis", "<|message|>", "think", "<|end|>", "<|channel|>", "final",
            "<|message|>", "42",
        ]),
        vec![piece("think", true), piece("42", false)]
    );
}

#[test]
fn a_channel_can_be_named_without_its_token() {
    assert_eq!(
        heard(&["analysis", "<|message|>", "42", "<|end|>", "final", "<|message|>", "42"]),
        vec![piece("42", true), piece("42", false)]
    );
}

#[test]
fn a_word_without_a_message_is_text() {
    assert_eq!(heard(&["think", "42"]), vec![piece("think", false), piece("42", false)]);
    assert_eq!(heard(&["think"]), vec![piece("think", false)]);
}

#[test]
fn plain_transcripts_keep_everything_but_special_tokens() {
    let tok = tokenizer();
    let mut transcript = Transcript::new();
    assert_eq!(transcript.hear_plain(&tok, id("analysis")), vec![piece("analysis", false)]);
    assert!(transcript.hear_plain(&tok, id("<|message|>")).is_empty());
    assert!(transcript.finish().is_empty());
}

#[test]
fn requests_without_wishes_get_the_defaults() {
    let wishes = Wishes { max_tokens: None, temperature: None, top_k: None, repeat_penalty: None };
    assert_eq!(wishes.max_new(), 512);
    assert_eq!(
        wishes.settings(),
        Settings { temperature: 0, top_k: 40, repeat_penalty: 1.0f32.to_bits() }
    );
}

#[test]
fn impossible_wishes_are_raised_to_the_least() {
    let wishes = Wishes {
        max_tokens: Some(7),
        temperature: Some((-1.0f32).to_bits()),
        top_k: Some(0),
        repeat_penalty: Some(f32::NAN.to_bits()),
    };
    assert_eq!(wishes.max_new(), 7);
    assert_eq!(
        wishes.settings(),
        Settings { temperature: 0, top_k: 1, repeat_penalty: 1.0f32.to_bits() }
    );
    let wishes = Wishes {
        max_tokens: None,
        temperature: Some(0.7f32.to_bits()),
        top_k: Some(5),
        repeat_penalty: Some(1.25f32.to_bits()),
    };
    assert_eq!(
        wishes.settings(),
        Settings {
            temperature: 0.7f32.to_bits(),
            top_k: 5,
            repeat_penalty: 1.25f32.to_bits(),
        }
    );
}

#[test]
fn the_server_listens_locally_unless_told_otherwise() {
    assert_eq!(address(None, 18081), "127.0.0.1:18081");
    assert_eq!(address(Some("0.0.0.0"), 80), "0.0.0.0:80");
}

fn command(args: &[&str]) -> Command {
    Command::parse(&args.iter().map(|arg| arg.to_string()).collect())
}

#[test]
fn the_command_line_has_defaults() {
    let plain = command(&["quartz"]);
    assert_eq!(plain.path, "tiny_model.gguf");
    assert_eq!(plain.prompt, "What is 2+2?");
    assert_eq!(plain.max_new, 200);
    assert_eq!(plain.server, None);
    assert!(!plain.list_tensors && !plain.nosys);
    let full = command(&["quartz", "m.gguf", "Hi", "5", "--nosys"]);
    assert_eq!((full.path.as_str(), full.prompt.as_str(), full.max_new), ("m.gguf", "Hi", 5));
    assert!(full.nosys);
    assert_eq!(command(&["quartz", "m.gguf", "--server"]).server, Some(18081));
    assert_eq!(command(&["quartz", "m.gguf", "--server", "90"]).server, Some(90));
    assert_eq!(command(&["quartz", "m.gguf", "--server", "70000"]).server, Some(18081));
    assert!(command(&["quartz", "m.gguf", "--list-tensors"]).list_tensors);
}

#[test]
fn numbers_are_read_as_decimal_digits() {
    for text in ["0", "7", "+12", "0042", "255", "256", "", "+", "-1", " 1", "1a", "99999999999999999999999"] {
        assert_eq!(parse_number(text, 255), text.parse::<u8>().ok().map(u64::from));
    }
    assert_eq!(parse_number("18446744073709551615", u64::MAX), Some(u64::MAX));
    assert_eq!(parse_number("18446744073709551616", u64::MAX), None);
}

#[test]
fn the_greatest_come_first() {
    let bits: Vec<u32> = [1.0f32, -2.0, 5.0, 3.0].iter().map(|x| x.to_bits()).collect();
    assert_eq!(leading(&bits, 2), vec![2, 3]);
    assert_eq!(last_greatest(&bits), 2);
}
