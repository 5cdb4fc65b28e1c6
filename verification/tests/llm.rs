use quartz::arithmetic::Arithmetic;
use quartz::channels::Piece;
use quartz::cuda::{
    gpu_expert_slice, score_scale, Buffer, GpuForwardState, Kernel, Place, ScoreScale,
};
use quartz::cuda_step::{GpuStep, Stage};
use quartz::generation::Generation;
use quartz::gguf::GgufFile;
use quartz::gguf_tensors::TensorIndex;
use quartz::llm_config::{Config, ConfigError};
use quartz::llm_load::LoadError;
use quartz::llm_model::{Cache, Feed, Model};
use quartz::quant::{dequant, gemm, gemv, Grids, Weight};
use quartz::random::Draws;
use quartz::sampling::{Sampler, Settings};
use quartz::umt5::{load_message, Umt5Config, Umt5Encoder};

const IQ2XXS: [u64; 256] = [0; 256];
const IQ2XS: [u64; 512] = [0; 512];
const IQ2S: [u64; 1024] = [0; 1024];
const IQ3S: [u32; 512] = [0; 512];
const SIGNS: [u8; 128] = [0; 128];

fn grids() -> Grids<'static> {
    Grids { iq2xxs: &IQ2XXS, iq2xs: &IQ2XS, iq2s: &IQ2S, iq3s: &IQ3S, signs: &SIGNS }
}

fn number(weight: Weight) -> f32 {
    let single = f32::from_bits;
    let sign = |negative: bool| if negative { -1.0 } else { 1.0 };
    match weight {
        Weight::Plain(bits) => single(bits),
        Weight::Scaled { d, code } => single(d) * code as f32,
        Weight::Affine { d, m, code } => code as f32 * single(d) + single(m),
        Weight::Offset { d, dmin, scale, min, code } => {
            single(d) * scale as f32 * code as f32 - single(dmin) * min as f32
        }
        Weight::Twice { d, scale, code } => single(d) * scale as f32 * code as f32,
        Weight::Quarter { d, scale, code, negative } => {
            single(d) * (0.5 + scale as f32) * 0.25 * code as f32 * sign(negative)
        }
        Weight::Odd { d, scale, code, negative } => {
            single(d) * (1.0 + 2.0 * scale as f32) * code as f32 * sign(negative)
        }
    }
}

type Numbers = Arithmetic<
    f32,
    fn(Weight) -> f32,
    fn(f32, f32, f32) -> f32,
    fn(f32, f32, f32) -> f32,
    fn(f32, f32) -> f32,
    fn(&[f32]) -> f32,
    fn(f32, f32, f32) -> f32,
    fn(f32, f32, usize, usize) -> (f32, f32),
    fn(f32) -> f32,
    fn(Vec<f32>, Option<f32>) -> Vec<f32>,
    fn(f32, f32) -> f32,
    fn(f32, f32) -> f32,
    fn(f32) -> u32,
>;

fn silu(x: f32) -> f32 {
    x / (1.0 + (-x).exp())
}

fn softmax(scores: Vec<f32>, sink: Option<f32>) -> Vec<f32> {
    let sink = sink.unwrap_or(f32::NEG_INFINITY);
    let max = scores.iter().copied().fold(f32::NEG_INFINITY, f32::max).max(sink);
    let powers: Vec<f32> = scores.iter().map(|score| (score - max).exp()).collect();
    let mut sum: f32 = powers.iter().sum();
    if sink > f32::NEG_INFINITY {
        sum += (sink - max).exp();
    }
    powers.iter().map(|power| power / sum).collect()
}

fn turn(x0: f32, x1: f32, pos: usize, i: usize) -> (f32, f32) {
    let angle = pos as f32 / 10_000f32.powf(i as f32);
    (x0 * angle.cos() - x1 * angle.sin(), x0 * angle.sin() + x1 * angle.cos())
}

fn arithmetic() -> Numbers {
    Arithmetic {
        zero: 0.0,
        number,
        mac: |sum, a, b| sum + a * b,
        blend: |sum, weight, value| sum + weight * value,
        plus: |a, b| a + b,
        statistics: |x| (x.iter().map(|v| v * v).sum::<f32>() / x.len() as f32 + 1e-5).sqrt(),
        rescale: |v, rms, w| v / rms * w,
        rotate: turn,
        scale: |dot| dot * 0.5f32.sqrt(),
        softmax,
        gate: |gate, up| silu(gate) * up,
        clamped_gate: |gate, up| {
            let x = gate.min(7.0);
            x / (1.0 + (-1.702 * x).exp()) * (up.clamp(-7.0, 7.0) + 1.0)
        },
        bits: |x| x.to_bits(),
    }
}

type Choice = Sampler<
    f32,
    fn(f32) -> u32,
    fn(f32, f32) -> f32,
    fn(f32, u32) -> f32,
    fn(f32, u32) -> f32,
    fn(Vec<f32>) -> Vec<f32>,
    fn(f32, f32) -> bool,
    fn(u64) -> f32,
>;

fn sampler() -> Choice {
    Sampler {
        zero: 0.0,
        bits: |x| x.to_bits(),
        plus: |a, b| a + b,
        penalize: |score, penalty| {
            if score > 0.0 {
                score / f32::from_bits(penalty)
            } else {
                score * f32::from_bits(penalty)
            }
        },
        cool: |score, temperature| score / f32::from_bits(temperature),
        share: |scores| {
            let powers: Vec<f32> = scores.iter().map(|score| (score - scores[0]).exp()).collect();
            let sum: f32 = powers.iter().sum();
            powers.iter().map(|power| power / sum).collect()
        },
        covers: |draw, sum| draw <= sum,
        fraction: |draw| (draw as f64 / u64::MAX as f64) as f32,
    }
}

fn settings(temperature: f32, top_k: usize, repeat_penalty: f32) -> Settings {
    Settings {
        temperature: temperature.to_bits(),
        top_k,
        repeat_penalty: repeat_penalty.to_bits(),
    }
}

fn string(text: &str) -> Vec<u8> {
    let mut bytes = (text.len() as u64).to_le_bytes().to_vec();
    bytes.extend_from_slice(text.as_bytes());
    bytes
}

fn entry(key: &str, kind: u32, value: &[u8]) -> Vec<u8> {
    let mut bytes = string(key);
    bytes.extend_from_slice(&kind.to_le_bytes());
    bytes.extend_from_slice(value);
    bytes
}

fn number_entry(key: &str, value: u32) -> Vec<u8> {
    entry(key, 4, &value.to_le_bytes())
}

type Tensors = Vec<(String, Vec<u64>, Vec<f32>)>;

fn file_of(entries: &[Vec<u8>], tensors: &Tensors) -> Vec<u8> {
    let mut bytes = 0x4655_4747u32.to_le_bytes().to_vec();
    bytes.extend_from_slice(&3u32.to_le_bytes());
    bytes.extend_from_slice(&(tensors.len() as u64).to_le_bytes());
    bytes.extend_from_slice(&(entries.len() as u64).to_le_bytes());
    for entry in entries {
        bytes.extend_from_slice(entry);
    }
    let mut payload: Vec<u8> = Vec::new();
    for (name, dims, values) in tensors {
        bytes.extend_from_slice(&string(name));
        bytes.extend_from_slice(&(dims.len() as u32).to_le_bytes());
        for dim in dims {
            bytes.extend_from_slice(&dim.to_le_bytes());
        }
        bytes.extend_from_slice(&0u32.to_le_bytes());
        bytes.extend_from_slice(&(payload.len() as u64).to_le_bytes());
        for value in values {
            payload.extend_from_slice(&value.to_le_bytes());
        }
        while payload.len() % 32 != 0 {
            payload.push(0);
        }
    }
    while bytes.len() % 32 != 0 {
        bytes.push(0);
    }
    bytes.extend_from_slice(&payload);
    bytes
}

fn entries(layers: u32, experts: u32) -> Vec<Vec<u8>> {
    let mut list = vec![
        entry("general.architecture", 8, &string("llama")),
        number_entry("llama.embedding_length", 4),
        number_entry("llama.attention.head_count", 2),
        number_entry("llama.attention.head_count_kv", 1),
        number_entry("llama.block_count", layers),
        number_entry("llama.feed_forward_length", 3),
        number_entry("llama.vocab_size", 4),
    ];
    if experts > 0 {
        list.push(number_entry("llama.expert_count", experts));
        list.push(number_entry("llama.expert_used_count", 1));
    }
    list
}

/// Values between -0.5 and 0.5 that differ from tensor to tensor.
fn spread(n: usize, seed: usize) -> Vec<f32> {
    (0..n).map(|i| ((i * 37 + seed * 101 + 11) % 64) as f32 / 64.0 - 0.5).collect()
}

fn dense_tensors(layers: usize, values: &dyn Fn(usize, usize) -> Vec<f32>) -> Tensors {
    let mut tensors: Tensors = Vec::new();
    for l in 0..layers {
        let blk = |name: &str| format!("blk.{l}.{name}.weight");
        tensors.push((blk("attn_norm"), vec![4], vec![1.0; 4]));
        tensors.push((blk("attn_q"), vec![4, 4], values(16, 10 * l + 1)));
        tensors.push((blk("attn_k"), vec![4, 2], values(8, 10 * l + 2)));
        tensors.push((blk("attn_v"), vec![4, 2], values(8, 10 * l + 3)));
        tensors.push((blk("attn_output"), vec![4, 4], values(16, 10 * l + 4)));
        tensors.push((blk("ffn_norm"), vec![4], vec![1.0; 4]));
        tensors.push((blk("ffn_gate"), vec![4, 3], values(12, 10 * l + 5)));
        tensors.push((blk("ffn_up"), vec![4, 3], values(12, 10 * l + 6)));
        tensors.push((blk("ffn_down"), vec![3, 4], values(12, 10 * l + 7)));
    }
    // Each token is a direction of its own, and predicts the token after it.
    let mut embed = vec![0.0; 16];
    let mut head = vec![0.0; 16];
    for t in 0..4 {
        embed[t * 4 + t] = 1.0;
        head[((t + 1) % 4) * 4 + t] = 1.0;
    }
    tensors.push(("token_embd.weight".to_string(), vec![4, 4], embed));
    tensors.push(("output.weight".to_string(), vec![4, 4], head));
    tensors.push(("output_norm.weight".to_string(), vec![4], vec![1.0; 4]));
    tensors
}

fn parse(bytes: &[u8]) -> GgufFile<'_> {
    match GgufFile::parse(bytes) {
        Ok(file) => file,
        Err(error) => panic!("{}", error.message()),
    }
}

fn config(file: &GgufFile) -> Config {
    match Config::from_gguf(file) {
        Ok(cfg) => cfg,
        Err(error) => panic!("{}", error.message()),
    }
}

fn model<'a>(file: &'a GgufFile<'a>) -> Model<'a, f32> {
    let cfg = config(file);
    let weights = match arithmetic().load_gguf(&grids(), file, &cfg) {
        Ok(weights) => weights,
        Err(error) => panic!("{}", error.message()),
    };
    let model = Model { cfg, grids: grids(), file, weights };
    assert!(model.check());
    model
}

fn no_caches(layers: usize) -> Vec<Cache<f32>> {
    (0..layers).map(|_| Cache { keys: Vec::new(), values: Vec::new() }).collect()
}

#[test]
fn a_model_description_is_read_from_the_file() {
    let bytes = file_of(&entries(2, 0), &Vec::new());
    let file = parse(&bytes);
    let cfg = config(&file);
    assert_eq!((cfg.embed_dim, cfg.n_heads, cfg.n_kv_heads, cfg.head_dim), (4, 2, 1, 2));
    assert_eq!((cfg.n_layers, cfg.ffn_dim, cfg.vocab_size, cfg.n_experts), (2, 3, 4, 0));
    assert_eq!(f32::from_bits(cfg.rope_theta), 10_000.0);
    assert_eq!(cfg.q_total_dim(), 4);
    assert_eq!(cfg.kv_total_dim(), 2);
    assert!(!cfg.use_yarn());
    assert!(!cfg.clamped_swiglu);
}

#[test]
fn each_missing_number_is_named() {
    let all = entries(1, 0);
    for (index, error) in [
        (1, ConfigError::EmbeddingLength),
        (2, ConfigError::HeadCount),
        (4, ConfigError::BlockCount),
        (5, ConfigError::FeedForwardLength),
        (6, ConfigError::VocabSize),
    ] {
        let mut list = all.clone();
        list.remove(index);
        let bytes = file_of(&list, &Vec::new());
        assert_eq!(Config::from_gguf(&parse(&bytes)).err(), Some(error));
    }
    let mut list = all.clone();
    list[2] = number_entry("llama.attention.head_count", 0);
    let bytes = file_of(&list, &Vec::new());
    assert_eq!(Config::from_gguf(&parse(&bytes)).err(), Some(ConfigError::NoHeads));
    // Even where the width of a head is given.
    list.push(number_entry("llama.attention.key_length", 2));
    let bytes = file_of(&list, &Vec::new());
    assert_eq!(Config::from_gguf(&parse(&bytes)).err(), Some(ConfigError::NoHeads));
}

#[test]
fn missing_and_broken_tensors_are_named() {
    let mut tensors = dense_tensors(1, &spread);
    tensors.retain(|(name, _, _)| name != "blk.0.attn_k.weight");
    let bytes = file_of(&entries(1, 0), &tensors);
    let file = parse(&bytes);
    let error = arithmetic().load_gguf(&grids(), &file, &config(&file)).err().unwrap();
    assert_eq!(error, LoadError::Missing("blk.0.attn_k.weight".to_string()));
    assert_eq!(error.message(), "tensor not found: blk.0.attn_k.weight");
    let tensors = dense_tensors(1, &spread);
    let mut bytes = file_of(&entries(1, 0), &tensors);
    bytes.truncate(bytes.len() - 24);
    let file = parse(&bytes);
    let error = arithmetic().load_gguf(&grids(), &file, &config(&file)).err().unwrap();
    assert_eq!(error, LoadError::Unreadable("output_norm.weight".to_string()));
}

#[test]
fn the_last_tensor_of_a_name_is_found() {
    let mut tensors = dense_tensors(1, &spread);
    tensors.push(("output_norm.weight".to_string(), vec![4], vec![2.0; 4]));
    let bytes = file_of(&entries(1, 0), &tensors);
    let file = parse(&bytes);
    let index = TensorIndex::new(&file);
    assert_eq!(index.find("output_norm.weight"), Some(tensors.len() - 1));
    assert_eq!(index.find("nothing"), None);
    assert_eq!(model(&file).weights.final_norm, vec![2.0; 4]);
}

#[test]
fn a_prompt_gives_the_same_scores_in_one_go_and_token_by_token() {
    let tensors = dense_tensors(2, &spread);
    let bytes = file_of(&entries(2, 0), &tensors);
    let file = parse(&bytes);
    let model = model(&file);
    let prompt = [3, 0, 1, 1, 2];
    let mut one = no_caches(2);
    let batched = arithmetic().prefill(&model, &prompt, true, &mut one);
    let mut two = no_caches(2);
    let each = arithmetic().prefill(&model, &prompt, false, &mut two);
    assert_eq!(batched, each);
    for l in 0..2 {
        assert_eq!(one[l].keys, two[l].keys);
        assert_eq!(one[l].values, two[l].values);
        assert_eq!(one[l].keys.len(), 10);
    }
    // The prompt can be taken in piece by piece.
    let mut three = no_caches(2);
    arithmetic().prefill(&model, &prompt[..4], false, &mut three);
    let last = arithmetic().forward(&model, 2, 4, &mut three);
    assert_eq!(last, each);
    assert!(each.iter().all(|score| score.is_finite()));
}

#[test]
fn without_weights_a_token_predicts_its_follower() {
    let tensors = dense_tensors(1, &|n, _| vec![0.0; n]);
    let bytes = file_of(&entries(1, 0), &tensors);
    let file = parse(&bytes);
    let model = model(&file);
    let mut caches = no_caches(1);
    let scores = arithmetic().forward(&model, 1, 0, &mut caches);
    let expected = 1.0 / (0.25f32 + 1e-5).sqrt();
    assert_eq!(scores, vec![0.0, 0.0, expected, 0.0]);
    assert_eq!(caches[0].keys, vec![0.0, 0.0]);
}

#[test]
fn text_is_generated_until_a_token_ends_it() {
    let tensors = dense_tensors(1, &|n, _| vec![0.0; n]);
    let bytes = file_of(&entries(1, 0), &tensors);
    let file = parse(&bytes);
    let model = model(&file);
    for batched in [false, true] {
        let mut draws = Draws::new(1);
        let mut g: Generation<f32> = arithmetic().begin(&model, &[1, 3], batched);
        let mut text = String::new();
        for _ in 0..10 {
            match arithmetic().advance_drawing(
                &sampler(),
                &model,
                None,
                false,
                &settings(0.0, 40, 1.0),
                &mut draws,
                &mut g,
            ) {
                Some(pieces) => {
                    for piece in &pieces {
                        text.push_str(&piece.text);
                    }
                }
                None => break,
            }
        }
        assert_eq!(text, "[0][1]");
        assert_eq!(g.out, vec![0, 1]);
        assert_eq!(g.pos, 4);
    }
}

#[test]
fn an_answer_is_told_piece_by_piece() {
    let tensors = dense_tensors(1, &|n, _| vec![0.0; n]);
    let bytes = file_of(&entries(1, 0), &tensors);
    let file = parse(&bytes);
    let model = model(&file);
    for (max_new, tokens) in [(0, vec![]), (1, vec![0]), (2, vec![0, 1]), (9, vec![0, 1])] {
        let told: std::cell::RefCell<Vec<Piece>> = Default::default();
        let mut draws = Draws::new(5);
        let answer = arithmetic().generate(
            &sampler(),
            &model,
            None,
            false,
            &settings(0.0, 40, 1.0),
            &[1, 3],
            false,
            max_new,
            &mut draws,
            &|piece: &Piece| told.borrow_mut().push(piece.clone()),
            &|_, _| panic!("the prompt is taken in without reports"),
        );
        assert_eq!(answer.out, tokens);
        let texts: Vec<String> = tokens.iter().map(|token| format!("[{token}]")).collect();
        let said: Vec<&str> = answer.said.iter().map(|piece| piece.text.as_str()).collect();
        assert_eq!(said, texts);
        assert_eq!(told.into_inner(), answer.said);
    }
}

#[test]
fn with_channels_the_prompt_is_counted() {
    let tensors = dense_tensors(1, &|n, _| vec![0.0; n]);
    let bytes = file_of(&entries(1, 0), &tensors);
    let file = parse(&bytes);
    let model = model(&file);
    let counts: std::cell::RefCell<Vec<(usize, usize)>> = Default::default();
    let mut draws = Draws::new(5);
    let answer = arithmetic().generate(
        &sampler(),
        &model,
        None,
        true,
        &settings(0.0, 40, 1.0),
        &[1, 1, 3],
        false,
        1,
        &mut draws,
        &|_: &Piece| {},
        &|done, total| counts.borrow_mut().push((done, total)),
    );
    assert_eq!(answer.out.len(), 1);
    assert_eq!(counts.into_inner(), vec![(0, 3), (1, 3), (2, 3)]);
}

#[test]
fn a_draw_decides_among_the_best() {
    let scores = [1.0f32, 3.0, 2.0, -1.0];
    let choose = |settings: &Settings, out: &[usize], draw: u64| {
        sampler().choose_next(&scores, out, settings, draw)
    };
    assert_eq!(choose(&settings(0.0, 40, 1.0), &[], u64::MAX), 1);
    assert_eq!(choose(&settings(1.0, 2, 1.0), &[], 0), 1);
    assert_eq!(choose(&settings(1.0, 2, 1.0), &[], u64::MAX), 2);
    assert_eq!(choose(&settings(1.0, 1, 1.0), &[], u64::MAX), 1);
    assert_eq!(choose(&settings(0.0, 40, 2.0), &[1], 0), 2);
    assert_eq!(choose(&settings(0.0, 40, 1.0), &[1], 0), 1);
}

#[test]
fn the_last_of_equal_scores_wins() {
    assert_eq!(sampler().choose_next(&[1.0, 5.0, 5.0, 2.0], &[], &settings(0.0, 40, 1.0), 0), 2);
}

fn routed_tensors() -> Tensors {
    let mut tensors = dense_tensors(1, &|n, _| vec![0.0; n]);
    tensors.retain(|(name, _, _)| !name.contains("ffn_gate") && !name.contains("ffn_up") && !name.contains("ffn_down"));
    let first = |n: usize| {
        let mut row = vec![0.0; n];
        row[0] = 1.0;
        row
    };
    // The first expert is chosen by the first element, the second by the second.
    let mut router = first(8);
    router[5] = 1.0;
    tensors.push(("blk.0.ffn_gate_inp.weight".to_string(), vec![4, 2], router));
    let mut gates = first(24);
    gates[12] = 2.0;
    tensors.push(("blk.0.ffn_gate_exps.weight".to_string(), vec![4, 3, 2], gates.clone()));
    tensors.push(("blk.0.ffn_up_exps.weight".to_string(), vec![4, 3, 2], gates));
    let mut down = first(24);
    down[3] = 3.0;
    down[12] = 5.0;
    tensors.push(("blk.0.ffn_down_exps.weight".to_string(), vec![3, 4, 2], down));
    tensors
}

#[test]
fn each_token_is_routed_to_its_expert() {
    let bytes = file_of(&entries(1, 2), &routed_tensors());
    let file = parse(&bytes);
    let model = model(&file);
    let experts = match &model.weights.layers[0].feed {
        Feed::Routed(experts) => experts,
        Feed::Dense { .. } => panic!("the layer is routed"),
    };
    let out = arithmetic().moe_ffn(&model.cfg, &grids(), &file, experts, &[2.0, 1.0, 0.0, 0.0]);
    let h = silu(2.0) * 2.0;
    assert_eq!(out, vec![h, 3.0 * h, 0.0, 0.0]);
    let out = arithmetic().moe_ffn(&model.cfg, &grids(), &file, experts, &[1.0, 2.0, 0.0, 0.0]);
    assert_eq!(out, vec![5.0 * silu(2.0) * 2.0, 0.0, 0.0, 0.0]);
}

#[test]
fn quantized_blocks_stand_for_numbers() {
    let decode = |kind: u32, data: &[u8], n: usize| -> Vec<f32> {
        dequant(data, kind, n, &grids()).into_iter().map(number).collect()
    };
    assert_eq!(decode(0, &1.5f32.to_le_bytes(), 1), vec![1.5]);
    assert_eq!(decode(1, &0xc000u16.to_le_bytes(), 1), vec![-2.0]);
    // A scale of one half, and the codes -4 and 0.
    let mut block = 0x3800u16.to_le_bytes().to_vec();
    block.extend_from_slice(&[0; 32]);
    block[2] = -4i8 as u8;
    let values = decode(8, &block, 32);
    assert_eq!((values[0], values[1]), (-2.0, 0.0));
    // A scale of two, and the codes 15 and 1, less eight.
    let mut block = 0x4000u16.to_le_bytes().to_vec();
    block.extend_from_slice(&[0x88; 16]);
    block[2] = 0x1f;
    let values = decode(2, &block, 32);
    assert_eq!((values[0], values[16], values[1]), (14.0, -14.0, 0.0));
    // A scale of two, a minimum of one, and the code three.
    let mut block = vec![0x00, 0x40, 0x00, 0x3c];
    block.extend_from_slice(&[0; 16]);
    block[4] = 0x03;
    let values = decode(3, &block, 32);
    assert_eq!((values[0], values[16]), (7.0, 1.0));
    // Both scales one, the first pair of scales three and five, and the code seven.
    let mut block = vec![0u8; 144];
    block[1] = 0x3c;
    block[3] = 0x3c;
    block[4] = 3;
    block[8] = 5;
    block[16] = 7;
    let values = decode(12, &block, 256);
    assert_eq!((values[0], values[1]), (16.0, -5.0));
    // A scale of one half, group scales of two, and codes of zero, less 32.
    let mut block = vec![0u8; 210];
    for scale in &mut block[192..208] {
        *scale = 2;
    }
    block[209] = 0x38;
    assert_eq!(decode(14, &block, 256), vec![-32.0; 256]);
}

/// Bytes that differ, with small scales in front of each block.
fn some_blocks(count: usize, bytes: usize, scales: usize) -> Vec<u8> {
    let mut data: Vec<u8> =
        (0..count * bytes).map(|i| ((i * 73 + i / 7 * 31 + 19) % 256) as u8).collect();
    for block in data.chunks_mut(bytes) {
        for scale in 0..scales {
            block[2 * scale] = (17 + 40 * scale) as u8;
            block[2 * scale + 1] = 0x2b;
        }
    }
    data
}

fn some_vector(n: usize) -> Vec<f32> {
    (0..n).map(|i| ((i * 29 + 5) % 97) as f32 / 13.0 - 3.3).collect()
}

fn times(x: &[f32], data: &[u8], ggml_type: u32) -> f32 {
    let out = gemv(
        x,
        data,
        ggml_type,
        x.len(),
        1,
        &grids(),
        0.0f32,
        number,
        |sum: f32, a: f32, b: f32| sum + a * b,
        |a: f32, b: f32| a + b,
    );
    out[0]
}

#[test]
fn a_row_is_summed_in_the_order_of_its_type() {
    let single = f32::from_bits;
    // Groups of 32: the scaled sum of the codes less the offset times the sum of the elements.
    let data = some_blocks(2, 144, 2);
    let x = some_vector(512);
    let mut acc = 0.0f32;
    for (g, group) in dequant(&data, 12, 512, &grids()).chunks(32).enumerate() {
        let (mut coded, mut plain) = (0.0f32, 0.0f32);
        let mut ends = (0.0f32, 0.0f32);
        for (l, weight) in group.iter().enumerate() {
            if let Weight::Offset { d, dmin, scale, min, code } = *weight {
                coded += x[32 * g + l] * code as f32;
                plain += x[32 * g + l];
                ends = (single(d) * scale as f32, single(dmin) * min as f32);
            }
        }
        acc += ends.0 * coded - ends.1 * plain;
    }
    assert_eq!(times(&x, &data, 12), acc);
    assert!(acc != 0.0);
    // Pairs that are 16 apart.
    let data = some_blocks(3, 24, 2);
    let x = some_vector(96);
    let row: Vec<f32> = dequant(&data, 7, 96, &grids()).into_iter().map(number).collect();
    let mut acc = 0.0f32;
    for b in 0..3 {
        for k in 32 * b..32 * b + 16 {
            acc += x[k] * row[k] + x[k + 16] * row[k + 16];
        }
    }
    assert_eq!(times(&x, &data, 7), acc);
    // One after the other of each pair, scaled before the code.
    let data = some_blocks(3, 18, 1);
    let weights = dequant(&data, 20, 96, &grids());
    let mut acc = 0.0f32;
    for b in 0..3 {
        for k in 32 * b..32 * b + 16 {
            for k in [k, k + 16] {
                if let Weight::Scaled { d, code } = weights[k] {
                    acc += x[k] * single(d) * code as f32;
                }
            }
        }
    }
    assert_eq!(times(&x, &data, 20), acc);
    // All others from the first to the last.
    let data = some_blocks(3, 34, 1);
    let row: Vec<f32> = dequant(&data, 8, 96, &grids()).into_iter().map(number).collect();
    let mut acc = 0.0f32;
    for k in 0..96 {
        acc += x[k] * row[k];
    }
    assert_eq!(times(&x, &data, 8), acc);
}

#[test]
fn several_vectors_are_summed_block_by_block() {
    let data = some_blocks(2, 144, 2);
    let x = some_vector(1024);
    let product = |x: &[f32], n: usize| {
        gemm(
            x,
            &data,
            12,
            512,
            1,
            n,
            &grids(),
            0.0f32,
            number,
            |sum: f32, a: f32, b: f32| sum + a * b,
            |a: f32, b: f32| a + b,
        )
    };
    let row: Vec<f32> = dequant(&data, 12, 512, &grids()).into_iter().map(number).collect();
    let expected: Vec<f32> = x
        .chunks(512)
        .map(|part| {
            let mut acc = 0.0f32;
            for b in 0..2 {
                let mut sum = 0.0f32;
                for k in 256 * b..256 * b + 256 {
                    sum += part[k] * row[k];
                }
                acc += sum;
            }
            acc
        })
        .collect();
    assert_eq!(product(&x, 2), expected);
    // A single vector is summed as on its own.
    assert_eq!(product(&x[..512], 1), vec![times(&x[..512], &data, 12)]);
}

fn device_state(model: &Model<f32>) -> GpuForwardState {
    let layers = model.cfg.n_layers;
    GpuForwardState::new(model, vec![0; layers], vec![0; layers], 0)
}

#[test]
fn a_device_step_runs_every_layer() {
    let tensors = dense_tensors(2, &spread);
    let bytes = file_of(&entries(2, 0), &tensors);
    let file = parse(&bytes);
    let model = model(&file);
    let state = device_state(&model);
    let mut step = GpuStep::new(&state, 3, true, false);
    let mut appended = Vec::new();
    let mut stages = 0;
    while step.stage != Stage::Done {
        for kernel in step.forward_gpu_step(&state) {
            if let Kernel::Append { layer, pos, width } = kernel {
                appended.push((layer, pos, width));
            }
        }
        step.proceed(&state, Vec::new());
        stages += 1;
        assert!(stages < 20);
    }
    assert_eq!(appended, vec![(0, 3, 2), (1, 3, 2)]);
}

#[test]
fn attention_kernels_are_told_of_their_heads() {
    let tensors = dense_tensors(1, &spread);
    let bytes = file_of(&entries(1, 0), &tensors);
    let file = parse(&bytes);
    let model = model(&file);
    let state = device_state(&model);
    let mut step = GpuStep::new(&state, 3, true, false);
    let mut kernels = Vec::new();
    while step.stage != Stage::Done {
        kernels.extend(step.forward_gpu_step(&state));
        step.proceed(&state, Vec::new());
    }
    let cfg = model.cfg;
    let start = |buffer: Buffer| Place { buffer, offset: 0 };
    let (heads, kv_heads, width) = (cfg.n_heads, cfg.n_kv_heads, cfg.head_dim);
    let kv_width = kv_heads * width;
    assert!(kernels.contains(&Kernel::Rope {
        x: Buffer::K,
        heads: kv_heads,
        width,
        pos: 3,
        theta: cfg.rope_theta,
        yarn_scale: cfg.yarn_scale,
        yarn_orig_ctx: cfg.yarn_orig_ctx,
    }));
    assert!(kernels.contains(&Kernel::Score {
        keys: start(Buffer::Keys(0)),
        heads,
        kv_heads,
        seq: 4,
        width,
        kv_width,
        stride: 2048,
        scale: ScoreScale { width, yarn: None },
    }));
    assert!(kernels.contains(&Kernel::Softmax {
        sinks: Buffer::Sinks(0),
        heads,
        seq: 4,
        stride: 2048,
    }));
    assert!(kernels.contains(&Kernel::Mix {
        values: start(Buffer::Values(0)),
        heads,
        kv_heads,
        seq: 4,
        width,
        kv_width,
        stride: 2048,
    }));
}

#[test]
fn scaled_frequencies_scale_the_scores() {
    let mut cfg = Config::from_gguf(&parse(&file_of(&entries(1, 0), &dense_tensors(1, &spread))))
        .unwrap();
    assert_eq!(score_scale(&cfg).yarn, None);
    cfg.yarn_scale = 4.0f32.to_bits();
    assert_eq!(score_scale(&cfg).yarn, None);
    cfg.yarn_orig_ctx = 128;
    assert_eq!(score_scale(&cfg).yarn, Some(4.0f32.to_bits()));
    assert_eq!(score_scale(&cfg).width, cfg.head_dim);
}

#[test]
fn the_chosen_experts_are_run() {
    let bytes = file_of(&entries(1, 2), &routed_tensors());
    let file = parse(&bytes);
    let model = model(&file);
    let state = device_state(&model);
    let mut step = GpuStep::new(&state, 0, false, false);
    let mut weighted = 0;
    while step.stage != Stage::Done {
        let kernels = step.forward_gpu_step(&state);
        weighted += kernels
            .iter()
            .filter(|kernel| matches!(kernel, Kernel::AddWeighted { .. }))
            .count();
        let chosen = if matches!(step.stage, Stage::Choose(_)) { vec![1] } else { Vec::new() };
        step.proceed(&state, chosen);
    }
    assert_eq!(weighted, 1);
}

#[test]
fn buffers_hold_every_position() {
    let tensors = dense_tensors(1, &spread);
    let bytes = file_of(&entries(1, 0), &tensors);
    let file = parse(&bytes);
    let model = model(&file);
    let state = device_state(&model);
    assert_eq!(state.max_seq, 2048);
    assert_eq!(state.clamp(5000), 2047);
    assert_eq!(state.clamp(5), 5);
    let buffers = state.buffers();
    let size = |wanted: Buffer| buffers.iter().find(|(buffer, _)| *buffer == wanted).unwrap().1;
    assert_eq!(size(Buffer::Hidden), 4);
    assert_eq!(size(Buffer::Keys(0)), 2 * 2048);
    let windowed = GpuForwardState::new(&model, vec![0], vec![0], 4);
    assert_eq!(windowed.attn_start(0, 9), 6);
    assert_eq!(windowed.attn_start(0, 2), 0);
    assert_eq!(windowed.attn_start(1, 9), 0);
}

#[test]
fn an_expert_begins_after_those_before_it() {
    // Blocks of 34 bytes for 32 elements.
    let slice = gpu_expert_slice(Buffer::MoeGate(3), 8, 2, 64);
    assert_eq!(slice.place.offset, 136);
    assert_eq!(slice.place.buffer, Buffer::MoeGate(3));
    assert_eq!(slice.ggml_type, 8);
}

#[test]
fn an_encoder_runs_over_its_tokens() {
    let list = vec![
        entry("general.architecture", 8, &string("t5encoder")),
        number_entry("t5encoder.embedding_length", 4),
        number_entry("t5encoder.attention.head_count", 2),
        number_entry("t5encoder.attention.key_length", 2),
        number_entry("t5encoder.block_count", 1),
        number_entry("t5encoder.feed_forward_length", 3),
    ];
    let bytes = file_of(&list, &Vec::new());
    let file = parse(&bytes);
    let cfg = Umt5Config::from_gguf(&file);
    assert_eq!((cfg.d_model, cfg.n_heads, cfg.head_dim, cfg.n_layers), (4, 2, 2, 1));
    assert_eq!((cfg.n_buckets, cfg.max_distance, cfg.context), (32, 128, 512));
    let error = Umt5Encoder::load(&arithmetic(), grids(), &file).err().unwrap();
    assert_eq!(load_message(&error), "missing tensor enc.blk.0.attn_norm.weight");
    let blk = |name: &str| format!("enc.blk.0.{name}.weight");
    let zeros = |n: usize| vec![0.0; n];
    let tensors: Tensors = vec![
        (blk("attn_norm"), vec![4], vec![1.0; 4]),
        (blk("attn_q"), vec![4, 4], spread(16, 1)),
        (blk("attn_k"), vec![4, 4], spread(16, 2)),
        (blk("attn_v"), vec![4, 4], spread(16, 3)),
        (blk("attn_o"), vec![4, 4], zeros(16)),
        (blk("attn_rel_b"), vec![2, 32], spread(64, 4)),
        (blk("ffn_norm"), vec![4], vec![1.0; 4]),
        (blk("ffn_gate"), vec![4, 3], spread(12, 5)),
        (blk("ffn_up"), vec![4, 3], spread(12, 6)),
        (blk("ffn_down"), vec![3, 4], zeros(12)),
        ("token_embd.weight".to_string(), vec![4, 2], vec![1., 0., 0., 0., 0., 2., 0., 0.]),
        ("enc.output_norm.weight".to_string(), vec![4], vec![1.0; 4]),
    ];
    let bytes = file_of(&list, &tensors);
    let file = parse(&bytes);
    let encoder = match Umt5Encoder::load(&arithmetic(), grids(), &file) {
        Ok(encoder) => encoder,
        Err(error) => panic!("{}", load_message(&error)),
    };
    assert!(encoder.check(2));
    assert!(encoder.has(1));
    assert!(!encoder.has(2));
    // Without weights behind attention and feed-forward, only the norm is left of each token.
    let out = encoder.forward(&arithmetic(), &[1, 0, 0], 2, &|_, _, _, _| 0);
    let norm = |value: f32| value / (value * value / 4.0 + 1e-5).sqrt();
    assert_eq!(
        out,
        vec![0.0, norm(2.0), 0.0, 0.0, norm(1.0), 0.0, 0.0, 0.0, 0.0, 0.0, 0.0, 0.0]
    );
}
