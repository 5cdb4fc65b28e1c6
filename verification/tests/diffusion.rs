use quartz::blocks::{cross_attention, image_attention, self_attention};
use quartz::clip_tokenizer::ClipTokenizer;
use quartz::graph::Op;
use quartz::layers::{Kernels, Layer};
use quartz::reshape::{
    add_channel_bias, concat_last_dim, extract_tile, geglu, merge_heads, nchw_to_sequence,
    sequence_to_nchw, split_heads, LayoutError,
};
use quartz::safetensors::{SafeTensorFile, Scalar};
use quartz::sd15::Sd15Pack;
use quartz::sd_generate::{GenerationError, Painter};
use quartz::sd_pipeline::{GenerationRequest, RequestError};
use quartz::sd_unet;
use quartz::sd_vae;
use quartz::sd_vae::require_latents;
use quartz::sdxl::SdxlPack;
use quartz::sdxl_clip;
use quartz::sdxl_clip::{activation_name, clip_bigg, clip_l};
use quartz::sdxl_generate;
use quartz::sdxl_generate::SdxlPainter;
use quartz::sdxl_pipeline;
use quartz::sdxl_unet;
use quartz::staging::{stage_prefixes, staged_loading_budget};
use quartz::tensor::Tensor;
use quartz::tiles::{blend_tiles, tile_axis_weight, tile_windows, Blend};
use quartz::unet::{unet_program, UnetModel};

type Numbers = Kernels<
    f32,
    fn(f32, f32, f32) -> f32,
    fn(f32, f32) -> f32,
    fn(f32, f32) -> f32,
    fn(f32) -> f32,
    fn(f32) -> f32,
    fn(f32) -> f32,
    fn(&[f32], u32) -> (f32, f32),
    fn(f32, (f32, f32), f32, f32) -> f32,
    fn(f32, usize) -> f32,
    fn(Vec<f32>) -> Vec<f32>,
    fn(Scalar) -> f32,
>;

fn erf(value: f32) -> f32 {
    let sign = value.signum();
    let x = value.abs() as f64;
    let t = 1.0 / (1.0 + 0.327_591_1 * x);
    let poly = t
        * (0.254_829_592
            + t * (-0.284_496_736
                + t * (1.421_413_741 + t * (-1.453_152_027 + t * 1.061_405_429))));
    sign * (1.0 - poly * (-x * x).exp()) as f32
}

fn gelu(value: f32) -> f32 {
    value * 0.5 * (1.0 + erf(value * std::f32::consts::FRAC_1_SQRT_2))
}

fn softmax(values: Vec<f32>) -> Vec<f32> {
    let max = values.iter().copied().fold(f32::NEG_INFINITY, f32::max);
    let powers: Vec<f32> = values.iter().map(|value| (value - max).exp()).collect();
    let sum: f32 = powers.iter().sum();
    powers.iter().map(|power| power / sum).collect()
}

fn statistics(row: &[f32], epsilon: u32) -> (f32, f32) {
    let mean = row.iter().sum::<f32>() / row.len() as f32;
    let variance = row.iter().map(|x| (x - mean) * (x - mean)).sum::<f32>() / row.len() as f32;
    (mean, 1.0 / (variance + f32::from_bits(epsilon)).sqrt())
}

fn kernels() -> Numbers {
    Kernels {
        zero: 0.0,
        mac: |sum, a, b| sum + a * b,
        plus: |a, b| a + b,
        gate: |value, gate| value * gelu(gate),
        silu: |value| value / (1.0 + (-value).exp()),
        gelu,
        quick_gelu: |value| value / (1.0 + (-1.702 * value).exp()),
        statistics,
        rescale: |value, (mean, inverse), weight, bias| (value - mean) * inverse * weight + bias,
        scale: |dot, width| dot / (width as f32).sqrt(),
        softmax,
        number: |scalar| match scalar {
            Scalar::Single(bits) => f32::from_bits(bits),
            Scalar::Integer(value) => value as f32,
        },
    }
}

fn count_up(shape: &[usize]) -> Tensor<f32> {
    let len = shape.iter().product::<usize>();
    Tensor::new(shape.to_vec(), (0..len).map(|value| value as f32).collect()).unwrap()
}

fn weight_file(tensors: &[(&str, &str, &[usize], Vec<u8>)]) -> Vec<u8> {
    let mut payload: Vec<u8> = Vec::new();
    let mut entries = Vec::new();
    for (name, dtype, shape, data) in tensors {
        let start = payload.len();
        payload.extend_from_slice(data);
        entries.push(format!(
            r#""{name}":{{"dtype":"{dtype}","shape":{shape:?},"data_offsets":[{start},{}]}}"#,
            payload.len()
        ));
    }
    let header = format!("{{{}}}", entries.join(","));
    let mut bytes = (header.len() as u64).to_le_bytes().to_vec();
    bytes.extend_from_slice(header.as_bytes());
    bytes.extend_from_slice(&payload);
    bytes
}

fn unused() -> Vec<u8> {
    weight_file(&[("unused", "F32", &[1], vec![0; 4])])
}

fn angle(_: u32, _: usize, _: usize) -> f32 {
    0.0
}

#[test]
fn head_layout_round_trips() {
    let input = Tensor::new(vec![2, 3, 8], (0..48).map(|x| x as f32).collect()).unwrap();
    assert_eq!(
        merge_heads(&split_heads(&input, 4).unwrap()).unwrap(),
        input
    );
}

#[test]
fn head_split_and_merge_round_trip() {
    let input = Tensor::new(
        vec![1, 77, 768],
        (0..77 * 768).map(|value| value as f32).collect(),
    )
    .unwrap();
    assert_eq!(merge_heads(&split_heads(&input, 12).unwrap()).unwrap(), input);
}

#[test]
fn head_split_and_merge_round_trip_for_both_encoders() {
    for spec in [&clip_l(), &clip_bigg()] {
        let input = Tensor::new(
            vec![1, 77, spec.hidden],
            (0..77 * spec.hidden)
                .map(|value| value as f32)
                .collect(),
        )
        .unwrap();
        assert_eq!(
            merge_heads(&split_heads(&input, spec.heads).unwrap()).unwrap(),
            input
        );
    }
}

#[test]
fn the_two_text_encoders_are_described() {
    let first = clip_l();
    assert_eq!((first.hidden, first.heads, first.layers, first.vocab), (768, 12, 12, 49_408));
    let second = clip_bigg();
    assert_eq!((second.hidden, second.heads, second.layers, second.vocab), (1280, 20, 32, 49_408));
    assert_eq!(activation_name(&first), "quick_gelu");
    assert_eq!(activation_name(&second), "gelu");
}

#[test]
fn geglu_splits_values_before_gates() {
    let projected = Tensor::new(vec![1, 4], vec![2.0, 3.0, 0.0, 1.0]).unwrap();
    let output = geglu(&projected, |value, gate| value * gelu(gate)).unwrap();
    assert_eq!(output.shape(), &[1, 2]);
    assert!(output.data()[0].abs() < 1e-6);
    assert!((output.data()[1] - 2.524034).abs() < 1e-5);
}

#[test]
fn sd_unet_rejects_latent_shapes_that_break_the_skip_pyramid() {
    let bytes = unused();
    let weights = SafeTensorFile::parse(&bytes).unwrap();
    let sample = Tensor::zeros(vec![1, 4, 7, 8], 0.0).unwrap();
    let context = Tensor::zeros(vec![1, 77, 768], 0.0).unwrap();
    let error = sd_unet::predict_noise(&kernels(), &weights, &sample, 0, &context, angle, angle)
        .err()
        .unwrap();
    assert!(error.message(UnetModel::Sd15).contains("divisible by 8"));
}

#[test]
fn sdxl_unet_rejects_latent_shapes_that_break_the_skip_pyramid() {
    let bytes = unused();
    let weights = SafeTensorFile::parse(&bytes).unwrap();
    let sample = Tensor::zeros(vec![1, 4, 7, 8], 0.0).unwrap();
    let context = Tensor::zeros(vec![1, 77, 2048], 0.0).unwrap();
    let error = sdxl_unet::predict_noise(
        &kernels(),
        &weights,
        &sample,
        0,
        &context,
        &[0.0; 1280],
        [0; 6],
        angle,
        angle,
    )
    .err()
    .unwrap();
    assert!(error.message(UnetModel::Sdxl).contains("divisible by 8"));
}

#[test]
fn rejects_wrong_pooled_embed_length() {
    let bytes = unused();
    let weights = SafeTensorFile::parse(&bytes).unwrap();
    let sample = Tensor::zeros(vec![1, 4, 8, 8], 0.0).unwrap();
    let context = Tensor::zeros(vec![1, 77, 2048], 0.0).unwrap();
    let error = sdxl_unet::predict_noise(
        &kernels(),
        &weights,
        &sample,
        0,
        &context,
        &[0.0; 100],
        [0; 6],
        angle,
        angle,
    )
    .err()
    .unwrap();
    assert!(error.message(UnetModel::Sdxl).contains("1280 elements"));
}

#[test]
fn missing_weights_are_named() {
    let bytes = unused();
    let weights = SafeTensorFile::parse(&bytes).unwrap();
    let sample = Tensor::zeros(vec![1, 4, 8, 8], 0.0).unwrap();
    let context = Tensor::zeros(vec![1, 77, 768], 0.0).unwrap();
    let error = sd_unet::predict_noise(&kernels(), &weights, &sample, 0, &context, angle, angle)
        .err()
        .unwrap();
    assert!(error.message(UnetModel::Sd15).contains("time_embedding.linear_1"));
    let error = sdxl_clip::encode_penultimate(&kernels(), &weights, &[0; 77], &clip_l())
        .err()
        .unwrap();
    assert!(error.message().contains("embeddings"), "{}", error.message());
}

#[test]
fn sequence_layout_round_trips_nchw() {
    let input = Tensor::new(vec![1, 2, 2, 2], (0..8).map(|x| x as f32).collect()).unwrap();
    let sequence = nchw_to_sequence(&input).unwrap();
    assert_eq!(sequence.shape(), &[1, 4, 2]);
    assert_eq!(sequence.data(), &[0., 4., 1., 5., 2., 6., 3., 7.]);
    assert_eq!(sequence_to_nchw(&sequence, 2, 2).unwrap(), input);
}

#[test]
fn rejects_invalid_latents() {
    let input = Tensor::zeros(vec![1, 3, 8, 8], 0.0).unwrap();
    assert!(
        require_latents(&input)
            .err()
            .unwrap()
            .message()
            .contains("[1, 4")
    );
}

#[test]
fn tiled_decode_windows_cover_large_latent_with_bounded_context() {
    let windows = tile_windows(128);
    assert_eq!(
        windows,
        vec![
            (0, 32, 0, 36),
            (32, 64, 28, 68),
            (64, 96, 60, 100),
            (96, 128, 92, 128),
        ]
    );
    assert!(windows.iter().all(|window| window.3 - window.2 <= 40));
    for pair in windows.windows(2) {
        assert_eq!(pair[0].1, pair[1].0);
    }
}

#[test]
fn extracts_nchw_tile_without_reordering_channels() {
    let input = Tensor::new(vec![1, 4, 3, 4], (0..48).map(|x| x as f32).collect()).unwrap();
    let tile = extract_tile(&input, 1, 3, 1, 4);
    assert_eq!(tile.shape(), &[1, 4, 2, 3]);
    assert_eq!(
        tile.data(),
        &[
            5., 6., 7., 9., 10., 11., 17., 18., 19., 21., 22., 23., 29., 30., 31., 33., 34.,
            35., 41., 42., 43., 45., 46., 47.,
        ]
    );
}

#[test]
fn tile_blend_weight_fades_only_inside_context() {
    let weight = |position, tile_start, core_start, core_end, tile_end| {
        let (part, whole) = tile_axis_weight(position, tile_start, core_start, core_end, tile_end);
        part as f32 / whole as f32
    };
    assert_eq!(weight(20, 20, 24, 48, 52), 0.0);
    assert_eq!(weight(22, 20, 24, 48, 52), 0.5);
    assert_eq!(weight(24, 20, 24, 48, 52), 1.0);
    assert_eq!(weight(47, 20, 24, 48, 52), 1.0);
    assert_eq!(weight(50, 20, 24, 48, 52), 0.5);
    assert_eq!(weight(51, 20, 24, 48, 52), 0.25);
    assert_eq!(weight(0, 0, 0, 24, 28), 1.0);
}

#[test]
fn equal_tiles_blend_to_themselves() {
    let blend = Blend {
        fraction: |part: usize, whole: usize| part as f32 / whole as f32,
        times: |a: f32, b: f32| a * b,
        covered: |weight: f32| weight > 0.0,
        settle: |sum: f32, weight: f32| sum / weight,
    };
    let windows = tile_windows(40);
    assert_eq!(windows, vec![(0, 32, 0, 36), (32, 40, 28, 40)]);
    let mut tiles = Vec::new();
    for vertical in &windows {
        for horizontal in &windows {
            let height = 8 * (vertical.3 - vertical.2);
            let width = 8 * (horizontal.3 - horizontal.2);
            tiles.push(Tensor::new(vec![1, 3, height, width], vec![0.5; 3 * height * width]).unwrap());
        }
    }
    let image = blend_tiles(&blend, 0.0, |s, a, b| s + a * b, |a, b| a + b, 40, 40, &tiles).unwrap();
    assert_eq!(image.shape(), &[1, 3, 320, 320]);
    assert!(image.data().iter().all(|value| (value - 0.5).abs() < 1e-6));
}

#[test]
fn layout_refusals_name_the_shapes() {
    let flat = count_up(&[6]);
    assert_eq!(split_heads(&flat, 2).err(), Some(LayoutError::SplitRank { shape: vec![6] }));
    let rows = count_up(&[1, 2, 3]);
    assert_eq!(
        split_heads(&rows, 2).err(),
        Some(LayoutError::SplitHeads { heads: 2, channels: 3 })
    );
    assert_eq!(merge_heads(&rows).err(), Some(LayoutError::MergeRank { shape: vec![1, 2, 3] }));
    assert_eq!(
        sequence_to_nchw(&rows, 2, 2).err(),
        Some(LayoutError::SequenceSize { shape: vec![1, 2, 3], height: 2, width: 2 })
    );
    assert_eq!(nchw_to_sequence(&flat).err(), Some(LayoutError::SequenceRank));
    assert_eq!(geglu(&rows, |a, _| a).err(), Some(LayoutError::GegluWidth { width: 3 }));
    let other = count_up(&[1, 3, 3]);
    assert_eq!(
        concat_last_dim(&rows, &other).err(),
        Some(LayoutError::ConcatShapes { first: vec![1, 2, 3], second: vec![1, 3, 3] })
    );
}

#[test]
fn rows_are_joined_and_channels_shifted() {
    let left = count_up(&[1, 2, 2]);
    let right = count_up(&[1, 2, 1]);
    let joined = concat_last_dim(&left, &right).unwrap();
    assert_eq!(joined.shape(), &[1, 2, 3]);
    assert_eq!(joined.data(), &[0., 1., 0., 2., 3., 1.]);
    let image = count_up(&[1, 2, 1, 2]);
    let bias = Tensor::new(vec![1, 2], vec![10., 20.]).unwrap();
    let shifted = add_channel_bias(&image, &bias, |a, b| a + b).unwrap();
    assert_eq!(shifted.data(), &[10., 11., 22., 23.]);
}

#[test]
fn a_layer_reads_its_weights_from_the_file() {
    let half = |values: &[u16]| values.iter().flat_map(|v| v.to_le_bytes()).collect::<Vec<u8>>();
    // One row: 1 and 2, and a bias of -1.
    let bytes = weight_file(&[
        ("proj.weight", "F16", &[1, 2], half(&[0x3c00, 0x4000])),
        ("proj.bias", "F16", &[1], half(&[0xbc00])),
    ]);
    let file = SafeTensorFile::parse(&bytes).unwrap();
    let input = Tensor::new(vec![2, 2], vec![1., 1., 2., 5.]).unwrap();
    let layer = Layer::Linear { prefix: "proj".to_string() };
    let output = kernels().apply(&file, &layer, &input).unwrap();
    assert_eq!(output.shape(), &[2, 1]);
    assert_eq!(output.data(), &[2., 11.]);
    let missing = Layer::Linear { prefix: "gone".to_string() };
    assert!(kernels().apply(&file, &missing, &input).is_err());
    let image = count_up(&[1, 1, 1, 2]);
    let output = kernels().apply(&file, &Layer::Upsample, &image).unwrap();
    assert_eq!(output.data(), &[0., 0., 1., 1., 0., 0., 1., 1.]);
}

#[test]
fn the_programs_keep_their_skips_balanced() {
    for (model, saves) in [(UnetModel::Sd15, 12), (UnetModel::Sdxl, 9)] {
        let program = unet_program(model);
        assert_eq!(program.iter().filter(|op| matches!(op, Op::Save)).count(), saves);
        assert_eq!(program.iter().filter(|op| matches!(op, Op::Join)).count(), saves);
    }
    assert!(sd_vae::decoder_program().iter().all(|op| !matches!(op, Op::Save | Op::Join)));
}

#[test]
fn a_stage_budget_covers_the_largest_stage() {
    assert_eq!(stage_prefixes(UnetModel::Sdxl).last().unwrap(), &["conv_norm_out", "conv_out"]);
    let bytes = weight_file(&[
        ("mid_block.resnets.0.conv1.weight", "F32", &[4], vec![0; 16]),
        ("mid_block.resnets.0.conv1.bias", "F32", &[2], vec![0; 8]),
    ]);
    let file = SafeTensorFile::parse(&bytes).unwrap();
    let (budget, count) = staged_loading_budget(UnetModel::Sdxl, &file).unwrap();
    assert_eq!(budget, 30);
    assert_eq!(count, 3);
    let bytes = unused();
    let file = SafeTensorFile::parse(&bytes).unwrap();
    assert!(staged_loading_budget(UnetModel::Sdxl, &file).is_err());
}

fn tokenizer() -> ClipTokenizer {
    let vocabulary = r#"{"<|startoftext|>":0,"<|endoftext|>":1}"#;
    match ClipTokenizer::from_texts(vocabulary, "#version: 0.2\na b\n") {
        Ok(tokenizer) => tokenizer,
        Err(error) => panic!("{}", error.message()),
    }
}

#[test]
fn an_image_needs_a_request_in_order_and_weights() {
    let bytes = unused();
    let pack = Sd15Pack {
        text_encoder: SafeTensorFile::parse(&bytes).unwrap(),
        unet: SafeTensorFile::parse(&bytes).unwrap(),
        vae: SafeTensorFile::parse(&bytes).unwrap(),
        tokenizer: tokenizer(),
    };
    let painter = Painter {
        pack: &pack,
        kernels: kernels(),
        blend: Blend {
            fraction: |part: usize, whole: usize| part as f32 / whole as f32,
            times: |a: f32, b: f32| a * b,
            covered: |weight: f32| weight > 0.0,
            settle: |sum: f32, weight: f32| sum / weight,
        },
        one: 1.0f32,
        next: |product: f32, _: usize| product * 0.99,
        average: |a: f32, b: f32| (a + b) * 0.5,
        ratio: |a: i32, b: i32| a as f32 / b as f32,
        previous: |_: f32, _: f32, sample: f32, _: f32| sample,
        guide: |without: f32, _: f32, _: u32| without,
        single: |value: usize| (value as f32).to_bits(),
        cosine: angle,
        sine: angle,
        noise_cosine: |_: u64, _: u64| 0.0f32,
        noise_sine: |_: u64, _: u64| 0.0f32,
        divide: |value: f32, _: u32| value,
    };
    let mut request = GenerationRequest::default();
    assert_eq!(
        painter.generate(&request).err(),
        Some(GenerationError::Request(RequestError::EmptyPrompt))
    );
    request.prompt = "lion".to_string();
    let error = painter.generate(&request).err().unwrap();
    assert!(matches!(error, GenerationError::Encoder(_)));
    assert!(error.message().contains("embedding"), "{}", error.message());
    let reports = std::cell::RefCell::new(Vec::new());
    let cancelled = painter.generate_with_control(
        &request,
        &|progress| reports.borrow_mut().push(progress.completed),
        &|| true,
    );
    assert_eq!(cancelled.err(), Some(GenerationError::Cancelled));
    assert!(reports.borrow().is_empty());
    let running = painter.generate_with_control(
        &request,
        &|progress| reports.borrow_mut().push(progress.completed),
        &|| false,
    );
    assert_eq!(running.err(), Some(error));
    assert_eq!(*reports.borrow(), vec![0]);
    let places = std::cell::RefCell::new(Vec::new());
    let asked = painter.generate_asking(&request, &|_| {}, &|place| {
        places.borrow_mut().push(place);
        false
    });
    assert!(matches!(asked.err(), Some(GenerationError::Encoder(_))));
    assert_eq!(*places.borrow(), vec![0]);
}

#[test]
fn a_large_image_needs_a_request_in_order_and_weights() {
    let bytes = unused();
    let pack = SdxlPack {
        text_encoder: SafeTensorFile::parse(&bytes).unwrap(),
        text_encoder_2: SafeTensorFile::parse(&bytes).unwrap(),
        unet: SafeTensorFile::parse(&bytes).unwrap(),
        vae: SafeTensorFile::parse(&bytes).unwrap(),
        tokenizer: tokenizer(),
        tokenizer_2: tokenizer(),
    };
    let painter = SdxlPainter {
        pack: &pack,
        kernels: kernels(),
        blend: Blend {
            fraction: |part: usize, whole: usize| part as f32 / whole as f32,
            times: |a: f32, b: f32| a * b,
            covered: |weight: f32| weight > 0.0,
            settle: |sum: f32, weight: f32| sum / weight,
        },
        one: 1.0f32,
        next: |product: f32, _: usize| product * 0.99,
        level: |alpha: f32| ((1.0 - alpha) / alpha).sqrt(),
        scale: |value: f32, _: f32| value,
        advance: |sample: f32, _: f32, _: f32, _: f32| sample,
        guide: |without: f32, _: f32, _: u32| without,
        single: |value: usize| (value as f32).to_bits(),
        cosine: angle,
        sine: angle,
        noise_cosine: |_: u64, _: u64| 0.0f32,
        noise_sine: |_: u64, _: u64| 0.0f32,
        divide: |value: f32, _: u32| value,
        amplify: |value: f32, sigma: f32| value * sigma,
        finite: |value: f32| value.is_finite(),
    };
    let mut request = sdxl_pipeline::GenerationRequest::default();
    let refused = painter.generate(&request).err().unwrap();
    assert!(matches!(refused, sdxl_generate::GenerationError::Request(_)));
    request.prompt = "lion".to_string();
    let error = painter.generate(&request).err().unwrap();
    assert!(matches!(error, sdxl_generate::GenerationError::Encoder(_)));
    let reports = std::cell::RefCell::new(Vec::new());
    let cancelled = painter.generate_with_control(
        &request,
        &|progress| reports.borrow_mut().push(progress.completed),
        &|| true,
    );
    assert_eq!(cancelled.err().unwrap().message(), "generation cancelled");
    assert!(reports.borrow().is_empty());
    let running = painter.generate_with_control(
        &request,
        &|progress| reports.borrow_mut().push(progress.completed),
        &|| false,
    );
    assert_eq!(running.err().unwrap().message(), error.message());
    assert_eq!(*reports.borrow(), vec![0]);
}

#[test]
fn projections_come_before_heads_are_split() {
    let order = |program: &[Op]| -> Vec<&'static str> {
        program
            .iter()
            .filter_map(|op| match op {
                Op::Apply(Layer::Linear { .. }) => Some("linear"),
                Op::Apply(Layer::Split { .. }) | Op::OneHead => Some("split"),
                Op::Attention { .. } => Some("attention"),
                _ => None,
            })
            .collect()
    };
    let expected =
        ["linear", "linear", "linear", "split", "split", "split", "attention", "linear"];
    let mut program = Vec::new();
    self_attention(&mut program, "a", 2);
    assert_eq!(order(&program), expected);
    let mut program = Vec::new();
    cross_attention(&mut program, "a", 2);
    assert_eq!(order(&program), expected);
    let mut program = Vec::new();
    image_attention(&mut program, "a");
    assert_eq!(order(&program), expected);
}
