use quartz::png::{adler32, crc32, encode_rgb, PngError};
use quartz::sd_pipeline::{
    ensure_running, png, rgb8, validate_request, Action, Generation, GenerationRequest, RequestError,
};
use quartz::sdxl_pipeline;
use quartz::tensor::Tensor;

fn quantize(value: f32) -> u8 {
    ((value * 0.5 + 0.5).clamp(0.0, 1.0) * 255.0).round() as u8
}

#[test]
fn sd_pipeline_validates_user_generation_limits() {
    let mut request = GenerationRequest::default();
    assert!(validate_request(&request).is_err());
    request.prompt = "lion".to_string();
    assert!(validate_request(&request).is_ok());
    request.steps = 101;
    assert!(validate_request(&request).is_err());
    request.steps = 20;
    request.guidance_scale = f32::NAN.to_bits();
    assert!(validate_request(&request).is_err());
}

#[test]
fn sdxl_pipeline_validates_user_generation_limits() {
    let mut request = sdxl_pipeline::GenerationRequest::default();
    assert!(sdxl_pipeline::validate_request(&request).is_err());
    request.prompt = "lion".to_string();
    assert!(sdxl_pipeline::validate_request(&request).is_ok());
    request.resolution = 1023;
    assert!(sdxl_pipeline::validate_request(&request).is_err());
    request.resolution = 1024;
    request.steps = 101;
    assert!(sdxl_pipeline::validate_request(&request).is_err());
}

#[test]
fn each_limit_has_its_own_refusal() {
    let mut request = GenerationRequest { prompt: "  ".to_string(), ..Default::default() };
    assert_eq!(validate_request(&request), Err(RequestError::EmptyPrompt));
    request.prompt = "lion".to_string();
    request.steps = 0;
    assert_eq!(validate_request(&request), Err(RequestError::Steps));
    request.steps = 100;
    request.guidance_scale = (-1.0f32).to_bits();
    assert_eq!(validate_request(&request), Err(RequestError::Guidance));
    let mut request = sdxl_pipeline::GenerationRequest::default();
    request.prompt = "lion".to_string();
    request.resolution = 100;
    assert_eq!(sdxl_pipeline::validate_request(&request), Err(RequestError::Resolution));
    assert_eq!(sdxl_pipeline::latent_shape(1024), vec![1, 4, 128, 128]);
    assert_eq!(sdxl_pipeline::time_ids(1024), [1024, 1024, 0, 0, 1024, 1024]);
}

#[test]
fn converts_nchw_decoder_range_to_interleaved_rgb() {
    let image = Tensor::new(vec![1, 3, 1, 2], vec![-1.0, 1.0, 0.0, 0.5, -0.5, 2.0]).unwrap();
    assert_eq!(rgb8(&image, quantize).unwrap(), vec![0, 128, 64, 255, 191, 255]);
}

#[test]
fn writes_a_png_with_verified_checksums() {
    assert_eq!(crc32(b"123456789"), 0xcbf4_3926);
    assert_eq!(adler32(b"Wikipedia"), 0x11e6_0398);
    let image = Tensor::new(vec![1, 3, 1, 1], vec![-1.0, 0.0, 1.0]).unwrap();
    let encoded = png(&image, quantize).unwrap();
    assert_eq!(&encoded[..8], b"\x89PNG\r\n\x1a\n");
    assert_eq!(&encoded[12..16], b"IHDR");
    assert_eq!(&encoded[16..24], &[0, 0, 0, 1, 0, 0, 0, 1]);
    assert_eq!(&encoded[encoded.len() - 12..], b"\0\0\0\0IEND\xaeB`\x82");
}

#[test]
fn images_of_other_shapes_are_refused() {
    let image = Tensor::new(vec![1, 1, 1, 1], vec![0.0]).unwrap();
    assert_eq!(rgb8(&image, quantize), Err(PngError::Shape));
    let image = Tensor::new(vec![3], vec![0.0; 3]).unwrap();
    assert_eq!(png(&image, quantize), Err(PngError::Rank));
    assert_eq!(PngError::Rank.message(), "decoded image must be NCHW");
}

#[test]
fn long_images_are_stored_in_blocks() {
    // One row of 30000 pixels does not fit into one stored block.
    let rgb = vec![7u8; 90_000];
    let encoded = encode_rgb(30_000, 1, &rgb).unwrap();
    // Signature, header chunk, then the data: two bytes, two block headers, the rows and a checksum.
    assert_eq!(encoded.len(), 8 + 25 + 12 + (2 + 10 + 90_001 + 4) + 12);
    assert_eq!(&encoded[43..48], &[0, 0xff, 0xff, 0, 0]);
}

#[test]
fn cancellation_check_is_explicit() {
    assert!(ensure_running(&|| false).is_ok());
    assert!(ensure_running(&|| true).is_err());
}

#[test]
fn a_generation_runs_through_its_steps() {
    let mut generation = Generation::new(2);
    let mut predictions = Vec::new();
    let mut checks = 0;
    loop {
        match generation.action() {
            Action::Finish => break,
            Action::Check => checks += 1,
            Action::PredictUnconditional(step) => predictions.push((step, false)),
            Action::PredictConditional(step) => predictions.push((step, true)),
            _ => (),
        }
        assert!(generation.proceed(false).is_ok());
    }
    assert_eq!(predictions, vec![(0, false), (0, true), (1, false), (1, true)]);
    assert!(checks >= 2);
    let mut cancelled = Generation::new(2);
    while cancelled.action() != Action::Check {
        assert!(cancelled.proceed(true).is_ok());
    }
    assert!(cancelled.proceed(true).is_err());
}
