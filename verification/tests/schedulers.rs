use quartz::sd_scheduler;
use quartz::sd_scheduler::{
    classifier_free_guidance, gaussian_noise, noise_from_draws, timestep_embedding, Sd15Scheduler,
    SchedulerError,
};
use quartz::sdxl_scheduler::SdxlScheduler;

/// The next product of the signal shares.
fn next_alpha(product: f32, index: usize) -> f32 {
    let start = (0.00085f64 as f32).sqrt();
    let end = (0.012f64 as f32).sqrt();
    let fraction = index as f32 / 999.0;
    let root = start + fraction * (end - start);
    product * (1.0 - root * root)
}

fn alphas() -> Vec<f32> {
    sd_scheduler::alphas_cumprod(1.0, next_alpha)
}

fn sd15(steps: usize) -> Sd15Scheduler<f32> {
    match Sd15Scheduler::new(steps, alphas()) {
        Ok(scheduler) => scheduler,
        Err(error) => panic!("{}", error.message()),
    }
}

fn sdxl(steps: usize) -> SdxlScheduler<f32> {
    let full: Vec<f32> = alphas().iter().map(|alpha| ((1.0 - alpha) / alpha).sqrt()).collect();
    match SdxlScheduler::new(steps, &full, 0.0) {
        Ok(scheduler) => scheduler,
        Err(error) => panic!("{}", error.message()),
    }
}

fn step(
    scheduler: &mut Sd15Scheduler<f32>,
    model: &[f32],
    timestep: usize,
    sample: &[f32],
) -> Result<Vec<f32>, SchedulerError> {
    scheduler.step(
        model,
        timestep,
        sample,
        0.0,
        |current, previous| (current + previous) * 0.5,
        |numerator, denominator| numerator as f32 / denominator as f32,
        |sum, coefficient, value| sum + coefficient * value,
        |alpha: f32, previous_alpha: f32, sample, model| {
            let beta = 1.0 - alpha;
            let previous_beta = 1.0 - previous_alpha;
            let coefficient = (previous_alpha / alpha).sqrt();
            let denominator =
                alpha * previous_beta.sqrt() + (alpha * beta * previous_alpha).sqrt();
            coefficient * sample - (previous_alpha - alpha) * model / denominator
        },
    )
}

fn euler(
    scheduler: &mut SdxlScheduler<f32>,
    model: &[f32],
    timestep: usize,
    sample: &[f32],
) -> Result<Vec<f32>, SchedulerError> {
    scheduler.step(model, timestep, sample, |sample, derivative, sigma, next| {
        sample + derivative * (next - sigma)
    })
}

fn fraction(draw: u64) -> f64 {
    (draw >> 11) as f64 * (1.0 / (1u64 << 53) as f64)
}

fn radius(draw: u64) -> f64 {
    (-2.0 * (1.0f64 - fraction(draw)).max(f64::MIN_POSITIVE).ln()).sqrt()
}

fn noise(seed: u64, count: usize) -> Vec<f32> {
    gaussian_noise(
        seed,
        count,
        |first, second| (radius(first) * (std::f64::consts::TAU * fraction(second)).cos()) as f32,
        |first, second| (radius(first) * (std::f64::consts::TAU * fraction(second)).sin()) as f32,
    )
}

fn embedding(timestep: f32, dimension: usize) -> Result<Vec<f32>, SchedulerError> {
    let angle = |timestep: u32, index: usize, half: usize| {
        let exponent = -(10_000.0f32).ln() * index as f32 / half as f32;
        f32::from_bits(timestep) * exponent.exp()
    };
    timestep_embedding(
        timestep.to_bits(),
        dimension,
        |t, index, half| angle(t, index, half).cos(),
        |t, index, half| angle(t, index, half).sin(),
    )
}

#[test]
fn uses_the_sd15_leading_timestep_spacing() {
    let scheduler = sd15(20);
    assert_eq!(scheduler.timesteps().len(), 21);
    assert_eq!(scheduler.timesteps()[0], 951);
    assert_eq!(&scheduler.timesteps()[1..3], &[901, 901]);
    assert_eq!(scheduler.timesteps()[20], 1);
    assert!(
        scheduler
            .alphas_cumprod()
            .windows(2)
            .all(|pair| pair[1] < pair[0])
    );
}

#[test]
fn pndm_matches_the_official_golden_sequence() {
    let mut scheduler = sd15(5);
    assert_eq!(scheduler.timesteps(), &[801, 601, 601, 401, 201, 1]);
    let expected = [
        [0.40919268, -1.5115727],
        [0.35239375, -1.4831733],
        [0.28068942, -2.2663603],
        [0.16392766, -2.9173186],
        [-0.12385945, -3.2046015],
        [-0.13180457, -3.2020257],
    ];
    let timesteps = scheduler.timesteps().to_vec();
    let mut sample = vec![0.25f32, -0.75];
    for (index, timestep) in timesteps.into_iter().enumerate() {
        let model = [0.1 * (index + 1) as f32, -0.05 * (index + 1) as f32];
        sample = step(&mut scheduler, &model, timestep, &sample).unwrap();
        for element in 0..2 {
            assert!(
                (sample[element] - expected[index][element] as f32).abs() < 2e-6,
                "step {index} element {element}: {} != {}",
                sample[element],
                expected[index][element]
            );
        }
    }
    assert!(step(&mut scheduler, &[0.0], 1, &[0.0]).is_err());
}

#[test]
fn sd_scheduler_rejects_out_of_order_steps() {
    let mut scheduler = sd15(5);
    let error = step(&mut scheduler, &[0.0], 601, &[0.0]).err().unwrap();
    assert!(error.message().contains("expected timestep 801"));
}

#[test]
fn schedulers_refuse_impossible_step_counts_and_lengths() {
    assert!(Sd15Scheduler::new(0, alphas()).is_err());
    assert!(Sd15Scheduler::new(1001, alphas()).is_err());
    assert!(SdxlScheduler::new(0, &[0.0f32; 1000], 0.0).is_err());
    let mut scheduler = sd15(5);
    assert!(step(&mut scheduler, &[0.0], 801, &[0.0, 1.0]).is_err());
    assert!(step(&mut scheduler, &[0.0], 1000, &[0.0]).is_err());
    let mut scheduler = sdxl(1);
    assert_eq!(scheduler.timesteps(), &[1]);
    assert!(euler(&mut scheduler, &[0.0], 1, &[0.0, 1.0]).is_err());
    assert!(euler(&mut scheduler, &[0.0], 1, &[0.0]).is_ok());
    assert!(euler(&mut scheduler, &[0.0], 1, &[0.0]).is_err());
}

#[test]
fn classifier_free_guidance_combines_predictions() {
    let guide = |unconditional: f32, conditional: f32, scale: u32| {
        unconditional + f32::from_bits(scale) * (conditional - unconditional)
    };
    assert_eq!(
        classifier_free_guidance(&[1.0, -2.0], &[3.0, 2.0], 1.5f32.to_bits(), guide).unwrap(),
        vec![4.0, 4.0]
    );
    assert!(classifier_free_guidance(&[1.0], &[1.0, 2.0], 7.5f32.to_bits(), guide).is_err());
    assert!(classifier_free_guidance(&[1.0], &[1.0], (-1.0f32).to_bits(), guide).is_err());
    assert!(classifier_free_guidance(&[1.0], &[1.0], f32::NAN.to_bits(), guide).is_err());
}

#[test]
fn gaussian_noise_is_reproducible_and_finite() {
    let first = noise(42, 17);
    let second = noise(42, 17);
    assert_eq!(first, second);
    assert_eq!(first.len(), 17);
    assert!(first.iter().all(|value| value.is_finite()));
    assert_ne!(first, noise(43, 17));
    assert_eq!(first[..16], noise(42, 16)[..]);
}

#[test]
fn noise_takes_its_draws_in_pairs() {
    let values = noise_from_draws(&[10, 20, 30, 40], 3, |a, b| (a, b, 'c'), |a, b| (a, b, 's'));
    assert_eq!(values, vec![(10, 20, 'c'), (10, 20, 's'), (30, 40, 'c')]);
    let none: Vec<u64> = noise_from_draws(&[], 0, |a, _| a, |a, _| a);
    assert!(none.is_empty());
}

#[test]
fn zero_timestep_embedding_is_cosines_then_sines() {
    assert_eq!(
        embedding(0.0, 6).unwrap(),
        vec![1.0, 1.0, 1.0, 0.0, 0.0, 0.0]
    );
    assert!(embedding(1.0, 7).is_err());
    assert!(embedding(f32::INFINITY, 6).is_err());
}

#[test]
fn uses_leading_spacing_with_offset_one() {
    let scheduler = sdxl(4);
    assert_eq!(scheduler.timesteps(), &[751, 501, 251, 1]);
}

#[test]
fn sigmas_are_descending_with_a_trailing_zero() {
    let scheduler = sdxl(10);
    assert_eq!(scheduler.sigmas().len(), 11);
    assert_eq!(*scheduler.sigmas().last().unwrap(), 0.0);
    assert!(scheduler.sigmas().windows(2).all(|pair| pair[0] >= pair[1]));
}

#[test]
fn scale_model_input_shrinks_toward_zero_as_sigma_grows() {
    let scheduler = sdxl(4);
    let scaled = scheduler.scale_model_input(&[2.0, -4.0], |value, sigma: f32| {
        value / (sigma * sigma + 1.0).sqrt()
    });
    let sigma = scheduler.current_sigma();
    let expected = 2.0 / (sigma * sigma + 1.0).sqrt();
    assert!((scaled[0] - expected).abs() < 1e-6);
    assert_eq!(scheduler.init_noise_sigma(), scheduler.sigmas()[0]);
}

#[test]
fn step_moves_sample_by_derivative_times_dt() {
    let mut scheduler = sdxl(2);
    let timesteps = scheduler.timesteps().to_vec();
    let sigma0 = scheduler.sigmas()[0];
    let sigma1 = scheduler.sigmas()[1];
    let sample = [1.0f32, -1.0];
    let model_output = [0.5f32, 0.5];
    let output = euler(&mut scheduler, &model_output, timesteps[0], &sample).unwrap();
    let dt = sigma1 - sigma0;
    assert!((output[0] - (1.0 + 0.5 * dt)).abs() < 1e-6);
    assert!((output[1] - (-1.0 + 0.5 * dt)).abs() < 1e-6);
}

#[test]
fn sdxl_scheduler_rejects_out_of_order_steps() {
    let mut scheduler = sdxl(4);
    let error = euler(&mut scheduler, &[0.0], 501, &[0.0]).err().unwrap();
    assert!(error.message().contains("expected timestep 751"));
}
