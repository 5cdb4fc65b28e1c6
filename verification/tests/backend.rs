use quartz::backend::ScalarBackend;
use quartz::backend_error::{BackendError, BackendKind};
use quartz::tensor::Tensor;

fn times(value: f32, factor: u32) -> f32 {
    value * f32::from_bits(factor)
}

fn limit(value: f32, minimum: u32, maximum: u32) -> f32 {
    value.clamp(f32::from_bits(minimum), f32::from_bits(maximum))
}

fn silu(value: f32) -> f32 {
    value / (1.0 + (-value).exp())
}

fn gelu_tanh(value: f32) -> f32 {
    0.5 * value * (1.0 + (0.797_884_6 * (value + 0.044_715 * value * value * value)).tanh())
}

fn mac(sum: f32, left: f32, right: f32) -> f32 {
    sum + left * right
}

/// The number that brings values to a mean square of one.
fn inverse_length(values: &[f32], epsilon: u32) -> f32 {
    let mean = values.iter().map(|x| x * x).sum::<f32>() / values.len() as f32;
    1.0 / (mean + f32::from_bits(epsilon)).sqrt()
}

fn rescale(value: f32, inverse: f32, weight: f32) -> f32 {
    value * inverse * weight
}

fn count_up(shape: &[usize]) -> Tensor<f32> {
    let len = shape.iter().product::<usize>();
    Tensor::new(shape.to_vec(), (0..len).map(|index| index as f32).collect()).unwrap()
}

#[test]
fn scalar_add_preserves_shape_and_values() {
    let left = Tensor::new(vec![1, 2, 3], vec![1.0, -2.0, 3.5, 4.0, 0.0, -7.0]).unwrap();
    let right = Tensor::new(vec![1, 2, 3], vec![0.5, 2.0, -1.5, 4.0, -3.0, 10.0]).unwrap();
    let output = ScalarBackend.add(&left, &right, |a, b| a + b).unwrap();
    assert_eq!(output.shape(), &[1, 2, 3]);
    assert_eq!(output.data(), &[1.5, 0.0, 2.0, 8.0, -3.0, 3.0]);
    assert_eq!(ScalarBackend.kind(), BackendKind::ScalarCpu);
    assert_eq!(ScalarBackend.name(), "scalar-cpu");
}

#[test]
fn scalar_add_rejects_shape_mismatch() {
    let left = Tensor::zeros(vec![2, 3], 0.0f32).unwrap();
    let right = Tensor::zeros(vec![3, 2], 0.0f32).unwrap();
    assert!(ScalarBackend.add(&left, &right, |a, b| a + b).is_err());
}

#[test]
fn scalar_elementwise_and_channel_rmsnorm_cover_the_backend_surface() {
    let input = Tensor::new(vec![1, 1, 1, 1, 5], vec![-2.0, -0.5, 0.0, 1.0, 3.0]).unwrap();
    let other = Tensor::new(vec![1, 1, 1, 1, 5], vec![2.0, -4.0, 5.0, 0.5, -1.0]).unwrap();
    assert_eq!(
        ScalarBackend.multiply(&input, &other, |a, b| a * b).unwrap().data(),
        &[-4.0, 2.0, 0.0, 0.5, -3.0]
    );
    assert_eq!(
        ScalarBackend.scale(&input, 0.25f32.to_bits(), times).data(),
        &[-0.5, -0.125, 0.0, 0.25, 0.75]
    );
    assert_eq!(
        ScalarBackend
            .clamp(&input, (-1.0f32).to_bits(), 1.0f32.to_bits(), limit)
            .unwrap()
            .data(),
        &[-1.0, -0.5, 0.0, 1.0, 1.0]
    );
    assert!(ScalarBackend.silu(&input, silu).data()[3] > 0.73);
    assert!(ScalarBackend.gelu_tanh(&input, gelu_tanh).data()[3] > 0.84);

    let weight = Tensor::new(vec![1], vec![1.5]).unwrap();
    let normalized = ScalarBackend
        .channel_rms_norm_3d(&input, &weight, 1e-12f32.to_bits(), inverse_length, rescale);
    for (&actual, &source) in normalized.data().iter().zip(input.data()) {
        let expected = if source == 0.0 {
            0.0
        } else {
            source.signum() * 1.5
        };
        assert!((actual - expected).abs() < 1e-6);
    }

    let linear_input =
        Tensor::new(vec![2, 4], vec![1.0, 2.0, 3.0, 4.0, -1.0, 0.5, 2.0, 0.0]).unwrap();
    let linear_weight = Tensor::new(
        vec![3, 4],
        vec![
            1.0, 0.0, -1.0, 0.5, 0.25, 0.5, 0.75, 1.0, -2.0, 1.0, 0.0, 0.5,
        ],
    )
    .unwrap();
    let linear_bias = Tensor::new(vec![3], vec![0.5, -1.0, 2.0]).unwrap();
    assert_eq!(
        ScalarBackend
            .linear(&linear_input, &linear_weight, Some(&linear_bias), 0.0, mac)
            .unwrap()
            .shape(),
        &[2, 3]
    );

    let prepared = ScalarBackend
        .prepare_linear(&linear_weight, Some(&linear_bias))
        .unwrap();
    let device_input = ScalarBackend.upload_tensor(&linear_input);
    assert_eq!(device_input.shape(), &[2, 4]);
    let device_output = ScalarBackend
        .linear_prepared(&device_input, &prepared, 0.0, mac)
        .unwrap();
    let device_output = ScalarBackend.silu_device(&device_output, silu).unwrap();
    let device_output = ScalarBackend.download_tensor(&device_output).unwrap();
    assert_eq!(device_output.shape(), &[2, 3]);
    assert!(device_output.data().iter().all(|value| value.is_finite()));
}

#[test]
fn scalar_ncthw_temporal_primitives_preserve_exact_layout() {
    let input = Tensor::new(
        vec![2, 3, 5, 2, 3],
        (0..180).map(|index| index as f32 - 90.0).collect(),
    )
    .unwrap();
    let device = ScalarBackend.upload_tensor(&input);
    for (start, count) in [(0, 1), (4, 1), (1, 3), (0, 5)] {
        let output = ScalarBackend
            .ncthw_slice_time_device(&device, start, count)
            .unwrap();
        assert_eq!(output.shape(), &[2, 3, count, 2, 3]);
    }
    assert!(
        ScalarBackend
            .ncthw_slice_time_device(&device, 0, 0)
            .is_err()
    );
    assert!(
        ScalarBackend
            .ncthw_slice_time_device(&device, 5, 1)
            .is_err()
    );

    let first = ScalarBackend
        .ncthw_slice_time_device(&device, 0, 1)
        .unwrap();
    let middle = ScalarBackend
        .ncthw_slice_time_device(&device, 1, 2)
        .unwrap();
    let last = ScalarBackend
        .ncthw_slice_time_device(&device, 3, 2)
        .unwrap();
    let concatenated = ScalarBackend
        .ncthw_concat_time_device(&[&first, &middle, &last])
        .unwrap();
    assert_eq!(
        ScalarBackend.download_tensor(&concatenated).unwrap(),
        input
    );

    let prepended = ScalarBackend
        .ncthw_prepend_zero_time_device(&middle, 2, 0.0)
        .unwrap();
    let prepended = ScalarBackend.download_tensor(&prepended).unwrap();
    assert_eq!(prepended.shape(), &[2, 3, 4, 2, 3]);
    let plane = 2 * 3;
    for sample in 0..2 {
        for channel in 0..3 {
            let base = (sample * 3 + channel) * 4 * plane;
            assert_eq!(&prepended.data()[base..base + 2 * plane], &[0.0; 12]);
            let source = (sample * 3 + channel) * 2 * plane;
            let middle = ScalarBackend.download_tensor(&middle).unwrap();
            assert_eq!(
                &prepended.data()[base + 2 * plane..base + 4 * plane],
                &middle.data()[source..source + 2 * plane]
            );
        }
    }

    let shuffle_input = Tensor::new(
        vec![2, 4, 2, 2, 3],
        (0..96).map(|index| index as f32 + 0.25).collect(),
    )
    .unwrap();
    let shuffle_device = ScalarBackend.upload_tensor(&shuffle_input);
    let shuffled = ScalarBackend
        .ncthw_channels_to_time_device(&shuffle_device)
        .unwrap();
    let shuffled = ScalarBackend.download_tensor(&shuffled).unwrap();
    assert_eq!(shuffled.shape(), &[2, 2, 4, 2, 3]);
    for sample in 0..2 {
        for channel in 0..2 {
            for input_time in 0..2 {
                for channel_half in 0..2 {
                    for spatial in 0..6 {
                        let source =
                            (((sample * 4 + channel_half * 2 + channel) * 2 + input_time) * 6)
                                + spatial;
                        let destination =
                            (((sample * 2 + channel) * 4 + input_time * 2 + channel_half) * 6)
                                + spatial;
                        assert_eq!(shuffled.data()[destination], shuffle_input.data()[source]);
                    }
                }
            }
        }
    }
}

#[test]
fn patches_become_rows_and_rows_become_patches() {
    let input = count_up(&[2, 2, 4, 4]);
    let device = ScalarBackend.upload_tensor(&input);
    let rows = ScalarBackend.patchify_device(&device, (1, 2, 2)).unwrap();
    assert_eq!(rows.shape(), &[8, 8]);
    let values = ScalarBackend.download_tensor(&rows).unwrap();
    assert_eq!(&values.data()[..8], &[0., 1., 4., 5., 32., 33., 36., 37.]);
    let back = ScalarBackend.unpatchify_device(&rows, 2, (2, 4, 4), (1, 2, 2)).unwrap();
    let back = ScalarBackend.download_tensor(&back).unwrap();
    assert_eq!(back.shape(), &[2, 2, 4, 4]);
    assert_eq!((back.data()[0], back.data()[32], back.data()[1]), (0., 1., 4.));
}

#[test]
fn frames_outside_the_tensor_are_refused() {
    let device = ScalarBackend.upload_tensor(&count_up(&[1, 1, 3, 1, 1]));
    assert_eq!(
        ScalarBackend.ncthw_slice_time_device(&device, 0, 0).err(),
        Some(BackendError::SliceNothing)
    );
    assert_eq!(
        ScalarBackend.ncthw_slice_time_device(&device, 2, 2).err(),
        Some(BackendError::SliceRange { start: 2, end: 4, time: 3 })
    );
    assert_eq!(
        ScalarBackend.ncthw_slice_time_device(&device, usize::MAX, 2).err(),
        Some(BackendError::SliceOverflow)
    );
    let flat = ScalarBackend.upload_tensor(&count_up(&[3]));
    assert_eq!(
        ScalarBackend.ncthw_slice_time_device(&flat, 0, 1).err(),
        Some(BackendError::SliceRank)
    );
    assert_eq!(
        ScalarBackend.ncthw_channels_to_time_device(&device).err(),
        Some(BackendError::ShuffleChannels)
    );
    let nothing: [&quartz::backend::DeviceTensor<f32>; 0] = [];
    assert_eq!(
        ScalarBackend.ncthw_concat_time_device(&nothing).err(),
        Some(BackendError::ConcatNothing)
    );
}

#[test]
fn a_slice_of_every_frame_is_the_tensor() {
    let input = count_up(&[2, 3, 4, 2, 2]);
    let device = ScalarBackend.upload_tensor(&input);
    let all = ScalarBackend.ncthw_slice_time_device(&device, 0, 4).unwrap();
    assert_eq!(ScalarBackend.download_tensor(&all).unwrap(), input);
}

#[test]
fn clamping_needs_ordered_finite_bounds() {
    let input = count_up(&[3]);
    assert_eq!(
        ScalarBackend.clamp(&input, 1.0f32.to_bits(), (-1.0f32).to_bits(), limit).err(),
        Some(BackendError::ClampBounds)
    );
    assert_eq!(
        ScalarBackend.clamp(&input, f32::NAN.to_bits(), 1.0f32.to_bits(), limit).err(),
        Some(BackendError::ClampBounds)
    );
}

#[test]
fn attention_over_heads_weighs_the_values() {
    // Two positions, two heads of one column each.
    let query = ScalarBackend.upload_tensor(&Tensor::new(vec![2, 2], vec![1., 2., 3., 4.]).unwrap());
    let key = ScalarBackend.upload_tensor(&Tensor::new(vec![2, 2], vec![5., 6., 7., 8.]).unwrap());
    let scores = ScalarBackend
        .attention_scores_device(&query, &key, 2, 1, 1.0f32.to_bits(), 0.0, mac, times)
        .unwrap();
    assert_eq!(scores.shape(), &[2, 2, 2]);
    let scores_host = ScalarBackend.download_tensor(&scores).unwrap();
    assert_eq!(scores_host.data(), &[5., 7., 15., 21., 12., 16., 24., 32.]);
    let out = ScalarBackend
        .attention_values_device(&scores, &key, 2, 1, 0.0, mac)
        .unwrap();
    assert_eq!(out.shape(), &[2, 2]);
    let out = ScalarBackend.download_tensor(&out).unwrap();
    assert_eq!(out.data(), &[74., 200., 222., 400.]);
}

#[test]
fn modulation_reads_its_chunks() {
    let input = ScalarBackend.upload_tensor(&Tensor::new(vec![2, 2], vec![1., 2., 3., 4.]).unwrap());
    let modulation = ScalarBackend
        .upload_tensor(&Tensor::new(vec![6], vec![10., 20., 1., 2., 0., 0.]).unwrap());
    let out = ScalarBackend
        .wan_modulate_device(&input, &modulation, 0, 1, |value, scale, shift| {
            value * (1.0 + scale) + shift
        })
        .unwrap();
    let out = ScalarBackend.download_tensor(&out).unwrap();
    assert_eq!(out.data(), &[12., 26., 16., 32.]);
    let out = ScalarBackend
        .multiply_vector_chunk_device(&input, &modulation, 0, |a, b| a * b)
        .unwrap();
    let out = ScalarBackend.download_tensor(&out).unwrap();
    assert_eq!(out.data(), &[10., 40., 30., 80.]);
    assert!(ScalarBackend
        .wan_modulate_device(&input, &modulation, 3, 1, |value, _, _| value)
        .is_err());
}

#[test]
fn rows_are_normalized_on_the_device() {
    let input = ScalarBackend.upload_tensor(&Tensor::new(vec![2, 2], vec![3.0, 4.0, 0.0, 2.0]).unwrap());
    let weight = ScalarBackend.prepare_vector(&Tensor::new(vec![2], vec![1.0, 10.0]).unwrap()).unwrap();
    let bias = ScalarBackend.prepare_vector(&Tensor::new(vec![2], vec![0.5, 0.0]).unwrap()).unwrap();
    let epsilon = 1e-6f32.to_bits();
    // The statistic of a row is its sum.
    let sum = |row: &[f32], _: u32| row.iter().sum::<f32>();
    let scaled = ScalarBackend
        .rms_norm_device(&input, &weight, epsilon, sum, |x: f32, s: f32, w: f32| x * w / s)
        .unwrap();
    let scaled = ScalarBackend.download_tensor(&scaled).unwrap();
    assert_eq!(scaled.data(), &[3.0 / 7.0, 40.0 / 7.0, 0.0, 10.0]);
    let shifted = ScalarBackend
        .layer_norm_device(
            &input,
            Some(&weight),
            Some(&bias),
            epsilon,
            sum,
            |x: f32, s: f32, w: f32, b: f32| (x - s) * w + b,
            |x: f32, s: f32| x - s,
        )
        .unwrap();
    let shifted = ScalarBackend.download_tensor(&shifted).unwrap();
    assert_eq!(shifted.data(), &[-3.5, -30.0, -1.5, 0.0]);
    let reversed = ScalarBackend
        .softmax_device(&input, |row: Vec<f32>| row.into_iter().rev().collect())
        .unwrap();
    let reversed = ScalarBackend.download_tensor(&reversed).unwrap();
    assert_eq!(reversed.data(), &[4.0, 3.0, 2.0, 0.0]);
    let narrow = ScalarBackend.prepare_vector(&Tensor::new(vec![1], vec![1.0]).unwrap()).unwrap();
    assert!(ScalarBackend
        .rms_norm_device(&input, &narrow, epsilon, sum, |x: f32, _: f32, _: f32| x)
        .is_err());
}

#[test]
fn elements_are_added_and_scaled_on_the_device() {
    let input = ScalarBackend.upload_tensor(&count_up(&[2, 2]));
    let other = ScalarBackend.upload_tensor(&count_up(&[4]));
    let twice = ScalarBackend.add_device(&input, &input, |a: f32, b: f32| a + b).unwrap();
    assert_eq!(ScalarBackend.download_tensor(&twice).unwrap().data(), &[0.0, 2.0, 4.0, 6.0]);
    assert!(ScalarBackend.add_device(&input, &other, |a: f32, b: f32| a + b).is_err());
    let half = ScalarBackend.scale_device(&input, 0.5f32.to_bits(), times).unwrap();
    assert_eq!(ScalarBackend.download_tensor(&half).unwrap().data(), &[0.0, 0.5, 1.0, 1.5]);
    assert!(ScalarBackend.scale_device(&input, f32::NAN.to_bits(), times).is_err());
    let vector = ScalarBackend.prepare_vector(&count_up(&[4])).unwrap();
    let sum = ScalarBackend.add_vector_device(&input, &vector, |a: f32, b: f32| a + b).unwrap();
    assert_eq!(ScalarBackend.download_tensor(&sum).unwrap().data(), &[0.0, 2.0, 4.0, 6.0]);
    assert!(ScalarBackend.prepare_vector(&count_up(&[2, 2])).is_err());
    let bent = ScalarBackend.gelu_tanh_device(&input, |x: f32| x * x).unwrap();
    assert_eq!(ScalarBackend.download_tensor(&bent).unwrap().data(), &[0.0, 1.0, 4.0, 9.0]);
}

#[test]
fn a_prepared_convolution_has_no_strides_dilation_or_groups() {
    let input = ScalarBackend.upload_tensor(&count_up(&[1, 2, 2, 2, 2]));
    let weight = count_up(&[3, 2, 1, 1, 1]);
    let bias = count_up(&[3]);
    let prepared = ScalarBackend.prepare_conv3d(&weight, Some(&bias)).unwrap();
    let output = ScalarBackend
        .conv3d_prepared_device(
            &input,
            &prepared,
            [1, 0, 0],
            [0, 1, 0],
            |input, weight, bias, stride, before, after, dilation, groups| {
                assert_eq!(input.shape(), &[1, 2, 2, 2, 2]);
                assert_eq!(weight.shape(), &[3, 2, 1, 1, 1]);
                assert_eq!(bias.unwrap().data(), &[0.0, 1.0, 2.0]);
                assert_eq!((stride, dilation, groups), ([1, 1, 1], [1, 1, 1], 1));
                assert_eq!((before, after), ([1, 0, 0], [0, 1, 0]));
                Tensor::zeros(vec![1, 3, 3, 3, 2], 0.5)
            },
        )
        .unwrap();
    assert_eq!(output.shape(), &[1, 3, 3, 3, 2]);
    // What the convolution refuses is refused.
    let refused = ScalarBackend.conv3d_prepared_device(
        &input,
        &prepared,
        [0; 3],
        [0; 3],
        |_, _, _, _, _, _, _, _| Tensor::new(vec![2], Vec::<f32>::new()),
    );
    assert!(matches!(refused, Err(BackendError::Tensor(_))));
}
