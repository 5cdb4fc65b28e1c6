use quartz::tensor::{element_count, validate_shape, Tensor};
use quartz::tensor_error::{Quantity, TensorError};

fn tensor(shape: &[usize], data: &[f32]) -> Tensor<f32> {
    Tensor::new(shape.to_vec(), data.to_vec()).unwrap()
}

fn mac(sum: f32, left: f32, right: f32) -> f32 {
    sum + left * right
}

fn scale(dot: f32, width: usize) -> f32 {
    dot * (1.0 / (width as f32).sqrt())
}

fn softmax(mut values: Vec<f32>) -> Vec<f32> {
    let max = values.iter().copied().fold(f32::NEG_INFINITY, f32::max);
    let mut sum = 0.0;
    for value in values.iter_mut() {
        *value = (*value - max).exp();
        sum += *value;
    }
    for value in values.iter_mut() {
        *value /= sum;
    }
    values
}

fn statistics(row: &[f32], epsilon: u32) -> (f32, f32) {
    let mean = row.iter().sum::<f32>() / row.len() as f32;
    let variance = row.iter().map(|x| (*x - mean) * (*x - mean)).sum::<f32>() / row.len() as f32;
    (mean, 1.0 / (variance + f32::from_bits(epsilon)).sqrt())
}

fn rescale(value: f32, (mean, inverse): (f32, f32), weight: f32, bias: f32) -> f32 {
    (value - mean) * inverse * weight + bias
}

fn assert_close(actual: &[f32], expected: &[f32], tolerance: f32) {
    assert_eq!(actual.len(), expected.len());
    for (index, (actual, expected)) in actual.iter().zip(expected).enumerate() {
        assert!(
            (actual - expected).abs() <= tolerance,
            "index {index}: {actual} != {expected}"
        );
    }
}

#[test]
fn conv2d_handles_padding_stride_and_bias() {
    let input = tensor(&[1, 1, 3, 3], &[1., 2., 3., 4., 5., 6., 7., 8., 9.]);
    let weight = tensor(&[1, 1, 2, 2], &[1., 0., 0., -1.]);
    let bias = tensor(&[1], &[0.5]);
    let output = input
        .conv2d(&weight, Some(&bias), [1, 1], [0, 0], [1, 1], 1, 0.0, mac)
        .unwrap();
    assert_eq!(output.shape(), &[1, 1, 2, 2]);
    assert_close(output.data(), &[-3.5, -3.5, -3.5, -3.5], 1e-6);
}

#[test]
fn grouped_conv_does_not_cross_channels() {
    let input = tensor(&[1, 2, 1, 2], &[1., 2., 10., 20.]);
    let weight = tensor(&[2, 1, 1, 1], &[2., 3.]);
    let output = input
        .conv2d(&weight, None, [1, 1], [0, 0], [1, 1], 2, 0.0, mac)
        .unwrap();
    assert_close(output.data(), &[2., 4., 30., 60.], 1e-6);
}

#[test]
fn group_norm_normalizes_each_group() {
    let input = tensor(&[1, 2, 1, 2], &[1., 3., 10., 14.]);
    let weight = tensor(&[2], &[1., 1.]);
    let bias = tensor(&[2], &[0., 0.]);
    let output = input.group_norm(2, &weight, &bias, 1e-5f32.to_bits(), statistics, rescale).unwrap();
    assert_close(
        output.data(),
        &[-0.999995, 0.999995, -0.999999, 0.999999],
        2e-5,
    );
}

#[test]
fn layer_norm_uses_last_dimension() {
    let input = tensor(&[2, 2], &[1., 3., 2., 6.]);
    let weight = tensor(&[2], &[2., 0.5]);
    let bias = tensor(&[2], &[1., -1.]);
    let output = input.layer_norm(&weight, &bias, 1e-5f32.to_bits(), statistics, rescale).unwrap();
    assert_close(
        output.data(),
        &[-0.99999, -0.5000025, -0.9999975, -0.5000006],
        2e-5,
    );
}

#[test]
fn linear_projects_the_last_dimension() {
    let input = tensor(&[1, 2, 2], &[1., 2., 3., 4.]);
    let weight = tensor(&[2, 2], &[1., 0., 0.5, 2.]);
    let bias = tensor(&[2], &[1., -1.]);
    let output = input.linear(&weight, Some(&bias), 0.0, mac).unwrap();
    assert_eq!(output.shape(), &[1, 2, 2]);
    assert_close(output.data(), &[2., 3.5, 4., 8.5], 1e-6);
}

#[test]
fn nearest_upsample_repeats_pixels() {
    let input = tensor(&[1, 1, 2, 2], &[1., 2., 3., 4.]);
    let output = input.upsample_nearest2d([2, 2]).unwrap();
    assert_eq!(output.shape(), &[1, 1, 4, 4]);
    assert_close(
        output.data(),
        &[
            1., 1., 2., 2., 1., 1., 2., 2., 3., 3., 4., 4., 3., 3., 4., 4.,
        ],
        0.0,
    );
}

#[test]
fn concat_channels_preserves_sample_order() {
    let first = tensor(&[2, 1, 1, 1], &[1., 2.]);
    let second = tensor(&[2, 2, 1, 1], &[3., 4., 5., 6.]);
    let output = Tensor::concat_channels(&[&first, &second]).unwrap();
    assert_eq!(output.shape(), &[2, 3, 1, 1]);
    assert_eq!(output.data(), &[1., 3., 4., 2., 5., 6.]);
}

#[test]
fn attention_matches_a_small_reference() {
    let query = tensor(&[1, 1, 1, 2], &[1., 0.]);
    let key = tensor(&[1, 1, 2, 2], &[1., 0., 0., 1.]);
    let value = tensor(&[1, 1, 2, 2], &[2., 4., 10., 20.]);
    let output = Tensor::attention(&query, &key, &value, 0.0, mac, scale, softmax).unwrap();
    let first_weight = (1.0f32 / 2.0f32.sqrt()).exp();
    let expected_weight = first_weight / (first_weight + 1.0);
    assert_close(
        output.data(),
        &[
            expected_weight * 2.0 + (1.0 - expected_weight) * 10.0,
            expected_weight * 4.0 + (1.0 - expected_weight) * 20.0,
        ],
        1e-5,
    );
}

#[test]
fn causal_attention_cannot_see_future_values() {
    let query = tensor(&[1, 1, 2, 1], &[1.0, 1.0]);
    let key = tensor(&[1, 1, 2, 1], &[1.0, 100.0]);
    let value = tensor(&[1, 1, 2, 1], &[3.0, 9.0]);
    let output = Tensor::attention_causal(&query, &key, &value, 0.0, mac, scale, softmax).unwrap();
    assert_eq!(output.data()[0], 3.0);
    assert!(output.data()[1] > 8.99);
}

#[test]
fn rejects_invalid_shapes_instead_of_panicking() {
    assert!(Tensor::new(vec![2, 2], vec![0.0f32; 3]).is_err());
    assert!(Tensor::zeros(vec![1, 0, 2], 0.0f32).is_err());
}

#[test]
fn every_shape_error_names_its_cause() {
    assert_eq!(element_count(&[]), Err(TensorError::EmptyShape));
    assert_eq!(element_count(&[2, 0]), Err(TensorError::ZeroDimension));
    assert_eq!(
        element_count(&[usize::MAX, 2]),
        Err(TensorError::Overflow(Quantity::ElementCount))
    );
    assert_eq!(element_count(&[2, 3, 4]), Ok(24));
    assert_eq!(
        validate_shape(&[2, 2], 3),
        Err(TensorError::LengthMismatch { shape: vec![2, 2], expected: 4, actual: 3 })
    );
    assert_eq!(validate_shape(&[2, 2], 4), Ok(()));
}

#[test]
fn tensor_messages_name_the_shapes() {
    let error = Tensor::new(vec![2, 2], vec![0u8; 3]).err().unwrap();
    assert_eq!(error.message(), "tensor shape [2, 2] requires 4 values, got 3");
    let left = tensor(&[2], &[1., 2.]);
    let right = tensor(&[1], &[1.]);
    let error = left.add(&right, |a, b| a + b).err().unwrap();
    assert_eq!(error, TensorError::AddShapes { left: vec![2], right: vec![1] });
}

#[test]
fn each_element_is_mapped_and_added() {
    let left = tensor(&[3], &[-1., 0., 2.]);
    assert_eq!(left.map(|x| x * x).data(), &[1., 0., 4.]);
    assert_eq!(left.add(&left, |a, b| a + b).unwrap().data(), &[-2., 0., 4.]);
}

#[test]
fn convolutions_pad_and_stride() {
    let input = tensor(&[1, 1, 3, 3], &[1., 2., 3., 4., 5., 6., 7., 8., 9.]);
    let weight = tensor(&[1, 1, 3, 3], &[1.; 9]);
    let output = input
        .conv2d(&weight, None, [2, 2], [1, 1], [1, 1], 1, 0.0, mac)
        .unwrap();
    assert_eq!(output.shape(), &[1, 1, 2, 2]);
    assert_eq!(output.data(), &[12., 16., 24., 28.]);
    let error = input.conv2d(&weight, None, [1, 1], [0, 0], [2, 2], 1, 0.0, mac).err().unwrap();
    assert_eq!(error, TensorError::ConvKernelTooLarge);
    let error = input.conv2d(&weight, None, [0, 1], [0, 0], [1, 1], 1, 0.0, mac).err().unwrap();
    assert_eq!(error, TensorError::ConvZeroStep);
    let error = input.conv2d(&weight, None, [1, 1], [0, 0], [1, 1], 2, 0.0, mac).err().unwrap();
    assert_eq!(error, TensorError::ConvGroups { groups: 2, in_channels: 1, out_channels: 1 });
}

#[test]
fn operators_refuse_shapes_that_do_not_match() {
    let row = tensor(&[1, 2], &[1., 2.]);
    let square = tensor(&[2, 2], &[1., 2., 3., 4.]);
    assert_eq!(
        row.linear(&row, Some(&square), 0.0, mac).err(),
        Some(TensorError::LinearBias { shape: vec![2, 2], out_features: 1 })
    );
    assert_eq!(
        square.layer_norm(&row, &row, 1e-5f32.to_bits(), statistics, rescale).err(),
        Some(TensorError::LayerNormParameters { width: 2 })
    );
    let two = tensor(&[2], &[1., 1.]);
    assert_eq!(
        square.layer_norm(&two, &two, 0f32.to_bits(), statistics, rescale).err(),
        Some(TensorError::LayerNormEpsilon)
    );
    assert_eq!(
        square.layer_norm(&two, &two, f32::NAN.to_bits(), statistics, rescale).err(),
        Some(TensorError::LayerNormEpsilon)
    );
    assert_eq!(
        row.upsample_nearest2d([1, 1]).err(),
        Some(TensorError::NotNchw { shape: vec![1, 2] })
    );
    let nothing: [&Tensor<f32>; 0] = [];
    assert_eq!(Tensor::concat_channels(&nothing).err(), Some(TensorError::ConcatNothing));
    let pixels = tensor(&[1, 1, 1, 2], &[1., 2.]);
    assert_eq!(pixels.upsample_nearest2d([0, 1]).err(), Some(TensorError::UpsampleScale));
    let longer = tensor(&[1, 1, 2, 2], &[1., 2., 3., 4.]);
    assert_eq!(
        Tensor::attention_causal(&pixels, &longer, &longer, 0.0, mac, scale, softmax).err(),
        Some(TensorError::AttentionCausalLengths)
    );
    assert_eq!(
        Tensor::attention(&row, &longer, &longer, 0.0, mac, scale, softmax).err(),
        Some(TensorError::AttentionRank)
    );
}
