use quartz::pack::{require_root_counts, WeightsError};
use quartz::safetensors::{parse_header, DType, HeaderError, SafeTensorFile, Scalar, TensorAccessError};

fn fixture(header: &str, payload: &[u8]) -> Vec<u8> {
    let mut bytes = Vec::new();
    bytes.extend_from_slice(&(header.len() as u64).to_le_bytes());
    bytes.extend_from_slice(header.as_bytes());
    bytes.extend_from_slice(payload);
    bytes
}

fn refusal(header: &str, payload: &[u8]) -> HeaderError {
    parse_header(&fixture(header, payload)).err().unwrap()
}

#[test]
fn accepts_a_valid_header_and_ignores_metadata() {
    let header = r#"{"__metadata__":{"format":"pt"},"weight":{"dtype":"F32","shape":[2],"data_offsets":[0,8]}}"#;
    let bytes = fixture(header, &[0; 8]);
    let tensors = parse_header(&bytes).unwrap();
    let info = &tensors.iter().find(|(name, _)| name == "weight").unwrap().1;
    assert_eq!(info.dtype, DType::F32);
    assert_eq!(info.shape, vec![2]);
    assert_eq!(info.byte_len(), 8);
}

#[test]
fn rejects_overlapping_payloads() {
    let header = r#"{"a":{"dtype":"F32","shape":[2],"data_offsets":[0,8]},"b":{"dtype":"F32","shape":[2],"data_offsets":[4,12]}}"#;
    let error = parse_header(&fixture(header, &[0; 12]))
        .err()
        .unwrap()
        .message();
    assert!(error.contains("overlap"), "{error}");
}

#[test]
fn the_first_neighbours_that_overlap_are_named() {
    let header = r#"{"a":{"dtype":"F32","shape":[2],"data_offsets":[16,24]},"b":{"dtype":"F32","shape":[2],"data_offsets":[20,28]},"c":{"dtype":"F32","shape":[3],"data_offsets":[4,16]},"d":{"dtype":"F32","shape":[2],"data_offsets":[0,8]}}"#;
    let error = parse_header(&fixture(header, &[0; 28])).err().unwrap();
    assert_eq!(error.message(), "tensor payloads d and c overlap");
}

#[test]
fn rejects_shape_length_mismatch() {
    let header = r#"{"weight":{"dtype":"F16","shape":[4],"data_offsets":[0,4]}}"#;
    let error = parse_header(&fixture(header, &[0; 4]))
        .err()
        .unwrap()
        .message();
    assert!(error.contains("require 8"), "{error}");
}

#[test]
fn memory_maps_and_decodes_f16_and_f32_weights() {
    let header = r#"{"half":{"dtype":"F16","shape":[2],"data_offsets":[0,4]},"single":{"dtype":"F32","shape":[1],"data_offsets":[4,8]}}"#;
    let mut payload = Vec::new();
    payload.extend_from_slice(&0x3c00u16.to_le_bytes());
    payload.extend_from_slice(&0xc000u16.to_le_bytes());
    payload.extend_from_slice(&3.5f32.to_le_bytes());
    let bytes = fixture(header, &payload);
    let file = SafeTensorFile::parse(&bytes).unwrap();
    assert_eq!(file.tensor_names(), vec!["half", "single"]);
    assert_eq!(file.info("half").unwrap().shape, vec![2]);
    assert_eq!(file.bytes("single").unwrap().len(), 4);
    assert_eq!(
        file.view("half").unwrap().value(1),
        Scalar::Single((-2.0f32).to_bits())
    );
    assert_eq!(
        file.load_f32("half").unwrap(),
        vec![1.0f32.to_bits(), (-2.0f32).to_bits()]
    );
    assert_eq!(file.load_f32("single").unwrap(), vec![3.5f32.to_bits()]);
    assert_eq!(
        file.bytes("none").err(),
        Some(TensorAccessError::NotFound { name: "none".to_string() })
    );
}

#[test]
fn integers_are_no_weights() {
    let header = r#"{"ids":{"dtype":"I64","shape":[1],"data_offsets":[0,8]}}"#;
    let bytes = fixture(header, &(-5i64).to_le_bytes());
    let file = SafeTensorFile::parse(&bytes).unwrap();
    assert_eq!(file.view("ids").unwrap().value(0), Scalar::Integer(-5));
    assert_eq!(
        file.load_f32("ids").err(),
        Some(TensorAccessError::NotFloat { name: "ids".to_string() })
    );
}

#[test]
fn brain_floats_are_upper_halves() {
    let header = r#"{"w":{"dtype":"BF16","shape":[2],"data_offsets":[0,4]}}"#;
    let mut payload = Vec::new();
    payload.extend_from_slice(&0x3f80u16.to_le_bytes());
    payload.extend_from_slice(&0xc040u16.to_le_bytes());
    let bytes = fixture(header, &payload);
    let file = SafeTensorFile::parse(&bytes).unwrap();
    assert_eq!(
        file.load_f32("w").unwrap(),
        vec![1.0f32.to_bits(), (-3.0f32).to_bits()]
    );
}

#[test]
fn tensors_are_listed_by_name() {
    let header = r#"{"b":{"dtype":"F32","shape":[1],"data_offsets":[0,4]},"a":{"dtype":"F32","shape":[1],"data_offsets":[4,8]}}"#;
    let bytes = fixture(header, &[0; 8]);
    let file = SafeTensorFile::parse(&bytes).unwrap();
    assert_eq!(file.tensor_names(), vec!["a", "b"]);
    assert_eq!(file.tensor_count(), 2);
    assert_eq!(file.mapped_len(), bytes.len());
}

#[test]
fn each_broken_header_is_refused() {
    assert_eq!(parse_header(&[0; 4]).err(), Some(HeaderError::TooShort));
    assert!(matches!(
        parse_header(&0u64.to_le_bytes()).err(),
        Some(HeaderError::LengthRange { len: 0 })
    ));
    assert_eq!(
        parse_header(&100u64.to_le_bytes()).err(),
        Some(HeaderError::PastEnd)
    );
    assert_eq!(refusal("{", &[]), HeaderError::NotJson);
    assert_eq!(refusal("[]", &[]), HeaderError::NotObject);
    assert_eq!(refusal("{}", &[]), HeaderError::NoTensors);
    assert_eq!(
        refusal(r#"{"w":{"dtype":"F32","shape":[0],"data_offsets":[0,0]}}"#, &[]),
        HeaderError::ZeroDimension { name: "w".to_string() }
    );
    assert_eq!(
        refusal(r#"{"w":{"dtype":"F32","shape":[],"data_offsets":[0,4]}}"#, &[0; 4]),
        HeaderError::EmptyShape { name: "w".to_string() }
    );
    assert_eq!(
        refusal(r#"{"w":{"dtype":"F32","shape":[1],"data_offsets":[0,4]}}"#, &[0; 2]),
        HeaderError::OutOfRange { name: "w".to_string(), start: 0, end: 4 }
    );
    assert!(matches!(
        refusal(r#"{"w":{"dtype":"Q9","shape":[1],"data_offsets":[0,4]}}"#, &[0; 4]),
        HeaderError::Dtype { .. }
    ));
    assert_eq!(
        refusal(r#"{"":{"dtype":"F32","shape":[1],"data_offsets":[0,4]}}"#, &[0; 4]),
        HeaderError::EmptyName
    );
    assert_eq!(
        refusal(r#"{"w":{"dtype":"F32","shape":[18446744073709551615,3],"data_offsets":[0,4]}}"#, &[0; 4]),
        HeaderError::ElementOverflow
    );
    assert_eq!(
        refusal(r#"{"w":{"dtype":"F32","shape":[18446744073709551615],"data_offsets":[0,4]}}"#, &[0; 4]),
        HeaderError::ByteOverflow
    );
    assert!(matches!(refusal(r#"{"w":{"dtype":"F32"}}"#, &[]), HeaderError::Metadata { .. }));
}

#[test]
fn roots_are_told_in_order() {
    let entry = |name: &str, at: usize| {
        format!(r#""{name}":{{"dtype":"F32","shape":[1],"data_offsets":[{},{}]}}"#, 4 * at, 4 * at + 4)
    };
    let header = format!(
        "{{{},{},{},{}}}",
        entry("up.a", 0),
        entry("down.b", 1),
        entry("up.c", 2),
        entry("mid", 3)
    );
    let bytes = fixture(&header, &[0; 16]);
    let file = SafeTensorFile::parse(&bytes).unwrap();
    let rows = |list: &[(&str, usize)]| -> Vec<(String, usize)> {
        list.iter().map(|(root, count)| (root.to_string(), *count)).collect()
    };
    let good = rows(&[("up", 2), ("mid", 1), ("down", 1)]);
    assert!(require_root_counts(&file, "UNet", good).is_ok());
    let error = require_root_counts(&file, "UNet", rows(&[("up", 3), ("down", 1)])).unwrap_err();
    assert_eq!(
        error,
        WeightsError::Roots {
            component: "UNet".to_string(),
            actual: rows(&[("down", 1), ("mid", 1), ("up", 2)]),
            expected: rows(&[("down", 1), ("up", 3)]),
        }
    );
}
