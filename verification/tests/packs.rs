use quartz::config::{ConfigError, Decimal};
use quartz::json;
use quartz::json::Json;
use quartz::sd15::{validate_scheduler_config, validate_text_config};

fn document(text: &str) -> Json {
    json::parse(text.as_bytes()).unwrap()
}

fn shown(decimal: Decimal) -> String {
    match decimal {
        Decimal::Float(bits) => f64::from_bits(bits).to_string(),
        Decimal::Unsigned(n) => (n as f64).to_string(),
        Decimal::Negative(n) => (n as f64).to_string(),
    }
}

#[test]
fn rejects_a_non_sd15_text_configuration() {
    let config = document(
        r#"{
            "model_type": "clip_text_model",
            "hidden_act": "quick_gelu",
            "hidden_size": 1024,
            "intermediate_size": 3072,
            "max_position_embeddings": 77,
            "num_attention_heads": 12,
            "num_hidden_layers": 12,
            "vocab_size": 49408,
            "layer_norm_eps": 1e-5
        }"#,
    );
    let error = validate_text_config(&config).err().unwrap().message(&shown);
    assert!(error.contains("hidden_size"), "{error}");
}

#[test]
fn validates_the_sd15_scheduler_contract() {
    let config = document(
        r#"{
            "_class_name": "PNDMScheduler",
            "beta_schedule": "scaled_linear",
            "beta_start": 0.00085,
            "beta_end": 0.012,
            "num_train_timesteps": 1000,
            "set_alpha_to_one": false,
            "skip_prk_steps": true,
            "steps_offset": 1
        }"#,
    );
    validate_scheduler_config(&config).unwrap();
}

#[test]
fn each_broken_field_is_named() {
    let scheduler = |flag: &str, beta: &str, class: &str| {
        document(&format!(
            r#"{{
                "_class_name": {class},
                "beta_schedule": "scaled_linear",
                "beta_start": {beta},
                "beta_end": 0.012,
                "num_train_timesteps": 1000,
                "set_alpha_to_one": {flag},
                "skip_prk_steps": true,
                "steps_offset": 1
            }}"#
        ))
    };
    assert!(matches!(
        validate_scheduler_config(&scheduler("true", "0.00085", "\"PNDMScheduler\"")),
        Err(ConfigError::FlagMismatch { expected: false, .. })
    ));
    assert!(matches!(
        validate_scheduler_config(&scheduler("1", "0.00085", "\"PNDMScheduler\"")),
        Err(ConfigError::MissingFlag { .. })
    ));
    assert!(matches!(
        validate_scheduler_config(&scheduler("false", "0.5", "\"PNDMScheduler\"")),
        Err(ConfigError::DecimalMismatch { .. })
    ));
    assert!(matches!(
        validate_scheduler_config(&scheduler("false", "null", "\"PNDMScheduler\"")),
        Err(ConfigError::MissingDecimal { .. })
    ));
    assert!(matches!(
        validate_scheduler_config(&scheduler("false", "0.00085", "\"DDIM\"")),
        Err(ConfigError::TextMismatch { .. })
    ));
    assert!(matches!(
        validate_scheduler_config(&scheduler("false", "0.00085", "3")),
        Err(ConfigError::MissingText { .. })
    ));
}

#[test]
fn a_wrong_number_is_told_with_the_expected_one() {
    let refused = |start: &str, end: &str| {
        let config = document(&format!(
            r#"{{
                "_class_name": "PNDMScheduler",
                "beta_schedule": "scaled_linear",
                "beta_start": {start},
                "beta_end": {end},
                "num_train_timesteps": 1000,
                "set_alpha_to_one": false,
                "skip_prk_steps": true,
                "steps_offset": 1
            }}"#
        ));
        validate_scheduler_config(&config).unwrap_err().message(&shown)
    };
    assert_eq!(refused("0.5", "0.012"), "config field /beta_start is 0.5; expected 0.00085");
    assert_eq!(refused("0.00085", "2"), "config field /beta_end is 2; expected 0.012");
    assert_eq!(refused("0.00085", "-2"), "config field /beta_end is -2; expected 0.012");
}

#[test]
fn documents_are_read_as_written() {
    let value = document(r#"{"a": [1, -2, 0.5, "x", null, true], "b": {"c": 3}}"#);
    assert!(matches!(value.at("/b/c"), Some(Json::Unsigned(3))));
    assert!(matches!(value.child("a"), Some(Json::List(items)) if items.len() == 6));
    match value.child("a") {
        Some(Json::List(items)) => {
            assert!(matches!(items[1], Json::Negative(-2)));
            assert!(matches!(items[2], Json::Float(bits) if bits == 0.5f64.to_bits()));
            assert!(matches!(&items[3], Json::Text(text) if text == "x"));
            assert!(matches!(items[4], Json::Null));
            assert!(matches!(items[5], Json::Bool(true)));
        }
        _ => unreachable!(),
    }
    assert!(value.at("/b/d").is_none());
    assert!(json::parse(b"{").is_none());
}
