use toon_mcp::compressor::{CompressConfig, Delimiter, DEFAULT_MAX_INPUT_BYTES};
use toon_mcp::ratio::Ratio;
use toon_mcp::server::config::Config;
use toon_mcp::server::error::ServerError;

fn env(pairs: &[(&str, &str)]) -> Vec<(String, String)> {
    pairs.iter().map(|(k, v)| (k.to_string(), v.to_string())).collect()
}

fn load(pairs: &[(&str, &str)]) -> Config {
    Config::load(&env(pairs)).expect("configuration loads")
}

fn rejected(pairs: &[(&str, &str)]) -> (String, String, String) {
    match Config::load(&env(pairs)) {
        Err(ServerError::InvalidConfig { var, value, reason }) => {
            (var.to_string(), value, reason.to_string())
        }
        other => panic!("expected InvalidConfig, got {other:?}"),
    }
}

fn as_f64(r: Ratio) -> f64 {
    r.digits as f64 / 10f64.powi(r.places as i32)
}

#[test]
fn defaults_with_no_env() {
    let config = load(&[]);
    assert!((as_f64(config.max_output_ratio) - 0.85).abs() < f64::EPSILON);
    assert_eq!(config.min_bytes, 256);
    assert_eq!(config.max_input_bytes, DEFAULT_MAX_INPUT_BYTES);
    assert!(config.key_folding);
    assert_eq!(config.tabular_min_rows, 3);
    assert_eq!(config.fold_min_depth, 3);
    assert_eq!(config.primitive_array_min, 5);
    assert!(config.logging_enabled);
    assert_eq!(config.log_level, "info");
    assert!(config.client_hint.is_none());
    assert_eq!(config.pipeline_timeout_ms, 30_000);
    assert_eq!(config.max_concurrent_calls, 8);
    assert!(!config.strict_config);
}

#[test]
fn threshold_override() {
    let config = load(&[("TOON_COMPRESSION_THRESHOLD", "0.7")]);
    assert!((as_f64(config.max_output_ratio) - 0.7).abs() < f64::EPSILON);
}

#[test]
fn invalid_f64_falls_back_to_default() {
    let config = load(&[("TOON_COMPRESSION_THRESHOLD", "not_a_number")]);
    assert!((as_f64(config.max_output_ratio) - 0.85).abs() < f64::EPSILON);
}

#[test]
fn invalid_usize_falls_back_to_default() {
    let config = load(&[("TOON_MIN_BYTES", "abc")]);
    assert_eq!(config.min_bytes, 256);
}

#[test]
fn strict_config_rejects_unparseable_f64() {
    let (var, value, reason) = rejected(&[
        ("TOON_CONFIG_STRICT", "true"),
        ("TOON_COMPRESSION_THRESHOLD", "not_a_number"),
    ]);
    assert_eq!(var, "TOON_COMPRESSION_THRESHOLD");
    assert_eq!(value, "not_a_number");
    assert_eq!(reason, "value must be parseable as f64");
}

#[test]
fn strict_config_rejects_unparseable_bool() {
    let (var, _, _) = rejected(&[("TOON_CONFIG_STRICT", "true"), ("TOON_LOG_ENABLED", "maybe")]);
    assert_eq!(var, "TOON_LOG_ENABLED");
}

#[test]
fn bool_truthy_values() {
    for val in ["true", "1", "yes"] {
        assert!(load(&[("TOON_LOG_ENABLED", val)]).logging_enabled, "expected true for {val}");
    }
}

#[test]
fn bool_falsy_values() {
    for val in ["false", "0", "no"] {
        assert!(!load(&[("TOON_LOG_ENABLED", val)]).logging_enabled, "expected false for {val}");
    }
}

#[test]
fn delimiter_pipe() {
    assert_eq!(load(&[("TOON_DELIMITER", "pipe")]).delimiter, Delimiter::Pipe);
}

#[test]
fn delimiter_tab() {
    assert_eq!(load(&[("TOON_DELIMITER", "tab")]).delimiter, Delimiter::Tab);
}

#[test]
fn empty_client_hint_becomes_none() {
    assert!(load(&[("TOON_CLIENT_HINT", "")]).client_hint.is_none());
}

#[test]
fn non_empty_client_hint_is_some() {
    assert_eq!(load(&[("TOON_CLIENT_HINT", "opencode")]).client_hint, Some("opencode".into()));
}

#[test]
fn max_input_bytes_override() {
    assert_eq!(load(&[("TOON_MAX_INPUT_BYTES", "1048576")]).max_input_bytes, 1_048_576);
}

#[test]
fn max_concurrent_calls_override() {
    assert_eq!(load(&[("TOON_MAX_CONCURRENT_CALLS", "16")]).max_concurrent_calls, 16);
}

#[test]
fn csv_numeric_coercion_default() {
    assert!(load(&[]).csv_numeric_coercion);
}

#[test]
fn csv_numeric_coercion_override() {
    assert!(!load(&[("TOON_CSV_NUMERIC_COERCION", "false")]).csv_numeric_coercion);
}

#[test]
fn rejects_zero_buffer_size() {
    assert_eq!(rejected(&[("TOON_LOG_BUFFER_SIZE", "0")]).0, "TOON_LOG_BUFFER_SIZE");
}

#[test]
fn rejects_zero_flush_interval() {
    assert_eq!(
        rejected(&[("TOON_LOG_FLUSH_INTERVAL_SECS", "0")]).0,
        "TOON_LOG_FLUSH_INTERVAL_SECS"
    );
}

#[test]
fn rejects_zero_max_concurrent_calls() {
    assert_eq!(rejected(&[("TOON_MAX_CONCURRENT_CALLS", "0")]).0, "TOON_MAX_CONCURRENT_CALLS");
}

#[test]
fn rejects_negative_threshold() {
    assert_eq!(
        rejected(&[("TOON_COMPRESSION_THRESHOLD", "-0.1")]).0,
        "TOON_COMPRESSION_THRESHOLD"
    );
}

#[test]
fn rejects_threshold_above_one() {
    assert_eq!(
        rejected(&[("TOON_COMPRESSION_THRESHOLD", "1.5")]).0,
        "TOON_COMPRESSION_THRESHOLD"
    );
}

#[test]
fn accepts_threshold_one_inclusive() {
    let config = load(&[("TOON_COMPRESSION_THRESHOLD", "1.0")]);
    assert!((as_f64(config.max_output_ratio) - 1.0).abs() < f64::EPSILON);
}

#[test]
fn accepts_threshold_zero_inclusive() {
    let config = load(&[("TOON_COMPRESSION_THRESHOLD", "0.0")]);
    assert!(as_f64(config.max_output_ratio).abs() < f64::EPSILON);
}

#[test]
fn accepts_zero_min_bytes() {
    assert_eq!(load(&[("TOON_MIN_BYTES", "0")]).min_bytes, 0);
}

#[test]
fn thresholds_in_every_float_spelling() {
    for (text, value) in [
        ("1", 1.0),
        (".5", 0.5),
        ("5e-1", 0.5),
        ("+0.25", 0.25),
        ("1e-7", 1e-7),
        ("-0.0", 0.0),
        ("2.5E-3", 2.5e-3),
        ("0.1234567890123456", 0.1234567890123456),
    ] {
        let config = load(&[("TOON_COMPRESSION_THRESHOLD", text)]);
        assert!((as_f64(config.max_output_ratio) - value).abs() < 1e-15, "{text}");
    }
    for text in ["inf", "-inf", "NaN", "1e300", "1.0000000001", "2"] {
        let (_, value, reason) = rejected(&[("TOON_COMPRESSION_THRESHOLD", text)]);
        assert_eq!(value, text);
        assert_eq!(reason, "value must be within [0.0, 1.0] inclusive");
    }
}

#[test]
fn reasons_name_the_constraint() {
    assert_eq!(rejected(&[("TOON_MAX_INPUT_BYTES", "0")]).2, "value must be >= 1");
    let strict = ("TOON_CONFIG_STRICT", "yes");
    assert_eq!(
        rejected(&[strict, ("TOON_MIN_BYTES", "-1")]).2,
        "value must be parseable as usize"
    );
    assert_eq!(
        rejected(&[strict, ("TOON_PIPELINE_TIMEOUT_MS", "18446744073709551616")]).2,
        "value must be parseable as u64"
    );
    assert_eq!(
        rejected(&[strict, ("TOON_KEY_FOLDING", "TRUE")]).2,
        "value must be a boolean: true, false, 1, 0, yes, or no"
    );
    assert_eq!(
        rejected(&[strict, ("TOON_DELIMITER", "semicolon")]).2,
        "value must be one of: comma, tab, pipe"
    );
}

#[test]
fn the_first_rejected_variable_is_reported() {
    let (var, _, _) = rejected(&[
        ("TOON_LOG_BUFFER_SIZE", "0"),
        ("TOON_MAX_INPUT_BYTES", "0"),
    ]);
    assert_eq!(var, "TOON_MAX_INPUT_BYTES");
}

#[test]
fn lenient_loading_warns_about_replaced_text() {
    let vars = env(&[
        ("TOON_CONFIG_STRICT", "perhaps"),
        ("TOON_MIN_BYTES", "00"),
        ("TOON_DELIMITER", "semicolon"),
    ]);
    let (config, warnings) = Config::load_with_warnings(&vars).expect("loads");
    assert_eq!(config.delimiter, Delimiter::Comma);
    assert_eq!(config.min_bytes, 0);
    let seen: Vec<(&str, &str)> = warnings.iter().map(|w| (w.var, w.raw.as_str())).collect();
    assert_eq!(
        seen,
        vec![
            ("TOON_CONFIG_STRICT", "perhaps"),
            ("TOON_DELIMITER", "semicolon"),
            ("TOON_MIN_BYTES", "00"),
        ]
    );
    assert!(Config::load_with_warnings(&env(&[])).expect("loads").1.is_empty());
}

#[test]
fn logging_settings_are_taken_over() {
    let config = load(&[
        ("TOON_LOG_DIR", "/var/log/toon"),
        ("TOON_LOG_BUFFER_SIZE", "7"),
        ("TOON_LOG_FLUSH_INTERVAL_SECS", "+9"),
        ("TOON_LOG_LEVEL", "debug"),
    ]);
    assert_eq!(config.logging.log_dir, "/var/log/toon");
    assert_eq!(config.logging.buffer_size, 7);
    assert_eq!(config.logging.flush_interval_secs, 9);
    assert_eq!(config.log_level, "debug");
    assert_eq!(load(&[]).logging.log_dir, "data/logs");
}

#[test]
fn library_defaults_do_not_log() {
    let config = Config::default();
    assert!(!config.logging_enabled);
    assert_eq!(config.pipeline_timeout_ms, 30_000);
    assert_eq!(CompressConfig::from(&config), CompressConfig::default());
}

#[test]
fn compressor_settings_follow_the_configuration() {
    let config = load(&[
        ("TOON_COMPRESSION_THRESHOLD", "0.5"),
        ("TOON_MIN_BYTES", "1"),
        ("TOON_MAX_INPUT_BYTES", "2"),
        ("TOON_KEY_FOLDING", "no"),
        ("TOON_DELIMITER", "tab"),
        ("TOON_TABULAR_MIN_ROWS", "4"),
        ("TOON_FOLD_MIN_DEPTH", "5"),
        ("TOON_PRIMITIVE_ARRAY_MIN", "6"),
        ("TOON_CSV_NUMERIC_COERCION", "0"),
    ]);
    assert_eq!(
        CompressConfig::from(&config),
        CompressConfig {
            max_output_ratio: Ratio { digits: 5, places: 1 },
            min_bytes: 1,
            max_input_bytes: 2,
            key_folding: false,
            delimiter: Delimiter::Tab,
            tabular_min_rows: 4,
            fold_min_depth: 5,
            primitive_array_min: 6,
            csv_numeric_coercion: false,
        }
    );
}
