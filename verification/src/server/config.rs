//! Server configuration from environment variables.

use vstd::prelude::*;
use crate::bindings::{float_reading, read_float};
use crate::compressor::{CompressConfig, Delimiter, DEFAULT_MAX_INPUT_BYTES};
use crate::logging::jsonl_sink::JsonlSinkConfig;
use crate::number::{natural_value, parse_u64, parse_usize};
use crate::ratio::{unit_ratio, Ratio};
use crate::server::error::{rejection_of, Rejection, ServerError};
use crate::text::same_text;

verus! {

/// Configuration of the server, loaded once at startup.
#[derive(Debug)]
pub struct Config {
    /// Largest output-to-input byte ratio accepted as compressed. `0.85` means
    /// at most 85 % of the input; `1.0` accepts any strictly shorter output.
    pub max_output_ratio: Ratio,
    /// Minimum input byte count for classification to run.
    pub min_bytes: usize,
    /// Maximum input byte count; longer inputs are rejected.
    pub max_input_bytes: usize,
    /// Whether key folding is enabled.
    pub key_folding: bool,
    /// Array delimiter of the TOON output.
    pub delimiter: Delimiter,
    /// Minimum array length for the tabular shape.
    pub tabular_min_rows: usize,
    /// Minimum chain length for the fold-chain shape.
    pub fold_min_depth: usize,
    /// Minimum array length for the primitive-array shape.
    pub primitive_array_min: usize,
    /// Whether numeric-looking CSV and TSV fields become numbers.
    pub csv_numeric_coercion: bool,
    /// Whether structured logging is enabled.
    pub logging_enabled: bool,
    /// Sink configuration, meaningful when logging is enabled.
    pub logging: JsonlSinkConfig,
    /// Filter of the diagnostic trace.
    pub log_level: String,
    /// Client identifier written to every log row.
    pub client_hint: Option<String>,
    /// Per-call pipeline timeout in milliseconds.
    pub pipeline_timeout_ms: u64,
    /// Maximum number of concurrent pipeline calls.
    pub max_concurrent_calls: usize,
    /// Whether unparseable variables fail startup instead of falling back to
    /// defaults.
    pub strict_config: bool,
}

/// A variable whose value was replaced or deserves attention.
#[derive(Debug)]
pub struct ConfigWarning {
    /// The variable.
    pub var: &'static str,
    /// Its value.
    pub raw: String,
    /// What is wrong with it.
    pub reason: &'static str,
}

/// The model of a [`ConfigWarning`].
pub open spec fn warning_model(w: ConfigWarning) -> Rejection {
    Rejection { var: w.var@, value: w.raw@, reason: w.reason@ }
}

/// The models of a run of warnings.
pub open spec fn warning_models(w: Seq<ConfigWarning>) -> Seq<Rejection> {
    w.map_values(|x: ConfigWarning| warning_model(x))
}

/// The environment: variables and their values. The first entry for a variable
/// counts.
pub open spec fn setting(vars: Seq<(String, String)>, key: Seq<char>) -> Option<Seq<char>>
    decreases vars.len(),
{
    if vars.len() == 0 {
        None
    } else if vars[0].0@ == key {
        Some(vars[0].1@)
    } else {
        setting(vars.drop_first(), key)
    }
}

/// What a variable's text amounts to.
pub enum Reading<T> {
    /// A usable value.
    Value(T),
    /// Text that does not parse.
    Unparseable,
    /// A value that violates a constraint.
    OutOfRange,
}

/// The value of a variable: the default where it is unset, or where its text
/// does not parse and the configuration is lenient.
pub open spec fn resolve<T>(
    text: Option<Seq<char>>,
    reading: Reading<T>,
    default: T,
    strict: bool,
) -> Option<T> {
    if text is None {
        Some(default)
    } else {
        match reading {
            Reading::Value(v) => Some(v),
            Reading::Unparseable => if strict {
                None
            } else {
                Some(default)
            },
            Reading::OutOfRange => None,
        }
    }
}

/// The rejection of a variable: a violated constraint always, unparseable text
/// where the configuration is strict.
pub open spec fn refusal<T>(
    key: Seq<char>,
    text: Option<Seq<char>>,
    reading: Reading<T>,
    unparseable: Seq<char>,
    out_of_range: Seq<char>,
    strict: bool,
) -> Option<Rejection> {
    match text {
        None => None,
        Some(value) => match reading {
            Reading::Value(_) => None,
            Reading::Unparseable => if strict {
                Some(Rejection { var: key, value, reason: unparseable })
            } else {
                None
            },
            Reading::OutOfRange => Some(Rejection { var: key, value, reason: out_of_range }),
        },
    }
}

/// The warning about a variable whose text does not parse, where the
/// configuration is lenient.
pub open spec fn fallback_warning<T>(
    key: Seq<char>,
    text: Option<Seq<char>>,
    reading: Reading<T>,
    reason: Seq<char>,
    strict: bool,
) -> Seq<Rejection> {
    match text {
        Some(value) if reading is Unparseable && !strict => seq![
            Rejection { var: key, value, reason },
        ],
        _ => Seq::empty(),
    }
}

/// A ratio within [0, 1], written as any binary64 number.
pub open spec fn ratio_reading(text: Seq<char>) -> Reading<Ratio> {
    match float_reading(text) {
        None => Reading::Unparseable,
        Some(None) => Reading::OutOfRange,
        Some(Some((shortest, _))) => match unit_ratio(shortest) {
            Some(ratio) => Reading::Value(ratio),
            None => Reading::OutOfRange,
        },
    }
}

/// An integer that fits `usize`.
pub open spec fn usize_reading(text: Seq<char>) -> Reading<usize> {
    match natural_value(text) {
        Some(n) if n <= usize::MAX => Reading::Value(n as usize),
        _ => Reading::Unparseable,
    }
}

/// A positive integer that fits `usize`.
pub open spec fn positive_usize_reading(text: Seq<char>) -> Reading<usize> {
    match usize_reading(text) {
        Reading::Value(n) if n == 0 => Reading::OutOfRange,
        other => other,
    }
}

/// A positive integer that fits `u64`.
pub open spec fn positive_u64_reading(text: Seq<char>) -> Reading<u64> {
    match natural_value(text) {
        Some(n) if n == 0 => Reading::OutOfRange,
        Some(n) if n <= u64::MAX => Reading::Value(n as u64),
        _ => Reading::Unparseable,
    }
}

/// One of the accepted spellings of a boolean.
pub open spec fn bool_reading(text: Seq<char>) -> Reading<bool> {
    if text == "true"@ || text == "1"@ || text == "yes"@ {
        Reading::Value(true)
    } else if text == "false"@ || text == "0"@ || text == "no"@ {
        Reading::Value(false)
    } else {
        Reading::Unparseable
    }
}

/// One of the accepted names of a delimiter.
pub open spec fn delimiter_reading(text: Seq<char>) -> Reading<Delimiter> {
    if text == "comma"@ {
        Reading::Value(Delimiter::Comma)
    } else if text == "tab"@ {
        Reading::Value(Delimiter::Tab)
    } else if text == "pipe"@ {
        Reading::Value(Delimiter::Pipe)
    } else {
        Reading::Unparseable
    }
}

/// The reading of an optional text by `read`.
pub open spec fn read_as<T>(text: Option<Seq<char>>, read: spec_fn(Seq<char>) -> Reading<T>) -> Reading<
    T,
> {
    match text {
        Some(t) => read(t),
        None => Reading::Unparseable,
    }
}

/// The value of the variable `key`.
pub fn get<'a>(vars: &'a Vec<(String, String)>, key: &str) -> (r: Option<&'a str>)
    ensures
        match r {
            Some(v) => setting(vars@, key@) == Some(v@),
            None => setting(vars@, key@) is None,
        },
{
    let mut i: usize = 0;
    assert(vars@.skip(0) =~= vars@);
    while i < vars.len()
        invariant
            0 <= i <= vars@.len(),
            setting(vars@.skip(i as int), key@) == setting(vars@, key@),
        decreases vars@.len() - i,
    {
        let ghost rest = vars@.skip(i as int);
        assert(rest[0] == vars@[i as int]);
        assert(rest.drop_first() =~= vars@.skip(i + 1));
        if same_text(vars[i].0.as_str(), key) {
            return Some(vars[i].1.as_str());
        }
        i = i + 1;
    }
    None
}

/// Settles a variable: its value, or its rejection, with a warning where the
/// default stands in for unparseable text.
fn settle<T: Copy>(
    key: &'static str,
    text: Option<&str>,
    reading: Reading<T>,
    default: T,
    strict: bool,
    kinds: (&'static str, &'static str, &'static str),
    warnings: &mut Vec<ConfigWarning>,
) -> (r: Result<T, ServerError>)
    ensures
        ({
            let t = match text {
                Some(t) => Some(t@),
                None => None,
            };
            &&& match r {
                Ok(v) => {
                    &&& resolve(t, reading, default, strict) == Some(v)
                    &&& refusal(key@, t, reading, kinds.0@, kinds.1@, strict) is None
                },
                Err(e) => {
                    &&& resolve(t, reading, default, strict) is None
                    &&& refusal(key@, t, reading, kinds.0@, kinds.1@, strict) is Some
                    &&& rejection_of(e) == refusal(
                        key@,
                        t,
                        reading,
                        kinds.0@,
                        kinds.1@,
                        strict,
                    )
                },
            }
            &&& warning_models(final(warnings)@) == warning_models(old(warnings)@)
                + fallback_warning(key@, t, reading, kinds.2@, strict)
        }),
{
    let ghost before = warning_models(warnings@);
    assert(before + Seq::<Rejection>::empty() =~= before);
    let value = match text {
        None => {
            return Ok(default);
        },
        Some(value) => value,
    };
    match reading {
        Reading::Value(v) => Ok(v),
        Reading::OutOfRange => Err(
            ServerError::InvalidConfig { var: key, value: value.to_owned(), reason: kinds.1 },
        ),
        Reading::Unparseable => {
            if strict {
                return Err(
                    ServerError::InvalidConfig {
                        var: key,
                        value: value.to_owned(),
                        reason: kinds.0,
                    },
                );
            }
            let w = ConfigWarning { var: key, raw: value.to_owned(), reason: kinds.2 };
            let ghost m = warning_model(w);
            warnings.push(w);
            assert(warning_models(warnings@) =~= before + seq![m]);
            Ok(default)
        },
    }
}

/// What became of a variable: its value, or why it was rejected, and the warning
/// that it gave rise to.
pub struct Settled<T> {
    pub value: Option<T>,
    pub refusal: Option<Rejection>,
    pub warnings: Seq<Rejection>,
}

/// What becomes of the variable `key` under a reading and its three messages:
/// for unparseable text, for a violated constraint, and for the warning.
pub open spec fn settled<T>(
    vars: Seq<(String, String)>,
    key: Seq<char>,
    read: spec_fn(Seq<char>) -> Reading<T>,
    default: T,
    strict: bool,
    messages: (Seq<char>, Seq<char>, Seq<char>),
) -> Settled<T> {
    let text = setting(vars, key);
    let reading = read_as(text, read);
    Settled {
        value: resolve(text, reading, default, strict),
        refusal: refusal(key, text, reading, messages.0, messages.1, strict),
        warnings: fallback_warning(key, text, reading, messages.2, strict),
    }
}

/// Whether a result is what became of the variable.
pub open spec fn agrees<T>(r: Result<T, ServerError>, s: Settled<T>) -> bool {
    match r {
        Ok(v) => s.value == Some(v) && s.refusal is None,
        Err(e) => s.value is None && s.refusal is Some && rejection_of(e) == s.refusal,
    }
}

/// What becomes of a variable that holds a ratio within [0, 1].
pub open spec fn ratio_valued(
    vars: Seq<(String, String)>,
    key: Seq<char>,
    default: Ratio,
    strict: bool,
) -> Settled<Ratio> {
    settled(
        vars,
        key,
        |t: Seq<char>| ratio_reading(t),
        default,
        strict,
        (
            "value must be parseable as f64"@,
            "value must be within [0.0, 1.0] inclusive"@,
            "invalid f64 value; using the default"@,
        ),
    )
}

/// What becomes of a variable that holds a size.
pub open spec fn usize_valued(
    vars: Seq<(String, String)>,
    key: Seq<char>,
    default: usize,
    strict: bool,
) -> Settled<usize> {
    settled(
        vars,
        key,
        |t: Seq<char>| usize_reading(t),
        default,
        strict,
        (
            "value must be parseable as usize"@,
            ""@,
            "invalid usize value; using the default"@,
        ),
    )
}

/// What becomes of a variable that holds a positive size.
pub open spec fn positive_usize_valued(
    vars: Seq<(String, String)>,
    key: Seq<char>,
    default: usize,
    strict: bool,
) -> Settled<usize> {
    settled(
        vars,
        key,
        |t: Seq<char>| positive_usize_reading(t),
        default,
        strict,
        (
            "value must be parseable as usize"@,
            "value must be >= 1"@,
            "invalid usize value; using the default"@,
        ),
    )
}

/// What becomes of a variable that holds a positive integer.
pub open spec fn positive_u64_valued(
    vars: Seq<(String, String)>,
    key: Seq<char>,
    default: u64,
    strict: bool,
) -> Settled<u64> {
    settled(
        vars,
        key,
        |t: Seq<char>| positive_u64_reading(t),
        default,
        strict,
        (
            "value must be parseable as u64"@,
            "value must be >= 1"@,
            "invalid u64 value; using the default"@,
        ),
    )
}

/// What becomes of a variable that holds a boolean.
pub open spec fn bool_valued(
    vars: Seq<(String, String)>,
    key: Seq<char>,
    default: bool,
    strict: bool,
) -> Settled<bool> {
    settled(
        vars,
        key,
        |t: Seq<char>| bool_reading(t),
        default,
        strict,
        (
            "value must be a boolean: true, false, 1, 0, yes, or no"@,
            ""@,
            "invalid bool value; using the default"@,
        ),
    )
}

/// What becomes of a variable that holds a delimiter.
pub open spec fn delimiter_valued(
    vars: Seq<(String, String)>,
    key: Seq<char>,
    default: Delimiter,
    strict: bool,
) -> Settled<Delimiter> {
    settled(
        vars,
        key,
        |t: Seq<char>| delimiter_reading(t),
        default,
        strict,
        (
            "value must be one of: comma, tab, pipe"@,
            ""@,
            "invalid delimiter value; accepted: comma, tab, pipe; using the default"@,
        ),
    )
}

/// The variable `key` as a ratio within [0, 1].
fn env_ratio(
    vars: &Vec<(String, String)>,
    key: &'static str,
    default: Ratio,
    strict: bool,
    warnings: &mut Vec<ConfigWarning>,
) -> (r: Result<Ratio, ServerError>)
    ensures
        agrees(r, ratio_valued(vars@, key@, default, strict)),
        warning_models(final(warnings)@) == warning_models(old(warnings)@) + ratio_valued(
            vars@,
            key@,
            default,
            strict,
        ).warnings,
{
    let text = get(vars, key);
    let reading: Reading<Ratio> = match text {
        None => Reading::Unparseable,
        Some(t) => match read_float(t) {
            None => Reading::Unparseable,
            Some(None) => Reading::OutOfRange,
            Some(Some((shortest, _))) => match Ratio::parse(shortest.as_str()) {
                Some(ratio) => Reading::Value(ratio),
                None => Reading::OutOfRange,
            },
        },
    };
    settle(
        key,
        text,
        reading,
        default,
        strict,
        (
            "value must be parseable as f64",
            "value must be within [0.0, 1.0] inclusive",
            "invalid f64 value; using the default",
        ),
        warnings,
    )
}

/// The variable `key` as a size.
fn env_usize(
    vars: &Vec<(String, String)>,
    key: &'static str,
    default: usize,
    strict: bool,
    warnings: &mut Vec<ConfigWarning>,
) -> (r: Result<usize, ServerError>)
    ensures
        agrees(r, usize_valued(vars@, key@, default, strict)),
        warning_models(final(warnings)@) == warning_models(old(warnings)@) + usize_valued(
            vars@,
            key@,
            default,
            strict,
        ).warnings,
{
    let text = get(vars, key);
    let reading: Reading<usize> = match text {
        None => Reading::Unparseable,
        Some(t) => match parse_usize(t) {
            Some(n) => Reading::Value(n),
            None => Reading::Unparseable,
        },
    };
    settle(
        key,
        text,
        reading,
        default,
        strict,
        (
            "value must be parseable as usize",
            "",
            "invalid usize value; using the default",
        ),
        warnings,
    )
}

/// The variable `key` as a positive size.
fn env_usize_positive(
    vars: &Vec<(String, String)>,
    key: &'static str,
    default: usize,
    strict: bool,
    warnings: &mut Vec<ConfigWarning>,
) -> (r: Result<usize, ServerError>)
    ensures
        agrees(r, positive_usize_valued(vars@, key@, default, strict)),
        warning_models(final(warnings)@) == warning_models(old(warnings)@) + positive_usize_valued(
            vars@,
            key@,
            default,
            strict,
        ).warnings,
{
    let text = get(vars, key);
    let reading: Reading<usize> = match text {
        None => Reading::Unparseable,
        Some(t) => match parse_usize(t) {
            Some(n) => if n == 0 {
                Reading::OutOfRange
            } else {
                Reading::Value(n)
            },
            None => Reading::Unparseable,
        },
    };
    settle(
        key,
        text,
        reading,
        default,
        strict,
        (
            "value must be parseable as usize",
            "value must be >= 1",
            "invalid usize value; using the default",
        ),
        warnings,
    )
}

/// The variable `key` as a positive integer.
fn env_u64_positive(
    vars: &Vec<(String, String)>,
    key: &'static str,
    default: u64,
    strict: bool,
    warnings: &mut Vec<ConfigWarning>,
) -> (r: Result<u64, ServerError>)
    ensures
        agrees(r, positive_u64_valued(vars@, key@, default, strict)),
        warning_models(final(warnings)@) == warning_models(old(warnings)@) + positive_u64_valued(
            vars@,
            key@,
            default,
            strict,
        ).warnings,
{
    let text = get(vars, key);
    let reading: Reading<u64> = match text {
        None => Reading::Unparseable,
        Some(t) => match parse_u64(t) {
            Some(n) => if n == 0 {
                Reading::OutOfRange
            } else {
                Reading::Value(n)
            },
            None => Reading::Unparseable,
        },
    };
    settle(
        key,
        text,
        reading,
        default,
        strict,
        (
            "value must be parseable as u64",
            "value must be >= 1",
            "invalid u64 value; using the default",
        ),
        warnings,
    )
}

/// The variable `key` as a boolean.
fn env_bool_result(
    vars: &Vec<(String, String)>,
    key: &'static str,
    default: bool,
    strict: bool,
    warnings: &mut Vec<ConfigWarning>,
) -> (r: Result<bool, ServerError>)
    ensures
        agrees(r, bool_valued(vars@, key@, default, strict)),
        warning_models(final(warnings)@) == warning_models(old(warnings)@) + bool_valued(
            vars@,
            key@,
            default,
            strict,
        ).warnings,
{
    let text = get(vars, key);
    let reading: Reading<bool> = match text {
        None => Reading::Unparseable,
        Some(t) => if same_text(t, "true") || same_text(t, "1") || same_text(t, "yes") {
            Reading::Value(true)
        } else if same_text(t, "false") || same_text(t, "0") || same_text(t, "no") {
            Reading::Value(false)
        } else {
            Reading::Unparseable
        },
    };
    settle(
        key,
        text,
        reading,
        default,
        strict,
        (
            "value must be a boolean: true, false, 1, 0, yes, or no",
            "",
            "invalid bool value; using the default",
        ),
        warnings,
    )
}

/// The variable `key` as a delimiter.
fn env_delimiter(
    vars: &Vec<(String, String)>,
    key: &'static str,
    default: Delimiter,
    strict: bool,
    warnings: &mut Vec<ConfigWarning>,
) -> (r: Result<Delimiter, ServerError>)
    ensures
        agrees(r, delimiter_valued(vars@, key@, default, strict)),
        warning_models(final(warnings)@) == warning_models(old(warnings)@) + delimiter_valued(
            vars@,
            key@,
            default,
            strict,
        ).warnings,
{
    let text = get(vars, key);
    let reading: Reading<Delimiter> = match text {
        None => Reading::Unparseable,
        Some(t) => if same_text(t, "comma") {
            Reading::Value(Delimiter::Comma)
        } else if same_text(t, "tab") {
            Reading::Value(Delimiter::Tab)
        } else if same_text(t, "pipe") {
            Reading::Value(Delimiter::Pipe)
        } else {
            Reading::Unparseable
        },
    };
    settle(
        key,
        text,
        reading,
        default,
        strict,
        (
            "value must be one of: comma, tab, pipe",
            "",
            "invalid delimiter value; accepted: comma, tab, pipe; using the default",
        ),
        warnings,
    )
}

/// Whether the configuration is strict. The variable itself is read leniently.
pub open spec fn strictness(vars: Seq<(String, String)>) -> bool {
    bool_valued(vars, "TOON_CONFIG_STRICT"@, false, false).value == Some(true)
}

/// What becomes of `TOON_COMPRESSION_THRESHOLD`.
pub open spec fn max_output_ratio_var(vars: Seq<(String, String)>) -> Settled<Ratio> {
    ratio_valued(vars, "TOON_COMPRESSION_THRESHOLD"@, Ratio { digits: 85, places: 2 }, strictness(vars))
}

/// What becomes of `TOON_MIN_BYTES`.
pub open spec fn min_bytes_var(vars: Seq<(String, String)>) -> Settled<usize> {
    usize_valued(vars, "TOON_MIN_BYTES"@, 256, strictness(vars))
}

/// What becomes of `TOON_MAX_INPUT_BYTES`.
pub open spec fn max_input_bytes_var(vars: Seq<(String, String)>) -> Settled<usize> {
    positive_usize_valued(vars, "TOON_MAX_INPUT_BYTES"@, DEFAULT_MAX_INPUT_BYTES, strictness(vars))
}

/// What becomes of `TOON_KEY_FOLDING`.
pub open spec fn key_folding_var(vars: Seq<(String, String)>) -> Settled<bool> {
    bool_valued(vars, "TOON_KEY_FOLDING"@, true, strictness(vars))
}

/// What becomes of `TOON_DELIMITER`.
pub open spec fn delimiter_var(vars: Seq<(String, String)>) -> Settled<Delimiter> {
    delimiter_valued(vars, "TOON_DELIMITER"@, Delimiter::Comma, strictness(vars))
}

/// What becomes of `TOON_TABULAR_MIN_ROWS`.
pub open spec fn tabular_min_rows_var(vars: Seq<(String, String)>) -> Settled<usize> {
    usize_valued(vars, "TOON_TABULAR_MIN_ROWS"@, 3, strictness(vars))
}

/// What becomes of `TOON_FOLD_MIN_DEPTH`.
pub open spec fn fold_min_depth_var(vars: Seq<(String, String)>) -> Settled<usize> {
    usize_valued(vars, "TOON_FOLD_MIN_DEPTH"@, 3, strictness(vars))
}

/// What becomes of `TOON_PRIMITIVE_ARRAY_MIN`.
pub open spec fn primitive_array_min_var(vars: Seq<(String, String)>) -> Settled<usize> {
    usize_valued(vars, "TOON_PRIMITIVE_ARRAY_MIN"@, 5, strictness(vars))
}

/// What becomes of `TOON_CSV_NUMERIC_COERCION`.
pub open spec fn csv_numeric_coercion_var(vars: Seq<(String, String)>) -> Settled<bool> {
    bool_valued(vars, "TOON_CSV_NUMERIC_COERCION"@, true, strictness(vars))
}

/// What becomes of `TOON_LOG_ENABLED`.
pub open spec fn logging_enabled_var(vars: Seq<(String, String)>) -> Settled<bool> {
    bool_valued(vars, "TOON_LOG_ENABLED"@, true, strictness(vars))
}

/// What becomes of `TOON_PIPELINE_TIMEOUT_MS`.
pub open spec fn pipeline_timeout_ms_var(vars: Seq<(String, String)>) -> Settled<u64> {
    positive_u64_valued(vars, "TOON_PIPELINE_TIMEOUT_MS"@, 30_000, strictness(vars))
}

/// What becomes of `TOON_MAX_CONCURRENT_CALLS`.
pub open spec fn max_concurrent_calls_var(vars: Seq<(String, String)>) -> Settled<usize> {
    positive_usize_valued(vars, "TOON_MAX_CONCURRENT_CALLS"@, 8, strictness(vars))
}

/// What becomes of `TOON_LOG_FLUSH_INTERVAL_SECS`.
pub open spec fn flush_interval_secs_var(vars: Seq<(String, String)>) -> Settled<u64> {
    positive_u64_valued(vars, "TOON_LOG_FLUSH_INTERVAL_SECS"@, 300, strictness(vars))
}

/// What becomes of `TOON_LOG_BUFFER_SIZE`.
pub open spec fn buffer_size_var(vars: Seq<(String, String)>) -> Settled<usize> {
    positive_usize_valued(vars, "TOON_LOG_BUFFER_SIZE"@, 1000, strictness(vars))
}

/// The first of two rejections.
pub open spec fn or(first: Option<Rejection>, second: Option<Rejection>) -> Option<Rejection> {
    if first is Some {
        first
    } else {
        second
    }
}

/// The first rejected variable, in the order in which variables are read.
pub open spec fn first_refusal(vars: Seq<(String, String)>) -> Option<Rejection> {
    let rest = buffer_size_var(vars).refusal;
    let rest = or(flush_interval_secs_var(vars).refusal, rest);
    let rest = or(max_concurrent_calls_var(vars).refusal, rest);
    let rest = or(pipeline_timeout_ms_var(vars).refusal, rest);
    let rest = or(logging_enabled_var(vars).refusal, rest);
    let rest = or(csv_numeric_coercion_var(vars).refusal, rest);
    let rest = or(primitive_array_min_var(vars).refusal, rest);
    let rest = or(fold_min_depth_var(vars).refusal, rest);
    let rest = or(tabular_min_rows_var(vars).refusal, rest);
    let rest = or(delimiter_var(vars).refusal, rest);
    let rest = or(key_folding_var(vars).refusal, rest);
    let rest = or(max_input_bytes_var(vars).refusal, rest);
    let rest = or(min_bytes_var(vars).refusal, rest);
    or(max_output_ratio_var(vars).refusal, rest)
}

/// The warning that a minimum of zero bytes gives rise to.
pub open spec fn zero_minimum_warning(vars: Seq<(String, String)>) -> Seq<Rejection> {
    if min_bytes_var(vars).value == Some(0usize) {
        seq![
            Rejection {
                var: "TOON_MIN_BYTES"@,
                value: setting(vars, "TOON_MIN_BYTES"@)->0,
                reason: "disables the minimum-bytes gate; all inputs including empty strings will be processed"@,
            },
        ]
    } else {
        Seq::empty()
    }
}

/// The warnings of a configuration that loads, in the order in which variables
/// are read.
pub open spec fn all_warnings(vars: Seq<(String, String)>) -> Seq<Rejection> {
    bool_valued(vars, "TOON_CONFIG_STRICT"@, false, false).warnings
        + max_output_ratio_var(vars).warnings
        + min_bytes_var(vars).warnings
        + max_input_bytes_var(vars).warnings
        + key_folding_var(vars).warnings
        + delimiter_var(vars).warnings
        + tabular_min_rows_var(vars).warnings
        + fold_min_depth_var(vars).warnings
        + primitive_array_min_var(vars).warnings
        + csv_numeric_coercion_var(vars).warnings
        + logging_enabled_var(vars).warnings
        + pipeline_timeout_ms_var(vars).warnings
        + max_concurrent_calls_var(vars).warnings
        + flush_interval_secs_var(vars).warnings
        + buffer_size_var(vars).warnings
        + zero_minimum_warning(vars)
}

/// The text of a variable, or a default.
pub open spec fn text_or(vars: Seq<(String, String)>, key: Seq<char>, default: Seq<char>) -> Seq<
    char,
> {
    match setting(vars, key) {
        Some(text) => text,
        None => default,
    }
}

/// Whether `c` is the configuration that the variables describe.
pub open spec fn describes(vars: Seq<(String, String)>, c: Config) -> bool {
    &&& c.strict_config == strictness(vars)
    &&& max_output_ratio_var(vars).value == Some(c.max_output_ratio)
    &&& min_bytes_var(vars).value == Some(c.min_bytes)
    &&& max_input_bytes_var(vars).value == Some(c.max_input_bytes)
    &&& key_folding_var(vars).value == Some(c.key_folding)
    &&& delimiter_var(vars).value == Some(c.delimiter)
    &&& tabular_min_rows_var(vars).value == Some(c.tabular_min_rows)
    &&& fold_min_depth_var(vars).value == Some(c.fold_min_depth)
    &&& primitive_array_min_var(vars).value == Some(c.primitive_array_min)
    &&& csv_numeric_coercion_var(vars).value == Some(c.csv_numeric_coercion)
    &&& logging_enabled_var(vars).value == Some(c.logging_enabled)
    &&& pipeline_timeout_ms_var(vars).value == Some(c.pipeline_timeout_ms)
    &&& max_concurrent_calls_var(vars).value == Some(c.max_concurrent_calls)
    &&& flush_interval_secs_var(vars).value == Some(c.logging.flush_interval_secs)
    &&& buffer_size_var(vars).value == Some(c.logging.buffer_size)
    &&& c.logging.log_dir@ == text_or(vars, "TOON_LOG_DIR"@, "data/logs"@)
    &&& c.log_level@ == text_or(vars, "TOON_LOG_LEVEL"@, "info"@)
    &&& match c.client_hint {
        Some(hint) => setting(vars, "TOON_CLIENT_HINT"@) == Some(hint@) && hint@.len() > 0,
        None => text_or(vars, "TOON_CLIENT_HINT"@, Seq::empty()).len() == 0,
    }
}

/// Whether `c` holds the defaults for library consumers: as loaded from an empty
/// environment, but without logging, since a relative log directory would
/// depend on the working directory.
pub open spec fn is_default(c: Config) -> bool {
    &&& c.max_output_ratio == (Ratio { digits: 85, places: 2 })
    &&& c.min_bytes == 256
    &&& c.max_input_bytes == DEFAULT_MAX_INPUT_BYTES
    &&& c.key_folding
    &&& c.delimiter == Delimiter::Comma
    &&& c.tabular_min_rows == 3
    &&& c.fold_min_depth == 3
    &&& c.primitive_array_min == 5
    &&& c.csv_numeric_coercion
    &&& !c.logging_enabled
    &&& c.logging.log_dir@ == "data/logs"@
    &&& c.logging.buffer_size == 1000
    &&& c.logging.flush_interval_secs == 300
    &&& c.log_level@ == "info"@
    &&& c.client_hint is None
    &&& c.pipeline_timeout_ms == 30_000
    &&& c.max_concurrent_calls == 8
    &&& !c.strict_config
}

impl Default for Config {
    fn default() -> (r: Self)
        ensures
            is_default(r),
    {
        Self {
            max_output_ratio: Ratio { digits: 85, places: 2 },
            min_bytes: 256,
            max_input_bytes: DEFAULT_MAX_INPUT_BYTES,
            key_folding: true,
            delimiter: Delimiter::Comma,
            tabular_min_rows: 3,
            fold_min_depth: 3,
            primitive_array_min: 5,
            csv_numeric_coercion: true,
            logging_enabled: false,
            logging: JsonlSinkConfig::default(),
            log_level: "info".to_owned(),
            client_hint: None,
            pipeline_timeout_ms: 30_000,
            max_concurrent_calls: 8,
            strict_config: false,
        }
    }
}

/// The compressor settings of a configuration.
pub open spec fn compress_config_of(c: Config) -> CompressConfig {
    CompressConfig {
        max_output_ratio: c.max_output_ratio,
        min_bytes: c.min_bytes,
        max_input_bytes: c.max_input_bytes,
        key_folding: c.key_folding,
        delimiter: c.delimiter,
        tabular_min_rows: c.tabular_min_rows,
        fold_min_depth: c.fold_min_depth,
        primitive_array_min: c.primitive_array_min,
        csv_numeric_coercion: c.csv_numeric_coercion,
    }
}

impl Config {
    /// Load the configuration from environment variables, falling back to
    /// defaults. A value that violates a constraint is rejected; text that does
    /// not parse falls back to the default unless `TOON_CONFIG_STRICT` is true.
    pub fn load(vars: &Vec<(String, String)>) -> (r: Result<Config, ServerError>)
        ensures
            match r {
                Ok(c) => describes(vars@, c) && first_refusal(vars@) is None,
                Err(e) => first_refusal(vars@) is Some && rejection_of(e) == first_refusal(vars@),
            },
    {
        match Self::load_with_warnings(vars) {
            Ok(loaded) => Ok(loaded.0),
            Err(e) => Err(e),
        }
    }

    /// Load the configuration together with the warnings about variables whose
    /// text was replaced by a default.
    pub fn load_with_warnings(vars: &Vec<(String, String)>) -> (r: Result<
        (Config, Vec<ConfigWarning>),
        ServerError,
    >)
        ensures
            match r {
                Ok(loaded) => {
                    &&& describes(vars@, loaded.0)
                    &&& first_refusal(vars@) is None
                    &&& warning_models(loaded.1@) == all_warnings(vars@)
                },
                Err(e) => first_refusal(vars@) is Some && rejection_of(e) == first_refusal(vars@),
            },
    {
        let mut warnings: Vec<ConfigWarning> = Vec::new();
        assert(warning_models(warnings@) =~= Seq::empty());
        let strict = match env_bool_result(vars, "TOON_CONFIG_STRICT", false, false, &mut warnings) {
            Ok(strict) => strict,
            Err(e) => {
                return Err(e);
            },
        };
        assert(warning_models(warnings@) =~= bool_valued(
            vars@,
            "TOON_CONFIG_STRICT"@,
            false,
            false,
        ).warnings);
        let max_output_ratio = match env_ratio(
            vars,
            "TOON_COMPRESSION_THRESHOLD",
            Ratio { digits: 85, places: 2 },
            strict,
            &mut warnings,
        ) {
            Ok(v) => v,
            Err(e) => {
                return Err(e);
            },
        };
        let min_bytes = match env_usize(
            vars,
            "TOON_MIN_BYTES",
            256,
            strict,
            &mut warnings,
        ) {
            Ok(v) => v,
            Err(e) => {
                return Err(e);
            },
        };
        let max_input_bytes = match env_usize_positive(
            vars,
            "TOON_MAX_INPUT_BYTES",
            DEFAULT_MAX_INPUT_BYTES,
            strict,
            &mut warnings,
        ) {
            Ok(v) => v,
            Err(e) => {
                return Err(e);
            },
        };
        let key_folding = match env_bool_result(
            vars,
            "TOON_KEY_FOLDING",
            true,
            strict,
            &mut warnings,
        ) {
            Ok(v) => v,
            Err(e) => {
                return Err(e);
            },
        };
        let delimiter = match env_delimiter(
            vars,
            "TOON_DELIMITER",
            Delimiter::Comma,
            strict,
            &mut warnings,
        ) {
            Ok(v) => v,
            Err(e) => {
                return Err(e);
            },
        };
        let tabular_min_rows = match env_usize(
            vars,
            "TOON_TABULAR_MIN_ROWS",
            3,
            strict,
            &mut warnings,
        ) {
            Ok(v) => v,
            Err(e) => {
                return Err(e);
            },
        };
        let fold_min_depth = match env_usize(
            vars,
            "TOON_FOLD_MIN_DEPTH",
            3,
            strict,
            &mut warnings,
        ) {
            Ok(v) => v,
            Err(e) => {
                return Err(e);
            },
        };
        let primitive_array_min = match env_usize(
            vars,
            "TOON_PRIMITIVE_ARRAY_MIN",
            5,
            strict,
            &mut warnings,
        ) {
            Ok(v) => v,
            Err(e) => {
                return Err(e);
            },
        };
        let csv_numeric_coercion = match env_bool_result(
            vars,
            "TOON_CSV_NUMERIC_COERCION",
            true,
            strict,
            &mut warnings,
        ) {
            Ok(v) => v,
            Err(e) => {
                return Err(e);
            },
        };
        let logging_enabled = match env_bool_result(
            vars,
            "TOON_LOG_ENABLED",
            true,
            strict,
            &mut warnings,
        ) {
            Ok(v) => v,
            Err(e) => {
                return Err(e);
            },
        };
        let pipeline_timeout_ms = match env_u64_positive(
            vars,
            "TOON_PIPELINE_TIMEOUT_MS",
            30_000,
            strict,
            &mut warnings,
        ) {
            Ok(v) => v,
            Err(e) => {
                return Err(e);
            },
        };
        let max_concurrent_calls = match env_usize_positive(
            vars,
            "TOON_MAX_CONCURRENT_CALLS",
            8,
            strict,
            &mut warnings,
        ) {
            Ok(v) => v,
            Err(e) => {
                return Err(e);
            },
        };
        let flush_interval_secs = match env_u64_positive(
            vars,
            "TOON_LOG_FLUSH_INTERVAL_SECS",
            300,
            strict,
            &mut warnings,
        ) {
            Ok(v) => v,
            Err(e) => {
                return Err(e);
            },
        };
        let buffer_size = match env_usize_positive(
            vars,
            "TOON_LOG_BUFFER_SIZE",
            1000,
            strict,
            &mut warnings,
        ) {
            Ok(v) => v,
            Err(e) => {
                return Err(e);
            },
        };
        let log_level = match get(vars, "TOON_LOG_LEVEL") {
            Some(text) => text.to_owned(),
            None => "info".to_owned(),
        };
        let client_hint = match get(vars, "TOON_CLIENT_HINT") {
            Some(text) => if text.is_empty() {
                None
            } else {
                Some(text.to_owned())
            },
            None => None,
        };
        let log_dir = match get(vars, "TOON_LOG_DIR") {
            Some(text) => text.to_owned(),
            None => "data/logs".to_owned(),
        };
        let ghost before = warning_models(warnings@);
        if min_bytes == 0 {
            match get(vars, "TOON_MIN_BYTES") {
                Some(text) => {
                    let w = ConfigWarning {
                        var: "TOON_MIN_BYTES",
                        raw: text.to_owned(),
                        reason: "disables the minimum-bytes gate; all inputs including empty strings will be processed",
                    };
                    let ghost m = warning_model(w);
                    warnings.push(w);
                    assert(warning_models(warnings@) =~= before + seq![m]);
                },
                None => {},
            }
        } else {
            assert(before + Seq::<Rejection>::empty() =~= before);
        }
        Ok(
            (
                Config {
                    max_output_ratio,
                    min_bytes,
                    max_input_bytes,
                    key_folding,
                    delimiter,
                    tabular_min_rows,
                    fold_min_depth,
                    primitive_array_min,
                    csv_numeric_coercion,
                    logging_enabled,
                    logging: JsonlSinkConfig { log_dir, buffer_size, flush_interval_secs },
                    log_level,
                    client_hint,
                    pipeline_timeout_ms,
                    max_concurrent_calls,
                    strict_config: strict,
                },
                warnings,
            ),
        )
    }
}

impl From<&Config> for CompressConfig {
    fn from(config: &Config) -> (r: Self) {
        CompressConfig {
            max_output_ratio: config.max_output_ratio,
            min_bytes: config.min_bytes,
            max_input_bytes: config.max_input_bytes,
            key_folding: config.key_folding,
            delimiter: config.delimiter,
            tabular_min_rows: config.tabular_min_rows,
            fold_min_depth: config.fold_min_depth,
            primitive_array_min: config.primitive_array_min,
            csv_numeric_coercion: config.csv_numeric_coercion,
        }
    }
}

impl vstd::std_specs::convert::FromSpecImpl<&Config> for CompressConfig {
    open spec fn obeys_from_spec() -> bool {
        true
    }

    open spec fn from_spec(config: &Config) -> Self {
        compress_config_of(*config)
    }
}

} // verus!
