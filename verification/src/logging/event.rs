//! The record of one tool invocation.

use vstd::prelude::*;
use crate::ratio::Ratio;

verus! {

/// A structured record of a single tool invocation.
///
/// The saved fraction of a compressed invocation is
/// `1 - output_bytes / input_bytes`; otherwise nothing is saved.
#[derive(Debug)]
pub struct LogEvent {
    /// 16-character lowercase hexadecimal identifier.
    pub event_id: String,
    /// Unix timestamp in microseconds when the call was received.
    pub ts_us: i64,
    /// Name of the tool that was invoked.
    pub tool_name: String,
    /// Detected input format.
    pub input_format: String,
    /// Shape of the parsed value.
    pub shape_class: String,
    /// Byte length of the input.
    pub input_bytes: u64,
    /// Byte length of the output; equals `input_bytes` when not compressed.
    pub output_bytes: u64,
    /// Whether TOON encoding was applied and its output returned.
    pub compressed: bool,
    /// The compression ratio that was configured during the invocation.
    pub threshold_used: Ratio,
    /// Wall-clock duration in microseconds.
    pub duration_us: u64,
    /// How the invocation ended: `"ok"`, `"rejected"`, `"timeout"`, `"busy"` or
    /// `"failed"`.
    pub outcome: String,
    /// Pass-through reason when `compressed` is false.
    pub pass_reason: Option<String>,
    /// Client identifier from the configuration.
    pub client_hint: Option<String>,
}

/// The outcome of rows that were written before outcomes were recorded.
pub fn default_outcome() -> (r: String)
    ensures
        r@ == "ok"@,
{
    "ok".to_owned()
}

} // verus!
