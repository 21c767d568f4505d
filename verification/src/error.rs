//! Errors of detection, parsing and encoding.

use vstd::prelude::*;
use crate::detector::InputFormat;
use crate::number::{count_text, decimal};

verus! {

/// Errors that can occur in the detection, parsing and compression pipeline.
#[derive(Debug)]
pub enum CoreError {
    /// A line of a JSONL input failed to parse as JSON, or no parser exists for
    /// the format.
    ParseFailed {
        /// The input format that triggered the failure.
        format: InputFormat,
        /// One-based physical line of the failure; zero where no line applies.
        line: usize,
        /// Human-readable description of the parse error.
        detail: String,
    },
    /// A JSON document could not be parsed.
    JsonError(String),
    /// A CSV or TSV record could not be read.
    CsvError(String),
    /// The TOON codec returned an error.
    ToonError(String),
    /// A JSON object names the same key more than once.
    DuplicateKey {
        /// The repeated key.
        key: String,
    },
    /// A CSV or TSV header names the same column more than once.
    DuplicateHeader {
        /// The repeated column name.
        header: String,
    },
}

/// Mathematical model of a [`CoreError`].
pub enum Fault {
    ParseFailed { format: InputFormat, line: nat, detail: Seq<char> },
    JsonError(Seq<char>),
    CsvError(Seq<char>),
    ToonError(Seq<char>),
    DuplicateKey { key: Seq<char> },
    DuplicateHeader { header: Seq<char> },
}

impl View for CoreError {
    type V = Fault;

    open spec fn view(&self) -> Fault {
        match self {
            CoreError::ParseFailed { format, line, detail } => Fault::ParseFailed {
                format: *format,
                line: *line as nat,
                detail: detail@,
            },
            CoreError::JsonError(m) => Fault::JsonError(m@),
            CoreError::CsvError(m) => Fault::CsvError(m@),
            CoreError::ToonError(m) => Fault::ToonError(m@),
            CoreError::DuplicateKey { key } => Fault::DuplicateKey { key: key@ },
            CoreError::DuplicateHeader { header } => Fault::DuplicateHeader { header: header@ },
        }
    }
}

/// The sentence that describes a fault.
pub open spec fn fault_message(fault: Fault) -> Seq<char> {
    match fault {
        Fault::ParseFailed { format, line, detail } => "JSONL parse failed at line "@ + decimal(line)
            + ": "@ + detail,
        Fault::JsonError(m) => "JSON parse error: "@ + m,
        Fault::CsvError(m) => "CSV parse error: "@ + m,
        Fault::ToonError(m) => "TOON encode error: "@ + m,
        Fault::DuplicateKey { key } => "duplicate object key: "@ + key,
        Fault::DuplicateHeader { header } => "duplicate header: "@ + header,
    }
}

impl CoreError {
    /// A sentence that describes the error.
    pub fn message(&self) -> (r: String)
        ensures
            r@ == fault_message(self@),
    {
        match self {
            CoreError::ParseFailed { format: _, line, detail } => {
                "JSONL parse failed at line ".to_owned().concat(
                    count_text(*line).as_str(),
                ).concat(": ").concat(detail.as_str())
            },
            CoreError::JsonError(m) => "JSON parse error: ".to_owned().concat(m.as_str()),
            CoreError::CsvError(m) => "CSV parse error: ".to_owned().concat(m.as_str()),
            CoreError::ToonError(m) => "TOON encode error: ".to_owned().concat(m.as_str()),
            CoreError::DuplicateKey { key } => "duplicate object key: ".to_owned().concat(
                key.as_str(),
            ),
            CoreError::DuplicateHeader { header } => "duplicate header: ".to_owned().concat(
                header.as_str(),
            ),
        }
    }
}

} // verus!
