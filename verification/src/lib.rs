//! Detection, parsing, classification and TOON compression of structured text,
//! with the event log and the MCP tool logic built on top of it.
#![allow(unused_imports)]

pub mod bindings;
pub mod classifier;
pub mod compressor;
pub mod detector;
pub mod error;
pub mod evals;
pub mod fidelity;
pub mod laws;
pub mod logging;
pub mod number;
pub mod parser;
pub mod ratio;
pub mod sequence;
pub mod server;
pub mod text;
pub mod value;
