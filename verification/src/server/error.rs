//! Errors of the server.

use vstd::prelude::*;
use crate::logging::error::LogError;

verus! {

/// Errors that can occur at the server level.
#[derive(Debug)]
pub enum ServerError {
    /// The logging sink failed to initialise.
    LoggingInit(LogError),
    /// The MCP service failed to initialise.
    McpService(String),
    /// An environment variable has an invalid value.
    InvalidConfig {
        /// The variable.
        var: &'static str,
        /// The value that was rejected.
        value: String,
        /// Why it was rejected.
        reason: &'static str,
    },
}

/// A variable that was rejected, with its value and the reason.
pub struct Rejection {
    pub var: Seq<char>,
    pub value: Seq<char>,
    pub reason: Seq<char>,
}

/// The rejection that an error reports, if it reports one.
pub open spec fn rejection_of(e: ServerError) -> Option<Rejection> {
    match e {
        ServerError::InvalidConfig { var, value, reason } => Some(
            Rejection { var: var@, value: value@, reason: reason@ },
        ),
        _ => None,
    }
}

} // verus!
