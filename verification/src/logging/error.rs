//! Errors of logging operations.

use vstd::prelude::*;

verus! {

/// Errors that can occur during logging operations.
#[derive(Debug)]
pub enum LogError {
    /// A filesystem error occurred while writing a partition file.
    IoError(String),
    /// An event could not be handed to the writer because the channel is closed.
    ChannelSend(String),
    /// The writer did not acknowledge a shutdown.
    ShutdownAck(String),
}

/// The sentence that describes a logging error.
pub open spec fn log_error_message(e: LogError) -> Seq<char> {
    match e {
        LogError::IoError(m) => "log I/O error: "@ + m@,
        LogError::ChannelSend(m) => "log channel send failed: "@ + m@,
        LogError::ShutdownAck(m) => "shutdown acknowledgement not received: "@ + m@,
    }
}

impl LogError {
    /// A sentence that describes the error.
    pub fn message(&self) -> (r: String)
        ensures
            r@ == log_error_message(*self),
    {
        match self {
            LogError::IoError(m) => "log I/O error: ".to_owned().concat(m.as_str()),
            LogError::ChannelSend(m) => "log channel send failed: ".to_owned().concat(m.as_str()),
            LogError::ShutdownAck(m) => "shutdown acknowledgement not received: ".to_owned().concat(
                m.as_str(),
            ),
        }
    }
}

} // verus!
