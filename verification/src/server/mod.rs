//! The MCP server's logic: configuration, request handling and supervision.

pub mod config;
pub mod error;
pub mod handler;
pub mod identity;
pub mod metrics;
pub mod supervisor;
