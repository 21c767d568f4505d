//! Structured event logging: one record per tool invocation, buffered and
//! appended as JSON lines to one file per UTC day.

pub mod calendar;
pub mod error;
pub mod event;
pub mod jsonl_sink;
pub mod memory_sink;
pub mod noop_sink;
pub mod sink;
