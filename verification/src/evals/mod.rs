//! The evaluation harness: corpus generation, pipeline measurements,
//! comprehension questions and the report's figures.

pub mod cli;
pub mod comprehension;
pub mod corpus;
pub mod generate;
pub mod pipeline;
pub mod report;
pub mod toonkit;
