//! A coding-agent harness: conversation state, streaming assembly of model
//! replies, plan tracking and the text processing behind each tool.

pub mod text;
pub mod types;
pub mod agent;
pub mod client;
pub mod plan;
pub mod subagents;
pub mod tools;
pub mod spinner;
