//! Core logic of an interactive shell assistant: a command-risk classifier,
//! a fenced-block parser for AI output, the framing protocol of a persistent
//! shell session, an operator confirmation gate, and the queue discipline of
//! the conversation orchestrator.

pub mod ack;
pub mod ai;
pub mod cmd_parse;
pub mod model;
pub mod pwsh;
pub mod text;
