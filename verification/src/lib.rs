//! Core library of a command-line agentic assistant: JSON-RPC message
//! framing and correlation for MCP tool servers, tool-call detection in
//! model output, registry and orchestration decisions, and token-budget
//! context truncation.

pub mod config;
pub mod detect;
pub mod fileout;
pub mod intent;
pub mod json;
pub mod orchestrator;
pub mod paths;
pub mod prompt;
pub mod protocol;
pub mod registry;
pub mod session;
pub mod template;
pub mod text;
pub mod tokens;
