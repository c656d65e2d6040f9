//! Core logic of a model-driven agent: directive parsing, tool-call framing,
//! and the transport state machine around an external tool server.
//!
//! The crate decides; its callers perform. Model queries, the tool-server
//! subprocess and file writes live outside, hand the library plain values,
//! and take plain values back.

pub mod agent;
pub mod errors;
pub mod haiku;
pub mod json;
pub mod mcp_client;
pub mod model_client;
pub mod parser;
pub mod text;

pub use agent::Agent;
pub use model_client::{LocalOllamaClient, ModelClient, ModelResponse};
