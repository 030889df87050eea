//! Talking to OpenAI-compatible model endpoints.

pub mod client;
pub mod delta;
pub mod delta_wire;
pub mod embeddings;
pub mod error;
pub mod limiter;
pub mod request;
pub mod retry;
pub mod sse;
