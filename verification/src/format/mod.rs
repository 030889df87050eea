//! Rendering conversations for training, and reading providers' messages.
//!
//! A stored message is clean: its text holds no channel markup, and its chain of thought stands
//! beside it. The renderers write the markup of a target; reading a provider's message takes the
//! markup out again, so that what was rendered for a token-stream target can be read back.

pub mod error;
pub mod ingest;
pub mod projection;
pub mod render;
pub mod round_trip;
pub mod tool_links;
pub mod validate;
