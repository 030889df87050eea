//! Producing training records: gating user turns, calling teachers, assembling what they answer.

pub mod assemble;
pub mod assistant;
pub mod error;
pub mod request;
pub mod sibling;
pub mod spend;
pub mod teacher;
pub mod user_synth;
