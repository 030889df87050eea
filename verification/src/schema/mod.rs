//! The persisted vocabulary: conversations, verification, judging and the training record.

pub mod judging;
pub mod message;
pub mod record;
pub mod verification;
