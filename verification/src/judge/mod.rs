//! Two-rail grading: deterministic checks, a panel of judges, and what the two decide.

pub mod cache;
pub mod calibration;
pub mod checks;
pub mod consensus;
pub mod decision;
pub mod error;
pub mod grader;
pub mod panel;
