//! Generation, canonical storage and graded admission of chain-of-thought training traces.

pub mod arithmetic;
pub mod double;
pub mod format;
pub mod generate;
pub mod json;
pub mod judge;
pub mod providers;
pub mod schema;
pub mod text;
pub mod typed;
pub mod wire;
