//! Turns a decoded block structure into a list of score-guarded block tests:
//! one command that arms a score, then one command per block that clears the
//! score when the block in the world differs.
pub mod config;
pub mod structure;
pub mod tag;
pub mod text;

pub use config::{Config, Mode};
pub use structure::{CompileError, Structure};
