//! The `shellist` command: reading its options and running its pipeline.
pub mod args;

pub use args::{Args, ParsedArgs, parse_args};
pub mod help;
pub mod pipeline;
pub mod run;
