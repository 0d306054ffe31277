//! Where history files are found.
pub mod file_loader;

pub use file_loader::{default_history_path, default_history_path_for};
