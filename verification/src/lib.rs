//! Rudd - Rust Directory Delta
//!
//! A library for comparing directories and identifying file differences:
//! which relative paths occur only in one directory, which occur in both, and
//! which occur in both with different content checksums.

pub mod cli;
pub mod diff;
pub mod diff_laws;
pub mod display;
pub mod display_laws;
pub mod error;
pub mod file_map;
pub mod path;
pub mod scanner;
pub mod text;

pub use diff::{diff_directories, DirectoryDiff};
pub use display::{render_diff, DisplayOptions};
pub use error::{Result, RuddError};
pub use file_map::FileMap;
pub use scanner::FileEntry;
