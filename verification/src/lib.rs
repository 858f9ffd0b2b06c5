//! Library for turning an MSBuild text log into a compilation database.
//!
//! The crate holds the algorithmic core: the command-line tokenizer, the
//! log-scanning state machine, the file-name index with conflict detection,
//! the path resolver that assembles compilation database records, and the
//! sequential pipeline that ties the stages together.

pub mod compile_commands;
pub mod config;
pub mod error;
pub mod index;
pub mod json;
pub mod laws;
pub mod log_scan;
pub mod parser;
pub mod paths;
pub mod pipeline;
pub mod resolve;
pub mod text;

pub use compile_commands::CompileCommand;
pub use config::Config;
pub use error::Ms2ccError;
pub use index::FileIndex;
pub use json::deserialize;
pub use json::serialize;
pub use index::IndexedPath;
