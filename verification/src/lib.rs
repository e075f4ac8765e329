//! TurboSearch: file-name and file-content search over an in-memory index.

pub mod text;
pub mod matchers;
pub mod timeval;
pub mod index;
pub mod search;
pub mod history;
pub mod utils;
pub mod gui;
pub mod error;
pub mod config;
pub mod cli;
pub mod cli_search;
pub mod file_watcher;
pub mod incremental_index;
pub mod mft_reader;
pub mod stored_index;
