//! One language server per language, kept alive between questions.
//!
//! This is what the daemon and its client decide; sockets, processes and files are of
//! the program around it.

pub mod census;
pub mod cli;
pub mod client;
pub mod documents;
pub mod ipc;
pub mod json;
pub mod language;
pub mod lsp_client;
pub mod lsp_manager;
pub mod path;
pub mod seqs;
pub mod text;
pub mod text_map;
pub mod transport;
pub mod types;
pub mod url;
pub mod wait;
