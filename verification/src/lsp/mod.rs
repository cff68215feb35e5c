//! Talking to language servers: what to ask, how to frame it and what to make
//! of the answers.

pub mod actions;
pub mod documents;
pub mod file_operations;
pub mod output;
pub mod progress;
pub mod providers;
pub mod requests;
pub mod sessions;
pub mod settings;
pub mod symbols;
pub mod text_edits;
pub mod transport;
pub mod uri;
pub mod workspace_edit;
