//! Tools for working on code: editing files, asking language servers, running
//! project checks, and the rules and reports around them.

use vstd::prelude::*;

pub mod apply_patch;
pub mod debug_config;
pub mod debug_runtime;
pub mod edit;
pub mod errors;
pub mod file_change;
pub mod file_watcher;
pub mod instructions;
pub mod json;
pub mod json_text;
pub mod lsp;
pub mod modes;
pub mod moments;
pub mod paths;
pub mod project_checks;
pub mod runtime_context;
pub mod text;
pub mod text_map;
pub mod text_order;
pub mod tool_policy;

verus! {

} // verus!
