//! The report on the configuration: its layers, what is required of it, and
//! what the latest turn ran with.

pub mod layers;
pub mod lines;
pub mod requirements;
pub mod toml_node;
pub mod turn_context;
