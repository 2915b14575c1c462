//! Helpers of the module code generators: names derived from Rust
//! identifiers, the payload fields of each event type, what the module
//! macros decide from a handler impl block, and the environment overrides
//! of module configurations.

pub mod naming;
pub mod event_payload_map;
pub mod module_plan;
pub mod config_env;
