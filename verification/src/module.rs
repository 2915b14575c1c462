//! Module development helpers: command-line arguments of module commands,
//! bootstrap parameters, migration planning, the run loop's decisions,
//! storage batches, and the host side of WASM modules.

pub mod bootstrap;
pub mod cli_args;
pub mod handles;
pub mod migrations;
pub mod run_loop;
pub mod storage;
pub mod wasm_host;
pub mod wasm_results;
