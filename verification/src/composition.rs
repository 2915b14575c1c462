//! Composition framework: module records, the module registry, node
//! specifications and their validation.

pub mod types;
pub mod conversion;
pub mod config;
pub mod load_order;
pub mod registry;
pub mod validation;
pub mod lifecycle;
