//! Governance primitives and a composition framework for Bitcoin nodes:
//! BIP32/BIP44 key derivation, PSBT maps and their wire format, nested
//! multisig approval counting, module registry queries and module
//! development helpers.

pub mod text;
pub mod governance;
pub mod composition;
pub mod codegen;
pub mod module;
