//! Governance primitives: key derivation paths, PSBT, nested multisig.

pub mod error;
pub mod bip44;
pub mod psbt_map;
pub mod psbt_wire;
pub mod psbt;
pub mod bip32;
pub mod signatures;
pub mod nested_multisig;
