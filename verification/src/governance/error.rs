use vstd::prelude::*;

verus! {

/// Errors raised by governance operations.
#[derive(Debug, Clone)]
pub enum GovernanceError {
    InvalidKey(String),
    SignatureVerification(String),
    InvalidMultisig(String),
    MessageFormat(String),
    Cryptographic(String),
    Serialization(String),
    InvalidThreshold { threshold: usize, total: usize },
    InsufficientSignatures { got: usize, need: usize },
    InvalidSignatureFormat(String),
    InvalidInput(String),
}

/// Whether an error is `InvalidInput` with message `m`.
pub open spec fn is_input_error(e: GovernanceError, m: Seq<char>) -> bool {
    e matches GovernanceError::InvalidInput(msg) && msg@ == m
}

/// Whether an error is `InvalidKey` with message `m`.
pub open spec fn is_key_error(e: GovernanceError, m: Seq<char>) -> bool {
    e matches GovernanceError::InvalidKey(msg) && msg@ == m
}

/// Result type of governance operations.
pub type GovernanceResult<T> = Result<T, GovernanceError>;

} // verus!
