//! Conversions between the node's module errors and states and the
//! composition types.

use vstd::prelude::*;

use crate::composition::types::{CompositionError, ModuleStatus};
use crate::text::{concat_str, string_of};

verus! {

/// The errors that the node reports for its modules.
#[derive(Debug, Clone, PartialEq, Eq)]
pub enum NodeModuleError {
    /// IPC communication error
    IpcError(String),
    /// Module initialization failed
    InitializationError(String),
    /// Module operation failed
    OperationError(String),
    /// Permission denied
    PermissionDenied(String),
    /// Module not found
    ModuleNotFound(String),
    /// Module dependency missing
    DependencyMissing(String),
    /// Invalid module manifest
    InvalidManifest(String),
    /// Module version incompatible
    VersionIncompatible(String),
    /// Module crashed
    ModuleCrashed(String),
    /// Serialization error
    SerializationError(String),
    /// Rate limit exceeded
    RateLimitExceeded(String),
    /// Timeout waiting for module response
    Timeout,
    /// Resource limit exceeded
    ResourceLimitExceeded(String),
    /// Cryptographic error
    CryptoError(String),
    /// Config error
    Config(String),
    /// RPC error
    Rpc(String),
    /// Migration error
    Migration(String),
    /// CLI error
    Cli(String),
    /// Any other error
    Other(String),
}

/// The states that the node reports for its modules.
#[derive(Debug, Clone, PartialEq, Eq)]
pub enum NodeModuleState {
    /// Module is stopped/not running
    Stopped,
    /// Module is initializing
    Initializing,
    /// Module is running normally
    Running,
    /// Module is stopping
    Stopping,
    /// Module has crashed or errored
    Error(String),
}

/// How a module error of the node reads as a composition error: a missing
/// module stays a missing module, a missing dependency a failed
/// resolution, a bad manifest or config an invalid configuration, a
/// serialization error a serialization error, a timeout and everything
/// else a failed installation, most with a prefix naming the cause.
pub open spec fn error_converts(e: NodeModuleError, c: CompositionError) -> bool {
    match e {
        NodeModuleError::IpcError(m) => c matches CompositionError::InstallationFailed(x) && x@ == "IPC error: "@ + m@,
        NodeModuleError::InitializationError(m) => c matches CompositionError::InstallationFailed(x) && x@ == "Initialization error: "@ + m@,
        NodeModuleError::OperationError(m) => c matches CompositionError::InstallationFailed(x) && x@ == m@,
        NodeModuleError::PermissionDenied(m) => c matches CompositionError::InstallationFailed(x) && x@ == "Permission denied: "@ + m@,
        NodeModuleError::ModuleNotFound(m) => c matches CompositionError::ModuleNotFound(x) && x@ == m@,
        NodeModuleError::DependencyMissing(m) => c matches CompositionError::DependencyResolutionFailed(x) && x@ == m@,
        NodeModuleError::InvalidManifest(m) => c matches CompositionError::InvalidConfiguration(x) && x@ == m@,
        NodeModuleError::VersionIncompatible(m) => c matches CompositionError::InstallationFailed(x) && x@ == "Version incompatible: "@ + m@,
        NodeModuleError::ModuleCrashed(m) => c matches CompositionError::InstallationFailed(x) && x@ == "Module crashed: "@ + m@,
        NodeModuleError::SerializationError(m) => c matches CompositionError::SerializationError(x) && x@ == m@,
        NodeModuleError::RateLimitExceeded(m) => c matches CompositionError::InstallationFailed(x) && x@ == "Rate limit exceeded: "@ + m@,
        NodeModuleError::Timeout => c matches CompositionError::InstallationFailed(x) && x@
            == "Timeout waiting for module response"@,
        NodeModuleError::ResourceLimitExceeded(m) => c matches CompositionError::InstallationFailed(x) && x@ == "Resource limit exceeded: "@ + m@,
        NodeModuleError::CryptoError(m) => c matches CompositionError::InstallationFailed(x) && x@ == "Crypto error: "@ + m@,
        NodeModuleError::Config(m) => c matches CompositionError::InvalidConfiguration(x) && x@ == m@,
        NodeModuleError::Rpc(m) => c matches CompositionError::InstallationFailed(x) && x@ == "RPC error: "@ + m@,
        NodeModuleError::Migration(m) => c matches CompositionError::InstallationFailed(x) && x@ == "Migration error: "@ + m@,
        NodeModuleError::Cli(m) => c matches CompositionError::InstallationFailed(x) && x@ == "CLI error: "@ + m@,
        NodeModuleError::Other(m) => c matches CompositionError::InstallationFailed(x) && x@ == m@,
    }
}

/// The module status of a node module state.
pub open spec fn status_of_state(s: NodeModuleState, st: ModuleStatus) -> bool {
    match s {
        NodeModuleState::Running => st matches ModuleStatus::Running,
        NodeModuleState::Stopped => st matches ModuleStatus::Stopped,
        NodeModuleState::Initializing => st matches ModuleStatus::Initializing,
        NodeModuleState::Stopping => st matches ModuleStatus::Stopping,
        NodeModuleState::Error(m) => st matches ModuleStatus::Error(x) && x@ == m@,
    }
}

impl CompositionError {
    /// The composition error for a module error of the node.
    pub fn from_module_error(err: NodeModuleError) -> (r: CompositionError)
        ensures
            error_converts(err, r),
    {
        match err {
            NodeModuleError::IpcError(msg) => CompositionError::InstallationFailed(
                concat_str("IPC error: ", msg.as_str()),
            ),
            NodeModuleError::InitializationError(msg) => CompositionError::InstallationFailed(
                concat_str("Initialization error: ", msg.as_str()),
            ),
            NodeModuleError::OperationError(msg) => CompositionError::InstallationFailed(msg),
            NodeModuleError::PermissionDenied(msg) => CompositionError::InstallationFailed(
                concat_str("Permission denied: ", msg.as_str()),
            ),
            NodeModuleError::ModuleNotFound(msg) => CompositionError::ModuleNotFound(msg),
            NodeModuleError::DependencyMissing(msg) => CompositionError::DependencyResolutionFailed(msg),
            NodeModuleError::InvalidManifest(msg) => CompositionError::InvalidConfiguration(msg),
            NodeModuleError::VersionIncompatible(msg) => CompositionError::InstallationFailed(
                concat_str("Version incompatible: ", msg.as_str()),
            ),
            NodeModuleError::ModuleCrashed(msg) => CompositionError::InstallationFailed(
                concat_str("Module crashed: ", msg.as_str()),
            ),
            NodeModuleError::SerializationError(msg) => CompositionError::SerializationError(msg),
            NodeModuleError::RateLimitExceeded(msg) => CompositionError::InstallationFailed(
                concat_str("Rate limit exceeded: ", msg.as_str()),
            ),
            NodeModuleError::Timeout => CompositionError::InstallationFailed(
                string_of("Timeout waiting for module response"),
            ),
            NodeModuleError::ResourceLimitExceeded(msg) => CompositionError::InstallationFailed(
                concat_str("Resource limit exceeded: ", msg.as_str()),
            ),
            NodeModuleError::CryptoError(msg) => CompositionError::InstallationFailed(
                concat_str("Crypto error: ", msg.as_str()),
            ),
            NodeModuleError::Config(msg) => CompositionError::InvalidConfiguration(msg),
            NodeModuleError::Rpc(msg) => CompositionError::InstallationFailed(
                concat_str("RPC error: ", msg.as_str()),
            ),
            NodeModuleError::Migration(msg) => CompositionError::InstallationFailed(
                concat_str("Migration error: ", msg.as_str()),
            ),
            NodeModuleError::Cli(msg) => CompositionError::InstallationFailed(
                concat_str("CLI error: ", msg.as_str()),
            ),
            NodeModuleError::Other(msg) => CompositionError::InstallationFailed(msg),
        }
    }
}

/// The module status for a module state of the node.
pub fn module_state_to_status(s: NodeModuleState) -> (r: ModuleStatus)
    ensures
        status_of_state(s, r),
{
    match s {
        NodeModuleState::Running => ModuleStatus::Running,
        NodeModuleState::Stopped => ModuleStatus::Stopped,
        NodeModuleState::Initializing => ModuleStatus::Initializing,
        NodeModuleState::Stopping => ModuleStatus::Stopping,
        NodeModuleState::Error(msg) => ModuleStatus::Error(msg),
    }
}

} // verus!
