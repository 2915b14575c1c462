//! Core types of the module registry and of node composition.

use vstd::prelude::*;

use std::collections::HashMap;

use crate::text::concat_str;

verus! {

/// `std::io::Error`, carried by the I/O error of composition.
#[verifier::external_type_specification]
#[verifier::external_body]
pub struct ExIoError(std::io::Error);

/// `serde_json::Value`, carried in module configurations.
#[verifier::external_type_specification]
#[verifier::external_body]
pub struct ExJsonValue(serde_json::Value);

/// The text of an I/O error (`Display` of `std::io::Error`).
#[verifier::external_body]
fn io_error_text(e: &std::io::Error) -> String {
    e.to_string()
}

/// Module information from registry.
#[derive(Debug, PartialEq, Eq)]
pub struct ModuleInfo {
    /// Module name (unique identifier)
    pub name: String,
    /// Module version (semantic versioning)
    pub version: String,
    /// Human-readable description
    pub description: Option<String>,
    /// Module author
    pub author: Option<String>,
    /// Capabilities this module declares it can use
    pub capabilities: Vec<String>,
    /// Required dependencies (module names with versions)
    pub dependencies: HashMap<String, String>,
    /// Module entry point (binary name or path)
    pub entry_point: String,
    /// Path to module directory
    pub directory: Option<String>,
    /// Path to module binary
    pub binary_path: Option<String>,
    /// Module configuration schema (optional)
    pub config_schema: HashMap<String, String>,
}

/// Two module records hold the same values.
pub open spec fn same_module(a: ModuleInfo, b: ModuleInfo) -> bool {
    &&& a.name == b.name
    &&& a.version == b.version
    &&& a.description == b.description
    &&& a.author == b.author
    &&& a.capabilities@ == b.capabilities@
    &&& a.dependencies@ == b.dependencies@
    &&& a.entry_point == b.entry_point
    &&& a.directory == b.directory
    &&& a.binary_path == b.binary_path
    &&& a.config_schema@ == b.config_schema@
}

/// Two lists of module records hold the same values in the same order.
pub open spec fn same_modules(a: Seq<ModuleInfo>, b: Seq<ModuleInfo>) -> bool {
    a.len() == b.len() && forall|i: int| 0 <= i < a.len() ==> same_module(#[trigger] a[i], b[i])
}

/// A copy of an optional string.
fn copy_opt(s: &Option<String>) -> (r: Option<String>)
    ensures
        r == *s,
{
    match s {
        Some(x) => Some(x.clone()),
        None => None,
    }
}

/// A copy of a list of strings.
pub fn copy_strings(v: &Vec<String>) -> (r: Vec<String>)
    ensures
        r@ == v@,
{
    let mut r: Vec<String> = Vec::new();
    let mut i: usize = 0;
    while i < v.len()
        invariant
            i <= v@.len(),
            r@ == v@.take(i as int),
        decreases v@.len() - i,
    {
        r.push(v[i].clone());
        i = i + 1;
        assert(r@ =~= v@.take(i as int));
    }
    assert(v@.take(i as int) =~= v@);
    r
}

impl Clone for ModuleInfo {
    fn clone(&self) -> (r: Self)
        ensures
            same_module(r, *self),
    {
        ModuleInfo {
            name: self.name.clone(),
            version: self.version.clone(),
            description: copy_opt(&self.description),
            author: copy_opt(&self.author),
            capabilities: copy_strings(&self.capabilities),
            dependencies: self.dependencies.clone(),
            entry_point: self.entry_point.clone(),
            directory: copy_opt(&self.directory),
            binary_path: copy_opt(&self.binary_path),
            config_schema: self.config_schema.clone(),
        }
    }
}

/// A copy of a list of module records.
pub fn copy_modules(v: &Vec<ModuleInfo>) -> (r: Vec<ModuleInfo>)
    ensures
        same_modules(r@, v@),
{
    let mut r: Vec<ModuleInfo> = Vec::new();
    let mut i: usize = 0;
    while i < v.len()
        invariant
            i <= v@.len(),
            r@.len() == i,
            forall|j: int| 0 <= j < i ==> same_module(#[trigger] r@[j], v@[j]),
        decreases v@.len() - i,
    {
        r.push(v[i].clone());
        i = i + 1;
    }
    r
}

/// Module source for installation.
#[derive(Debug, Clone)]
pub enum ModuleSource {
    /// Install from local path
    Path(String),
    /// Install from remote registry (URL, optional module name to select from index)
    Registry { url: String, name: Option<String> },
    /// Install from git repository
    Git { url: String, tag: Option<String> },
}

/// Module lifecycle status.
#[derive(Debug, Clone, PartialEq, Eq)]
pub enum ModuleStatus {
    /// Module is not installed
    NotInstalled,
    /// Module is installed but not running
    Stopped,
    /// Module is initializing
    Initializing,
    /// Module is running normally
    Running,
    /// Module is stopping
    Stopping,
    /// Module has crashed or errored
    Error(String),
}

/// Module health status.
#[derive(Debug, Clone, PartialEq, Eq)]
pub enum ModuleHealth {
    /// Module is healthy and responding
    Healthy,
    /// Module is degraded but functioning
    Degraded,
    /// Module is unhealthy or not responding
    Unhealthy(String),
    /// Health status unknown
    Unknown,
}

/// Network type for node composition.
#[derive(Debug, Clone, Copy, PartialEq, Eq, Structural)]
pub enum NetworkType {
    /// Bitcoin mainnet
    Mainnet,
    /// Bitcoin testnet
    Testnet,
    /// Regression test network
    Regtest,
}

/// Node specification for composition.
#[derive(Debug, Clone)]
pub struct NodeSpec {
    /// Node name
    pub name: String,
    /// Node version
    pub version: Option<String>,
    /// Network type
    pub network: NetworkType,
    /// Modules to include
    pub modules: Vec<ModuleSpec>,
}

/// Module specification in node composition.
#[derive(Debug, Clone)]
pub struct ModuleSpec {
    /// Module name
    pub name: String,
    /// Module version (optional, uses latest if not specified)
    pub version: Option<String>,
    /// Whether module is enabled
    pub enabled: bool,
    /// Module-specific configuration
    pub config: HashMap<String, serde_json::Value>,
}

/// Loaded module information.
#[derive(Debug, Clone)]
pub struct LoadedModule {
    /// Module information
    pub info: ModuleInfo,
    /// Module status
    pub status: ModuleStatus,
    /// Module health
    pub health: ModuleHealth,
}

/// Composed node result.
#[derive(Debug, Clone)]
pub struct ComposedNode {
    /// Node specification
    pub spec: NodeSpec,
    /// Loaded modules
    pub modules: Vec<LoadedModule>,
    /// Overall node status
    pub status: NodeStatus,
}

/// Node status.
#[derive(Debug, Clone, PartialEq, Eq)]
pub enum NodeStatus {
    /// Node is stopped
    Stopped,
    /// Node is starting up
    Starting,
    /// Node is running
    Running,
    /// Node is stopping
    Stopping,
    /// Node has errors
    Error(String),
}

/// Composition validation result.
#[derive(Debug, Clone)]
pub struct ValidationResult {
    /// Whether composition is valid
    pub valid: bool,
    /// Validation errors
    pub errors: Vec<String>,
    /// Validation warnings
    pub warnings: Vec<String>,
    /// Resolved dependencies
    pub dependencies: Vec<ModuleInfo>,
}

/// Composition errors.
#[derive(Debug)]
pub enum CompositionError {
    ModuleNotFound(String),
    ModuleVersionNotFound(String, String),
    DependencyResolutionFailed(String),
    InstallationFailed(String),
    InvalidConfiguration(String),
    ValidationFailed(String),
    IoError(std::io::Error),
    SerializationError(String),
}

/// Result of composition operations.
pub type CompositionResult<T> = Result<T, CompositionError>;

/// The text of a composition error; of an I/O error only its prefix is
/// fixed here, the rest is the I/O error's own text.
pub open spec fn error_text(e: CompositionError) -> Seq<char> {
    match e {
        CompositionError::ModuleNotFound(m) => "Module not found: "@ + m@,
        CompositionError::ModuleVersionNotFound(m, v) => "Module version not found: "@ + m@ + " "@ + v@,
        CompositionError::DependencyResolutionFailed(m) => "Dependency resolution failed: "@ + m@,
        CompositionError::InstallationFailed(m) => "Module installation failed: "@ + m@,
        CompositionError::InvalidConfiguration(m) => "Invalid configuration: "@ + m@,
        CompositionError::ValidationFailed(m) => "Composition validation failed: "@ + m@,
        CompositionError::IoError(_) => "IO error: "@,
        CompositionError::SerializationError(m) => "Serialization error: "@ + m@,
    }
}

impl CompositionError {
    /// The text of the error.
    pub fn to_text(&self) -> (r: String)
        ensures
            !(*self is IoError) ==> r@ == error_text(*self),
            *self is IoError ==> r@.take(10) == error_text(*self),
    {
        match self {
            CompositionError::ModuleNotFound(m) => concat_str("Module not found: ", m.as_str()),
            CompositionError::ModuleVersionNotFound(m, v) => {
                let a = concat_str("Module version not found: ", m.as_str());
                let b = concat_str(a.as_str(), " ");
                concat_str(b.as_str(), v.as_str())
            },
            CompositionError::DependencyResolutionFailed(m) => concat_str(
                "Dependency resolution failed: ",
                m.as_str(),
            ),
            CompositionError::InstallationFailed(m) => concat_str(
                "Module installation failed: ",
                m.as_str(),
            ),
            CompositionError::InvalidConfiguration(m) => concat_str(
                "Invalid configuration: ",
                m.as_str(),
            ),
            CompositionError::ValidationFailed(m) => concat_str(
                "Composition validation failed: ",
                m.as_str(),
            ),
            CompositionError::IoError(e) => {
                let t = io_error_text(e);
                let r = concat_str("IO error: ", t.as_str());
                proof {
                    reveal_strlit("IO error: ");
                    assert(r@.take(10) =~= "IO error: "@);
                }
                r
            },
            CompositionError::SerializationError(m) => concat_str(
                "Serialization error: ",
                m.as_str(),
            ),
        }
    }
}

} // verus!
