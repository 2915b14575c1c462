use blvm_sdk::composition::config::{parse_network, ModuleConfig, NodeConfig, NodeMetadata};
use blvm_sdk::composition::conversion::{module_state_to_status, NodeModuleError, NodeModuleState};
use blvm_sdk::composition::lifecycle::{health_for_status, ModuleLifecycle};
use blvm_sdk::composition::registry::{
    classify_module_source, registry_download_url, select_registry_module, ModuleRegistry,
    ModuleSourceFile, RegistryEntry,
};
use blvm_sdk::composition::types::{
    CompositionError, ModuleHealth, ModuleInfo, ModuleSource, ModuleSpec, ModuleStatus,
    NetworkType, NodeSpec, NodeStatus, ValidationResult,
};
use blvm_sdk::composition::validation::validate_composition;
use std::collections::HashMap;
use tempfile::TempDir;

fn create_temp_modules_dir() -> TempDir {
    tempfile::tempdir().unwrap()
}

fn dir_text(d: &TempDir) -> &str {
    d.path().to_str().unwrap()
}

fn module(name: &str, version: &str, directory: Option<&str>) -> ModuleInfo {
    ModuleInfo {
        name: name.to_string(),
        version: version.to_string(),
        description: None,
        author: None,
        capabilities: vec![],
        dependencies: HashMap::new(),
        entry_point: name.to_string(),
        directory: directory.map(|d| d.to_string()),
        binary_path: None,
        config_schema: HashMap::new(),
    }
}

#[test]
fn test_module_registry_creation() {
    let temp_dir = create_temp_modules_dir();
    let registry = ModuleRegistry::new(dir_text(&temp_dir));
    assert_eq!(registry.modules_dir(), dir_text(&temp_dir));
    assert!(temp_dir.path().exists());
}

#[test]
fn test_module_registry_get_module_not_found() {
    let temp_dir = create_temp_modules_dir();
    let registry = ModuleRegistry::new(dir_text(&temp_dir));

    let result = registry.get_module("nonexistent", None);
    assert!(result.is_err());
}

#[test]
fn test_module_lifecycle_creation() {
    let temp_dir = create_temp_modules_dir();
    let registry = ModuleRegistry::new(dir_text(&temp_dir));
    let lifecycle = ModuleLifecycle::new(registry);
    assert_eq!(lifecycle.registry().modules_dir(), dir_text(&temp_dir));
    assert!(temp_dir.path().exists());
}

#[test]
fn test_node_config_default() {
    let metadata = NodeMetadata::default();

    assert_eq!(metadata.name, "custom-node");
    assert_eq!(metadata.network, "mainnet");
    assert!(metadata.version.is_none());
}

#[test]
fn test_node_config_creation() {
    let config = NodeConfig {
        node: NodeMetadata {
            name: "test-node".to_string(),
            version: Some("1.0.0".to_string()),
            network: "testnet".to_string(),
        },
        modules: Vec::new(),
    };

    assert_eq!(config.node.name, "test-node");
    assert_eq!(config.node.network, "testnet");
}

#[test]
fn test_node_config_to_spec() {
    let config = NodeConfig {
        node: NodeMetadata {
            name: "test-node".to_string(),
            version: Some("1.0.0".to_string()),
            network: "mainnet".to_string(),
        },
        modules: Vec::new(),
    };

    let spec = config.to_spec().unwrap();
    assert_eq!(spec.name, "test-node");
    assert_eq!(spec.network, NetworkType::Mainnet);
}

#[test]
fn test_node_config_to_spec_testnet() {
    let config = NodeConfig {
        node: NodeMetadata {
            name: "test-node".to_string(),
            version: None,
            network: "testnet".to_string(),
        },
        modules: Vec::new(),
    };

    let spec = config.to_spec().unwrap();
    assert_eq!(spec.network, NetworkType::Testnet);
}

#[test]
fn test_node_config_to_spec_regtest() {
    let config = NodeConfig {
        node: NodeMetadata {
            name: "test-node".to_string(),
            version: None,
            network: "regtest".to_string(),
        },
        modules: Vec::new(),
    };

    let spec = config.to_spec().unwrap();
    assert_eq!(spec.network, NetworkType::Regtest);
}

#[test]
fn test_node_config_invalid_network() {
    let config = NodeConfig {
        node: NodeMetadata {
            name: "test-node".to_string(),
            version: None,
            network: "invalid".to_string(),
        },
        modules: Vec::new(),
    };

    let result = config.to_spec();
    assert!(result.is_err());
}

#[test]
fn test_node_spec_creation() {
    let spec = NodeSpec {
        name: "test-node".to_string(),
        version: Some("1.0.0".to_string()),
        network: NetworkType::Mainnet,
        modules: vec![],
    };

    assert_eq!(spec.name, "test-node");
    assert_eq!(spec.network, NetworkType::Mainnet);
}

#[test]
fn test_node_spec_with_modules() {
    let spec = NodeSpec {
        name: "test-node".to_string(),
        version: None,
        network: NetworkType::Testnet,
        modules: vec![
            ModuleSpec {
                name: "module1".to_string(),
                version: Some("1.0.0".to_string()),
                enabled: true,
                config: HashMap::new(),
            },
            ModuleSpec {
                name: "module2".to_string(),
                version: None,
                enabled: false,
                config: HashMap::new(),
            },
        ],
    };

    assert_eq!(spec.modules.len(), 2);
    assert!(spec.modules[0].enabled);
    assert!(!spec.modules[1].enabled);
}

#[test]
fn test_module_spec_creation() {
    let module_spec = ModuleSpec {
        name: "test-module".to_string(),
        version: Some("1.0.0".to_string()),
        enabled: true,
        config: HashMap::new(),
    };

    assert_eq!(module_spec.name, "test-module");
    assert_eq!(module_spec.version, Some("1.0.0".to_string()));
    assert!(module_spec.enabled);
}

#[test]
fn test_module_spec_disabled() {
    let module_spec = ModuleSpec {
        name: "test-module".to_string(),
        version: None,
        enabled: false,
        config: HashMap::new(),
    };

    assert!(!module_spec.enabled);
}

#[test]
fn test_module_spec_with_config() {
    let mut config = HashMap::new();
    config.insert("key1".to_string(), serde_json::Value::String("value1".to_string()));
    config.insert("key2".to_string(), serde_json::Value::from(42));

    let module_spec = ModuleSpec {
        name: "test-module".to_string(),
        version: None,
        enabled: true,
        config,
    };

    assert_eq!(module_spec.config.len(), 2);
}

#[test]
fn test_network_type_variants() {
    assert_eq!(NetworkType::Mainnet as u8, 0);
    assert_eq!(NetworkType::Testnet as u8, 1);
    assert_eq!(NetworkType::Regtest as u8, 2);
}

#[test]
fn test_network_type_equality() {
    let mainnet1 = NetworkType::Mainnet;
    let mainnet2 = NetworkType::Mainnet;
    let testnet = NetworkType::Testnet;

    assert_eq!(mainnet1, mainnet2);
    assert_ne!(mainnet1, testnet);
}

#[test]
fn test_module_status_variants() {
    let not_installed = ModuleStatus::NotInstalled;
    let stopped = ModuleStatus::Stopped;
    let running = ModuleStatus::Running;
    let error = ModuleStatus::Error("test error".to_string());

    assert_eq!(not_installed, ModuleStatus::NotInstalled);
    assert_eq!(stopped, ModuleStatus::Stopped);
    assert_eq!(running, ModuleStatus::Running);
    assert_eq!(error, ModuleStatus::Error("test error".to_string()));
}

#[test]
fn test_module_health_variants() {
    let healthy = ModuleHealth::Healthy;
    let degraded = ModuleHealth::Degraded;
    let unhealthy = ModuleHealth::Unhealthy("test".to_string());
    let unknown = ModuleHealth::Unknown;

    assert_eq!(healthy, ModuleHealth::Healthy);
    assert_eq!(degraded, ModuleHealth::Degraded);
    assert_eq!(unhealthy, ModuleHealth::Unhealthy("test".to_string()));
    assert_eq!(unknown, ModuleHealth::Unknown);
}

#[test]
fn test_node_status_variants() {
    let stopped = NodeStatus::Stopped;
    let starting = NodeStatus::Starting;
    let running = NodeStatus::Running;
    let error = NodeStatus::Error("test error".to_string());

    assert_eq!(stopped, NodeStatus::Stopped);
    assert_eq!(starting, NodeStatus::Starting);
    assert_eq!(running, NodeStatus::Running);
    assert_eq!(error, NodeStatus::Error("test error".to_string()));
}

#[test]
fn test_validate_composition_empty() {
    let temp_dir = create_temp_modules_dir();
    let registry = ModuleRegistry::new(dir_text(&temp_dir));

    let spec = NodeSpec {
        name: "test-node".to_string(),
        version: None,
        network: NetworkType::Mainnet,
        modules: vec![],
    };

    let result = validate_composition(&spec, &registry, Ok(vec![])).unwrap();
    assert!(result.valid);
}

#[test]
fn test_validate_composition_nonexistent_module() {
    let temp_dir = create_temp_modules_dir();
    let registry = ModuleRegistry::new(dir_text(&temp_dir));

    let spec = NodeSpec {
        name: "test-node".to_string(),
        version: None,
        network: NetworkType::Mainnet,
        modules: vec![ModuleSpec {
            name: "nonexistent".to_string(),
            version: None,
            enabled: true,
            config: HashMap::new(),
        }],
    };

    let result = validate_composition(&spec, &registry, Ok(vec![])).unwrap();
    assert!(!result.valid);
    assert!(!result.errors.is_empty());
}

#[test]
fn test_validate_composition_disabled_module() {
    let temp_dir = create_temp_modules_dir();
    let registry = ModuleRegistry::new(dir_text(&temp_dir));

    let spec = NodeSpec {
        name: "test-node".to_string(),
        version: None,
        network: NetworkType::Mainnet,
        modules: vec![ModuleSpec {
            name: "nonexistent".to_string(),
            version: None,
            enabled: false,
            config: HashMap::new(),
        }],
    };

    let result = validate_composition(&spec, &registry, Ok(vec![])).unwrap();
    assert!(result.valid);
}

#[test]
fn test_module_source_path() {
    let temp_dir = create_temp_modules_dir();
    let source = ModuleSource::Path(dir_text(&temp_dir).to_string());

    match source {
        ModuleSource::Path(path) => {
            assert_eq!(path, dir_text(&temp_dir));
        }
        _ => panic!("Expected Path variant"),
    }
}

#[test]
fn test_module_source_registry() {
    let source = ModuleSource::Registry {
        url: "https://example.com/registry".to_string(),
        name: None,
    };

    match source {
        ModuleSource::Registry { url, name } => {
            assert_eq!(url, "https://example.com/registry");
            assert_eq!(name, None);
        }
        _ => panic!("Expected Registry variant"),
    }
}

#[test]
fn test_module_source_git() {
    let source = ModuleSource::Git {
        url: "https://github.com/example/repo".to_string(),
        tag: Some("v1.0.0".to_string()),
    };

    match source {
        ModuleSource::Git { url, tag } => {
            assert_eq!(url, "https://github.com/example/repo");
            assert_eq!(tag, Some("v1.0.0".to_string()));
        }
        _ => panic!("Expected Git variant"),
    }
}

#[test]
fn test_validation_result_valid() {
    let result = ValidationResult { valid: true, errors: vec![], warnings: vec![], dependencies: vec![] };

    assert!(result.valid);
    assert!(result.errors.is_empty());
}

#[test]
fn test_validation_result_invalid() {
    let result = ValidationResult {
        valid: false,
        errors: vec!["Error 1".to_string(), "Error 2".to_string()],
        warnings: vec!["Warning 1".to_string()],
        dependencies: vec![],
    };

    assert!(!result.valid);
    assert_eq!(result.errors.len(), 2);
    assert_eq!(result.warnings.len(), 1);
}

#[test]
fn config_to_spec_keeps_enabled_modules_in_order() {
    let mut settings = HashMap::new();
    settings.insert("port".to_string(), serde_json::Value::from(9735));
    let section = |enabled: bool, version: Option<&str>, config: HashMap<String, serde_json::Value>| {
        ModuleConfig { enabled, version: version.map(|v| v.to_string()), config }
    };
    let config = NodeConfig {
        node: NodeMetadata {
            name: "test-node".to_string(),
            version: Some("1.0.0".to_string()),
            network: "regtest".to_string(),
        },
        modules: vec![
            ("lightning".to_string(), section(true, Some("0.1.0"), settings.clone())),
            ("privacy".to_string(), section(false, None, HashMap::new())),
            ("mining".to_string(), section(true, None, HashMap::new())),
        ],
    };
    let spec = config.to_spec().unwrap();
    assert_eq!(spec.name, "test-node");
    assert_eq!(spec.version, Some("1.0.0".to_string()));
    assert_eq!(spec.network, NetworkType::Regtest);
    assert_eq!(spec.modules.len(), 2);
    assert_eq!(spec.modules[0].name, "lightning");
    assert_eq!(spec.modules[0].version, Some("0.1.0".to_string()));
    assert!(spec.modules[0].enabled);
    assert_eq!(spec.modules[0].config, settings);
    assert_eq!(spec.modules[1].name, "mining");
    assert_eq!(spec.modules[1].version, None);
}

#[test]
fn config_invalid_network_message() {
    let config = NodeConfig {
        node: NodeMetadata { name: "test-node".to_string(), version: None, network: "invalid".to_string() },
        modules: Vec::new(),
    };
    match config.to_spec() {
        Err(CompositionError::InvalidConfiguration(m)) => {
            assert_eq!(m, "Unknown network type: invalid")
        }
        other => panic!("unexpected {:?}", other),
    }
    assert!(parse_network("Mainnet").is_err());
}

#[test]
fn config_template_modules() {
    let template = NodeConfig::template();
    assert_eq!(template.node.name, "my-custom-node");
    assert_eq!(template.node.version, Some("1.0.0".to_string()));
    assert_eq!(template.node.network, "mainnet");
    assert_eq!(template.modules.len(), 2);
    assert_eq!(template.modules[0].0, "lightning");
    assert_eq!(template.modules[1].0, "privacy");
    assert!(template.modules.iter().all(|(_, m)| !m.enabled && m.config.is_empty()));
    let spec = template.to_spec().unwrap();
    assert!(spec.modules.is_empty());
}

#[test]
fn registry_lookup_by_name_and_version() {
    let mut registry = ModuleRegistry::new("modules");
    let listed = registry.record_discovered(vec![
        module("alpha", "1.0.0", Some("modules/alpha")),
        module("beta", "0.2.0", None),
        module("alpha", "2.0.0", Some("modules/alpha2")),
    ]);
    assert_eq!(listed.len(), 3);
    assert_eq!(registry.list_modules(), listed);
    assert_eq!(registry.get_module("alpha", None).unwrap().version, "1.0.0");
    assert_eq!(registry.get_module("alpha", Some("2.0.0")).unwrap().version, "2.0.0");
    match registry.get_module("alpha", Some("3.0.0")) {
        Err(CompositionError::ModuleNotFound(m)) => {
            assert_eq!(m, "Module alpha version 3.0.0 not found")
        }
        other => panic!("unexpected {:?}", other),
    }
    match registry.get_module("gamma", None) {
        Err(CompositionError::ModuleNotFound(m)) => assert_eq!(m, "Module gamma not found"),
        other => panic!("unexpected {:?}", other),
    }
}

#[test]
fn registry_update_refusals() {
    let mut registry = ModuleRegistry::new("modules");
    registry.record_discovered(vec![
        module("alpha", "1.0.0", Some("modules/alpha")),
        module("beta", "0.2.0", None),
    ]);
    let expect_install = |r: Result<ModuleInfo, CompositionError>, message: &str| match r {
        Err(CompositionError::InstallationFailed(m)) => assert_eq!(m, message),
        other => panic!("unexpected {:?}", other),
    };
    expect_install(registry.update_module("beta", None, Ok(None)), "Module has no directory");
    let git = ModuleSourceFile { source: "git".to_string(), url: "u".to_string(), tag: None };
    expect_install(
        registry.update_module("alpha", None, Ok(Some(git))),
        "Module update from git requires 'git' feature",
    );
    let reg = ModuleSourceFile { source: "registry".to_string(), url: "u".to_string(), tag: None };
    expect_install(
        registry.update_module("alpha", None, Ok(Some(reg))),
        "Module update from registry requires 'registry' feature",
    );
    expect_install(
        registry.update_module("alpha", None, Ok(None)),
        "Module has no install source (.blvm-source.json). Reinstall from registry or git.",
    );
    match registry.update_module("gamma", None, Ok(None)) {
        Err(CompositionError::ModuleNotFound(m)) => assert_eq!(m, "Module gamma not found"),
        other => panic!("unexpected {:?}", other),
    }
    expect_install(
        registry.install_from_git("https://github.com/x/y", None),
        "Git installation requires 'git' feature (git2)",
    );
    expect_install(
        registry.install_from_registry("https://r.example", None),
        "Registry installation requires 'registry' feature (reqwest)",
    );
    expect_install(ModuleRegistry::module_at_path(&vec![]), "No module found at path");
}

#[test]
fn validate_composition_merges_resolved_dependencies() {
    let mut registry = ModuleRegistry::new("modules");
    registry.record_discovered(vec![module("alpha", "1.0.0", None), module("beta", "1.0.0", None)]);
    let spec = NodeSpec {
        name: "n".to_string(),
        version: None,
        network: NetworkType::Regtest,
        modules: vec![
            ModuleSpec { name: "alpha".to_string(), version: None, enabled: true, config: HashMap::new() },
            ModuleSpec {
                name: "gamma".to_string(),
                version: Some("9".to_string()),
                enabled: true,
                config: HashMap::new(),
            },
        ],
    };
    let resolved = vec![module("beta", "1.0.0", None), module("alpha", "1.0.0", None)];
    let result = validate_composition(&spec, &registry, Ok(resolved)).unwrap();
    assert!(!result.valid);
    assert_eq!(
        result.errors,
        vec!["Module 'gamma' not found: Module not found: Module gamma version 9 not found".to_string()]
    );
    let names: Vec<&str> = result.dependencies.iter().map(|m| m.name.as_str()).collect();
    assert_eq!(names, vec!["alpha", "beta"]);
    let failed = validate_composition(
        &spec,
        &registry,
        Err(CompositionError::DependencyResolutionFailed("cycle".to_string())),
    )
    .unwrap();
    assert_eq!(failed.errors.len(), 2);
    assert_eq!(failed.errors[1], "Dependency resolution failed: Dependency resolution failed: cycle");
}

#[test]
fn module_errors_convert() {
    match CompositionError::from_module_error(NodeModuleError::CryptoError("bad".to_string())) {
        CompositionError::InstallationFailed(m) => assert_eq!(m, "Crypto error: bad"),
        other => panic!("unexpected {:?}", other),
    }
    match CompositionError::from_module_error(NodeModuleError::ModuleNotFound("x".to_string())) {
        CompositionError::ModuleNotFound(m) => assert_eq!(m, "x"),
        other => panic!("unexpected {:?}", other),
    }
    match CompositionError::from_module_error(NodeModuleError::DependencyMissing("d".to_string())) {
        CompositionError::DependencyResolutionFailed(m) => assert_eq!(m, "d"),
        other => panic!("unexpected {:?}", other),
    }
    match CompositionError::from_module_error(NodeModuleError::Timeout) {
        CompositionError::InstallationFailed(m) => {
            assert_eq!(m, "Timeout waiting for module response")
        }
        other => panic!("unexpected {:?}", other),
    }
    match CompositionError::from_module_error(NodeModuleError::Config("c".to_string())) {
        CompositionError::InvalidConfiguration(m) => assert_eq!(m, "c"),
        other => panic!("unexpected {:?}", other),
    }
    assert_eq!(
        module_state_to_status(NodeModuleState::Error("boom".to_string())),
        ModuleStatus::Error("boom".to_string())
    );
    assert_eq!(module_state_to_status(NodeModuleState::Initializing), ModuleStatus::Initializing);
}

#[test]
fn lifecycle_records_status_and_health() {
    let mut registry = ModuleRegistry::new("modules");
    registry.record_discovered(vec![module("alpha", "1.0.0", None)]);
    let mut lifecycle = ModuleLifecycle::new(registry);
    assert_eq!(lifecycle.get_module_status("alpha").unwrap(), ModuleStatus::NotInstalled);
    assert_eq!(lifecycle.health_check("alpha").unwrap(), ModuleHealth::Unknown);
    lifecycle.start_module("alpha").unwrap();
    assert_eq!(lifecycle.get_module_status("alpha").unwrap(), ModuleStatus::Running);
    assert_eq!(lifecycle.health_check("alpha").unwrap(), ModuleHealth::Healthy);
    lifecycle.stop_module("alpha").unwrap();
    assert_eq!(lifecycle.get_module_status("alpha").unwrap(), ModuleStatus::Stopped);
    assert!(lifecycle.start_module("beta").is_err());
    assert_eq!(health_for_status(&ModuleStatus::Stopping), ModuleHealth::Degraded);
    assert_eq!(
        health_for_status(&ModuleStatus::Error("e".to_string())),
        ModuleHealth::Unhealthy("e".to_string())
    );
}

#[test]
fn module_sources_from_arguments() {
    match classify_module_source("https://registry.example/index.json".to_string()) {
        ModuleSource::Registry { url, name } => {
            assert_eq!(url, "https://registry.example/index.json");
            assert_eq!(name, None);
        }
        other => panic!("unexpected {:?}", other),
    }
    match classify_module_source("git+ssh://host/repo".to_string()) {
        ModuleSource::Git { url, tag } => {
            assert_eq!(url, "git+ssh://host/repo");
            assert_eq!(tag, None);
        }
        other => panic!("unexpected {:?}", other),
    }
    match classify_module_source("ssh@github.com:x/y".to_string()) {
        ModuleSource::Git { .. } => {}
        other => panic!("unexpected {:?}", other),
    }
    match classify_module_source("./local/module".to_string()) {
        ModuleSource::Path(p) => assert_eq!(p, "./local/module"),
        other => panic!("unexpected {:?}", other),
    }
}

#[test]
fn download_urls() {
    assert_eq!(
        registry_download_url("https://r.example//", "lightning", "0.1.0"),
        "https://r.example/modules/lightning-0.1.0.tar.gz"
    );
}

#[test]
fn composition_error_texts() {
    assert_eq!(
        CompositionError::ModuleNotFound("x".to_string()).to_text(),
        "Module not found: x"
    );
    assert_eq!(
        CompositionError::ModuleVersionNotFound("x".to_string(), "1.0".to_string()).to_text(),
        "Module version not found: x 1.0"
    );
    assert_eq!(
        CompositionError::SerializationError("bad".to_string()).to_text(),
        "Serialization error: bad"
    );
    let io = std::io::Error::new(std::io::ErrorKind::NotFound, "gone");
    assert_eq!(CompositionError::IoError(io).to_text(), "IO error: gone");
}

fn deps(name: &str, on: &[&str]) -> (String, Vec<String>) {
    (name.to_string(), on.iter().map(|d| d.to_string()).collect())
}

fn names(ns: &[&str]) -> Vec<String> {
    ns.iter().map(|n| n.to_string()).collect()
}

#[test]
fn resolve_dependencies_loads_dependencies_first() {
    let mut registry = ModuleRegistry::new("modules");
    registry.record_discovered(vec![
        module("wallet", "1.0.0", None),
        module("storage", "2.0.0", None),
        module("rpc", "1.1.0", None),
    ]);
    let discovered = vec![
        deps("wallet", &["storage", "rpc"]),
        deps("storage", &[]),
        deps("rpc", &["storage"]),
        deps("unused", &["nothing"]),
    ];
    let order = registry
        .resolve_dependencies(discovered, &names(&["wallet", "storage", "rpc"]))
        .unwrap();
    let order: Vec<&str> = order.iter().map(|m| m.name.as_str()).collect();
    assert_eq!(order, vec!["storage", "rpc", "wallet"]);
}

#[test]
fn resolve_dependencies_reports_missing_and_cycles() {
    let registry = ModuleRegistry::new("modules");
    match registry.resolve_dependencies(vec![deps("a", &["b"])], &names(&["a"])) {
        Err(CompositionError::DependencyResolutionFailed(m)) => {
            assert!(m.starts_with("Missing dependencies: "))
        }
        other => panic!("unexpected {:?}", other),
    }
    let cycle = vec![deps("a", &["b"]), deps("b", &["a"])];
    match registry.resolve_dependencies(cycle, &names(&["a", "b"])) {
        Err(CompositionError::DependencyResolutionFailed(m)) => {
            assert_eq!(m, "Circular dependency detected: Circular dependency detected")
        }
        other => panic!("unexpected {:?}", other),
    }
}

#[test]
fn resolve_dependencies_needs_registered_modules() {
    let mut registry = ModuleRegistry::new("modules");
    registry.record_discovered(vec![module("a", "1.0.0", None)]);
    let discovered = vec![deps("a", &[]), deps("b", &["a"])];
    match registry.resolve_dependencies(discovered, &names(&["a", "b"])) {
        Err(CompositionError::ModuleNotFound(m)) => assert_eq!(m, "Module b not found"),
        other => panic!("unexpected {:?}", other),
    }
}

fn entry(name: Option<&str>, download_url: Option<Option<&str>>, url: Option<&str>) -> RegistryEntry {
    RegistryEntry {
        name: name.map(String::from),
        download_url: download_url.map(|d| d.map(String::from)),
        url: url.map(String::from),
    }
}

fn install_failure(r: Result<(String, String), CompositionError>) -> String {
    match r {
        Err(CompositionError::InstallationFailed(m)) => m,
        other => panic!("unexpected {:?}", other),
    }
}

#[test]
fn registry_index_selection() {
    let index = vec![
        entry(Some("alpha"), Some(Some("https://a/alpha.tgz")), None),
        entry(Some("beta"), None, Some("https://b/beta.tgz")),
        entry(Some("gamma"), Some(None), Some("https://c/gamma.tgz")),
        entry(None, Some(Some("https://d")), None),
    ];
    assert_eq!(
        select_registry_module(&index, None).unwrap(),
        ("alpha".to_string(), "https://a/alpha.tgz".to_string())
    );
    assert_eq!(
        select_registry_module(&index, Some("beta")).unwrap(),
        ("beta".to_string(), "https://b/beta.tgz".to_string())
    );
    assert_eq!(install_failure(select_registry_module(&index, Some("gamma"))), "Module missing download_url");
    assert_eq!(
        install_failure(select_registry_module(&index, Some("delta"))),
        "Module 'delta' not found in registry"
    );
    assert_eq!(install_failure(select_registry_module(&vec![], None)), "Registry has no modules");
    assert_eq!(
        install_failure(select_registry_module(&index[3..].to_vec(), None)),
        "Module missing 'name'"
    );
}
