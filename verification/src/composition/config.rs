//! Node configuration: the node metadata section and the step from a
//! configuration to a node specification.

use vstd::prelude::*;

use crate::composition::types::{CompositionError, CompositionResult, ModuleSpec, NetworkType, NodeSpec};
use std::collections::HashMap;

use crate::text::{concat_str, string_of, text_eq};

verus! {

/// Node metadata section.
#[derive(Debug, Clone)]
pub struct NodeMetadata {
    /// Node name
    pub name: String,
    /// Node version
    pub version: Option<String>,
    /// Network type
    pub network: String,
}

impl Default for NodeMetadata {
    fn default() -> (r: Self)
        ensures
            r.name@ == "custom-node"@,
            r.version is None,
            r.network@ == "mainnet"@,
    {
        NodeMetadata {
            name: string_of("custom-node"),
            version: None,
            network: string_of("mainnet"),
        }
    }
}

/// A module is enabled unless its configuration says otherwise.
pub fn default_true() -> (r: bool)
    ensures
        r,
{
    true
}

/// The network that a name denotes: "mainnet", "testnet" or "regtest".
pub open spec fn network_named(s: Seq<char>) -> Option<NetworkType> {
    if s == "mainnet"@ {
        Some(NetworkType::Mainnet)
    } else if s == "testnet"@ {
        Some(NetworkType::Testnet)
    } else if s == "regtest"@ {
        Some(NetworkType::Regtest)
    } else {
        None
    }
}

/// The network that a name denotes, or `InvalidConfiguration` naming it.
pub fn parse_network(network: &str) -> (r: CompositionResult<NetworkType>)
    ensures
        network_named(network@) matches Some(n) ==> r == Ok::<NetworkType, CompositionError>(n),
        network_named(network@) is None ==> (r matches Err(CompositionError::InvalidConfiguration(m))
            && m@ == "Unknown network type: "@ + network@),
{
    if text_eq(network, "mainnet") {
        Ok(NetworkType::Mainnet)
    } else if text_eq(network, "testnet") {
        Ok(NetworkType::Testnet)
    } else if text_eq(network, "regtest") {
        Ok(NetworkType::Regtest)
    } else {
        Err(CompositionError::InvalidConfiguration(concat_str("Unknown network type: ", network)))
    }
}

/// Module configuration section.
#[derive(Debug, Clone)]
pub struct ModuleConfig {
    /// Whether module is enabled
    pub enabled: bool,
    /// Module version (optional)
    pub version: Option<String>,
    /// Module-specific configuration
    pub config: HashMap<String, serde_json::Value>,
}

/// Node configuration: the node metadata and the module sections, each
/// under its module name.
#[derive(Debug, Clone)]
pub struct NodeConfig {
    /// Node metadata
    pub node: NodeMetadata,
    /// Module configurations, by module name
    pub modules: Vec<(String, ModuleConfig)>,
}

/// The enabled module sections among the first `n`, in order.
pub open spec fn enabled_sections(mods: Seq<(String, ModuleConfig)>, n: int) -> Seq<(String, ModuleConfig)>
    decreases n,
{
    if n <= 0 {
        Seq::empty()
    } else if mods[n - 1].1.enabled {
        enabled_sections(mods, n - 1).push(mods[n - 1])
    } else {
        enabled_sections(mods, n - 1)
    }
}

/// A module specification made from a named module section.
pub open spec fn spec_of_section(m: (String, ModuleConfig), s: ModuleSpec) -> bool {
    &&& s.name == m.0
    &&& s.version == m.1.version
    &&& s.enabled == m.1.enabled
    &&& s.config@ == m.1.config@
}

/// The module specifications made from the enabled sections, in order.
pub open spec fn specs_of_enabled(mods: Seq<(String, ModuleConfig)>, specs: Seq<ModuleSpec>) -> bool {
    let e = enabled_sections(mods, mods.len() as int);
    specs.len() == e.len() && forall|i: int| 0 <= i < e.len() ==> spec_of_section(e[i], #[trigger] specs[i])
}

/// No module name has two sections.
pub open spec fn sections_distinct(mods: Seq<(String, ModuleConfig)>) -> bool {
    forall|i: int, j: int| 0 <= i < j < mods.len() ==> (#[trigger] mods[i]).0@ != (#[trigger] mods[j]).0@
}

/// A copy of an optional string.
fn copy_version(v: &Option<String>) -> (r: Option<String>)
    ensures
        r == *v,
{
    match v {
        Some(x) => Some(x.clone()),
        None => None,
    }
}

impl NodeConfig {
    /// Convert to a node specification: the node's name, version and
    /// network, the network name checked first, and a module
    /// specification for each enabled module section, in order.
    pub fn to_spec(&self) -> (r: CompositionResult<NodeSpec>)
        ensures
            network_named(self.node.network@) matches Some(n) ==> (r matches Ok(s) && s.name
                == self.node.name && s.version == self.node.version && s.network == n
                && specs_of_enabled(self.modules@, s.modules@)),
            network_named(self.node.network@) is None ==> (r matches Err(
                CompositionError::InvalidConfiguration(m),
            ) && m@ == "Unknown network type: "@ + self.node.network@),
    {
        let network = match parse_network(self.node.network.as_str()) {
            Ok(n) => n,
            Err(e) => {
                return Err(e);
            },
        };
        let mut modules: Vec<ModuleSpec> = Vec::new();
        let mut i: usize = 0;
        while i < self.modules.len()
            invariant
                i <= self.modules@.len(),
                modules@.len() == enabled_sections(self.modules@, i as int).len(),
                forall|k: int|
                    0 <= k < modules@.len() ==> spec_of_section(
                        enabled_sections(self.modules@, i as int)[k],
                        #[trigger] modules@[k],
                    ),
            decreases self.modules@.len() - i,
        {
            let (name, cfg) = &self.modules[i];
            if cfg.enabled {
                modules.push(
                    ModuleSpec {
                        name: name.clone(),
                        version: copy_version(&cfg.version),
                        enabled: cfg.enabled,
                        config: cfg.config.clone(),
                    },
                );
            }
            i = i + 1;
        }
        Ok(
            NodeSpec {
                name: self.node.name.clone(),
                version: copy_version(&self.node.version),
                network,
                modules,
            },
        )
    }

    /// A configuration template: node `my-custom-node` 1.0.0 on mainnet,
    /// with two example modules, `lightning` 0.1.0 and `privacy` 0.2.0,
    /// both disabled and without settings.
    pub fn template() -> (r: Self)
        ensures
            r.node.name@ == "my-custom-node"@,
            r.node.version matches Some(v) && v@ == "1.0.0"@,
            r.node.network@ == "mainnet"@,
            r.modules@.len() == 2,
            r.modules@[0].0@ == "lightning"@,
            r.modules@[1].0@ == "privacy"@,
            sections_distinct(r.modules@),
            !r.modules@[0].1.enabled,
            !r.modules@[1].1.enabled,
            r.modules@[0].1.version matches Some(v) && v@ == "0.1.0"@,
            r.modules@[1].1.version matches Some(v) && v@ == "0.2.0"@,
            r.modules@[0].1.config@.is_empty() && r.modules@[1].1.config@.is_empty(),
    {
        let mut modules: Vec<(String, ModuleConfig)> = Vec::new();
        modules.push(
            (
                string_of("lightning"),
                ModuleConfig { enabled: false, version: Some(string_of("0.1.0")), config: HashMap::new() },
            ),
        );
        modules.push(
            (
                string_of("privacy"),
                ModuleConfig { enabled: false, version: Some(string_of("0.2.0")), config: HashMap::new() },
            ),
        );
        proof {
            reveal_strlit("lightning");
            reveal_strlit("privacy");
        }
        NodeConfig {
            node: NodeMetadata {
                name: string_of("my-custom-node"),
                version: Some(string_of("1.0.0")),
                network: string_of("mainnet"),
            },
            modules,
        }
    }
}

} // verus!
