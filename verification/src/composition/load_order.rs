//! The order in which modules load: every module after the modules it
//! depends on. The node's dependency resolver computes it.

use vstd::prelude::*;

use blvm_node::module::registry::{DiscoveredModule, ModuleDependencies, ModuleManifest};
use blvm_node::module::traits::ModuleError;
use std::collections::HashMap;
use std::path::PathBuf;

verus! {

/// A module found by a discovery of the modules directory, the node's
/// record of it.
#[verifier::external_type_specification]
#[verifier::external_body]
pub struct ExDiscoveredModule(DiscoveredModule);

/// A module as values: its name and the names of the modules it depends
/// on.
pub type ModuleDepsView = (Seq<char>, Seq<Seq<char>>);

/// The modules with their dependencies as values.
pub open spec fn deps_view(ms: Seq<(String, Vec<String>)>) -> Seq<ModuleDepsView> {
    ms.map_values(|m: (String, Vec<String>)| (m.0@, m.1@.map_values(|d: String| d@)))
}

/// Whether some module has the name `n`.
pub open spec fn has_module(ms: Seq<ModuleDepsView>, n: Seq<char>) -> bool {
    exists|i: int| 0 <= i < ms.len() && #[trigger] ms[i].0 == n
}

/// Whether some module depends on a name that no module has.
pub open spec fn missing_dependency(ms: Seq<ModuleDepsView>) -> bool {
    exists|i: int, k: int|
        0 <= i < ms.len() && 0 <= k < ms[i].1.len() && !has_module(ms, #[trigger] ms[i].1[k])
}

/// Whether module `i` is the last one with its name: a later module of the
/// same name takes its place.
pub open spec fn last_of_name(ms: Seq<ModuleDepsView>, i: int) -> bool {
    forall|j: int| i < j < ms.len() ==> #[trigger] ms[j].0 != ms[i].0
}

/// Whether `o` is a load order of the modules: every name once, only
/// names of modules, and each module (the last of its name) after every
/// module it depends on.
pub open spec fn is_load_order(ms: Seq<ModuleDepsView>, o: Seq<Seq<char>>) -> bool {
    &&& o.no_duplicates()
    &&& forall|j: int| 0 <= j < o.len() ==> has_module(ms, #[trigger] o[j])
    &&& forall|i: int| 0 <= i < ms.len() ==> o.contains(#[trigger] ms[i].0)
    &&& forall|i: int, k: int, j: int|
        #![trigger o[j], ms[i].1[k]]
        0 <= i < ms.len() && last_of_name(ms, i) && 0 <= k < ms[i].1.len() && 0 <= j < o.len()
            && o[j] == ms[i].0 ==> exists|j2: int| 0 <= j2 < j && #[trigger] o[j2] == ms[i].1[k]
}

/// Whether the modules can be loaded: nothing depends on a missing module
/// and some order loads every module after its dependencies.
pub open spec fn resolvable(ms: Seq<ModuleDepsView>) -> bool {
    !missing_dependency(ms) && exists|o: Seq<Seq<char>>| is_load_order(ms, o)
}

/// Whether `m` is the message of a failed resolution: a missing
/// dependency is reported first, with the missing names; otherwise the
/// dependencies form a cycle.
pub open spec fn resolution_failure(ms: Seq<ModuleDepsView>, m: Seq<char>) -> bool {
    if missing_dependency(ms) {
        m.len() >= "Missing dependencies: "@.len() && m.take("Missing dependencies: "@.len() as int)
            == "Missing dependencies: "@
    } else {
        m == "Circular dependency detected: Circular dependency detected"@
    }
}

/// The node's record of a module with the given name and dependencies,
/// every other field empty.
#[verifier::external_body]
fn discovered_module(name: &String, deps: &Vec<String>) -> (r: DiscoveredModule) {
    let dependencies: HashMap<String, String> = deps.iter().map(|d| (d.clone(), String::new())).collect();
    let manifest = ModuleManifest { name: name.clone(), version: String::new(),
        entry_point: String::new(), description: None, author: None, capabilities: Vec::new(),
        dependencies, optional_dependencies: HashMap::new(), config_schema: HashMap::new(),
        rpc_overrides: Vec::new(), signatures: None, binary: None, downloads: HashMap::new(),
        payment: None };
    DiscoveredModule { directory: PathBuf::new(), manifest, binary_path: PathBuf::new() }
}

/// `ModuleDependencies::resolve` of the node on modules given by name and
/// dependencies, with its load order or the message of its error. Its
/// source claims: the resolution fails exactly where a module depends on a
/// missing name (reported first) or no order puts every module after its
/// dependencies (a cycle); a load order has every name once and each module
/// after its dependencies. Which of several such orders comes out depends on
/// how its hash maps are walked, so nothing more is said of it.
#[verifier::external_body]
pub(crate) fn resolve_load_order(modules: &Vec<(String, Vec<String>)>) -> (r: Result<Vec<String>, String>)
    ensures
        r is Ok <==> resolvable(deps_view(modules@)),
        r matches Ok(o) ==> is_load_order(deps_view(modules@), o@.map_values(|s: String| s@)),
        r matches Err(m) ==> resolution_failure(deps_view(modules@), m@),
{
    let found: Vec<DiscoveredModule> = modules.iter().map(|m| discovered_module(&m.0, &m.1)).collect();
    match ModuleDependencies::resolve(&found) {
        Ok(resolution) => Ok(resolution.load_order),
        Err(ModuleError::DependencyMissing(m)) => Err(m),
        Err(e) => Err(e.to_string()),
    }
}

/// The modules whose names are among `names`, in their order.
pub open spec fn requested_modules(ms: Seq<ModuleDepsView>, names: Seq<Seq<char>>) -> Seq<ModuleDepsView>
    decreases ms.len(),
{
    if ms.len() == 0 {
        Seq::empty()
    } else {
        let r = requested_modules(ms.drop_last(), names);
        if names.contains(ms.last().0) {
            r.push(ms.last())
        } else {
            r
        }
    }
}

/// The names as values.
pub open spec fn names_view(names: Seq<String>) -> Seq<Seq<char>> {
    names.map_values(|s: String| s@)
}

/// Whether the name `n` is among `names`.
pub(crate) fn name_listed(names: &Vec<String>, n: &String) -> (r: bool)
    ensures
        r == names_view(names@).contains(n@),
{
    let mut i: usize = 0;
    while i < names.len()
        invariant
            i <= names@.len(),
            forall|k: int| 0 <= k < i ==> names@[k]@ != n@,
        decreases names@.len() - i,
    {
        if names[i] == *n {
            assert(names_view(names@)[i as int] == n@);
            return true;
        }
        i = i + 1;
    }
    proof {
        if names_view(names@).contains(n@) {
            let k = choose|k: int| 0 <= k < names_view(names@).len() && names_view(names@)[k] == n@;
            assert(names@[k]@ == n@);
        }
    }
    false
}

/// The modules of `ms` whose names are among `names`, in their order.
pub(crate) fn select_requested(ms: Vec<(String, Vec<String>)>, names: &Vec<String>) -> (r: Vec<(String, Vec<String>)>)
    ensures
        deps_view(r@) == requested_modules(deps_view(ms@), names_view(names@)),
{
    let ghost all = deps_view(ms@);
    let mut rest = ms;
    let mut out: Vec<(String, Vec<String>)> = Vec::new();
    let total = rest.len();
    let mut i: usize = 0;
    while rest.len() > 0
        invariant
            i <= all.len(),
            all.len() == total,
            rest@.len() + i == all.len(),
            deps_view(rest@) == all.skip(i as int),
            deps_view(out@) == requested_modules(all.take(i as int), names_view(names@)),
        decreases rest@.len(),
    {
        proof {
            assert(all.skip(i as int)[0] == all[i as int]);
            assert(deps_view(rest@)[0] == all[i as int]);
        }
        let ghost before = rest@;
        let m = rest.remove(0);
        proof {
            assert(rest@ =~= before.subrange(1, before.len() as int));
            assert forall|k: int| 0 <= k < rest@.len() implies #[trigger] deps_view(rest@)[k] == all.skip(i + 1)[k] by {
                assert(rest@[k] == before[k + 1]);
                assert(deps_view(before)[k + 1] == all.skip(i as int)[k + 1]);
            }
            assert(deps_view(rest@) =~= all.skip(i + 1));
            assert(all.take(i + 1).drop_last() =~= all.take(i as int));
            assert(all.take(i + 1).last() == all[i as int]);
            assert((m.0@, m.1@.map_values(|d: String| d@)) == all[i as int]);
        }
        if name_listed(names, &m.0) {
            let ghost prev = out@;
            out.push(m);
            proof {
                assert(deps_view(out@) =~= deps_view(prev).push(all[i as int]));
            }
        }
        i = i + 1;
    }
    proof {
        assert(all.skip(i as int).len() == 0);
        assert(all.take(i as int) =~= all);
    }
    out
}

} // verus!
