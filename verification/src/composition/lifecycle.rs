//! Module lifecycle: the status recorded for each module started or
//! stopped, and the health that a status shows. Driving a node's module
//! manager is the caller's part; this records and answers.

use vstd::prelude::*;

use crate::composition::registry::{find_module, not_found_message, ModuleRegistry};
use crate::composition::conversion::{module_state_to_status, status_of_state, NodeModuleState};
use crate::composition::types::{
    CompositionError, CompositionResult, ModuleHealth, ModuleInfo, ModuleStatus,
};
use crate::text::{concat_str, string_of, text_eq};

verus! {

/// The health that a module status shows: running is healthy, an error
/// unhealthy with its message, stopped or not installed unknown, and
/// starting or stopping degraded.
pub open spec fn health_of(s: ModuleStatus, h: ModuleHealth) -> bool {
    match s {
        ModuleStatus::Running => h matches ModuleHealth::Healthy,
        ModuleStatus::Error(m) => h matches ModuleHealth::Unhealthy(x) && x@ == m@,
        ModuleStatus::Stopped | ModuleStatus::NotInstalled => h matches ModuleHealth::Unknown,
        _ => h matches ModuleHealth::Degraded,
    }
}

/// What a module's health says of its status: it is healthy exactly when
/// the module runs; a stopped or uninstalled module's health is unknown; a
/// failed module is unhealthy with its error message; a module starting or
/// stopping is degraded. In particular no module that is not running shows
/// as healthy.
pub proof fn lemma_health_of_status(s: ModuleStatus, h: ModuleHealth)
    requires
        health_of(s, h),
    ensures
        (h is Healthy) <==> (s is Running),
        (s is Stopped || s is NotInstalled) ==> h is Unknown,
        (s is Initializing || s is Stopping) ==> h is Degraded,
        s matches ModuleStatus::Error(m) ==> (h matches ModuleHealth::Unhealthy(x) && x@ == m@),
        h is Unknown ==> (s is Stopped || s is NotInstalled),
{
}

/// The health that a module status shows.
pub fn health_for_status(status: &ModuleStatus) -> (r: ModuleHealth)
    ensures
        health_of(*status, r),
{
    match status {
        ModuleStatus::Running => ModuleHealth::Healthy,
        ModuleStatus::Error(msg) => ModuleHealth::Unhealthy(msg.clone()),
        ModuleStatus::Stopped | ModuleStatus::NotInstalled => ModuleHealth::Unknown,
        _ => ModuleHealth::Degraded,
    }
}

/// A copy of a module status.
pub fn copy_status(s: &ModuleStatus) -> (r: ModuleStatus)
    ensures
        r == *s,
{
    match s {
        ModuleStatus::NotInstalled => ModuleStatus::NotInstalled,
        ModuleStatus::Stopped => ModuleStatus::Stopped,
        ModuleStatus::Initializing => ModuleStatus::Initializing,
        ModuleStatus::Running => ModuleStatus::Running,
        ModuleStatus::Stopping => ModuleStatus::Stopping,
        ModuleStatus::Error(m) => ModuleStatus::Error(m.clone()),
    }
}

/// The status recorded last for a module name, if any: the first entry
/// with that name from position `i` on.
pub open spec fn cached_from(v: Seq<(String, ModuleStatus)>, name: Seq<char>, i: int) -> Option<ModuleStatus>
    decreases v.len() - i,
{
    if i < 0 || i >= v.len() {
        None
    } else if v[i].0@ == name {
        Some(v[i].1)
    } else {
        cached_from(v, name, i + 1)
    }
}

/// Module lifecycle manager.
pub struct ModuleLifecycle {
    /// Module registry
    registry: ModuleRegistry,
    /// Module status cache
    status_cache: Vec<(String, ModuleStatus)>,
}

/// The binary that the module manager loads for a module: its recorded
/// binary path, or not found where it has none.
pub fn module_binary_path(info: &ModuleInfo, name: &str) -> (r: CompositionResult<String>)
    ensures
        info.binary_path matches Some(p) ==> (r matches Ok(x) && x@ == p@),
        info.binary_path is None ==> (r matches Err(CompositionError::ModuleNotFound(m)) && m@ == "Module "@
            + name@ + " has no binary path"@),
{
    match &info.binary_path {
        Some(p) => Ok(p.clone()),
        None => {
            let a = concat_str("Module ", name);
            Err(CompositionError::ModuleNotFound(concat_str(a.as_str(), " has no binary path")))
        },
    }
}

impl ModuleLifecycle {
    /// The status recorded for a module name, if any.
    pub closed spec fn recorded(&self, name: Seq<char>) -> Option<ModuleStatus> {
        cached_from(self.status_cache@, name, 0)
    }

    /// The registry.
    pub closed spec fn registry_view(&self) -> ModuleRegistry {
        self.registry
    }

    /// Create a new module lifecycle manager with nothing recorded.
    pub fn new(registry: ModuleRegistry) -> (r: Self)
        ensures
            r.registry_view() == registry,
            forall|n: Seq<char>| r.recorded(n) is None,
    {
        ModuleLifecycle { registry, status_cache: Vec::new() }
    }

    /// Record a status for a module name.
    fn record(&mut self, name: &str, status: ModuleStatus)
        ensures
            final(self).recorded(name@) == Some(status),
            forall|n: Seq<char>| n != name@ ==> final(self).recorded(n) == old(self).recorded(n),
            final(self).registry_view() == old(self).registry_view(),
    {
        let ghost v = self.status_cache@;
        let mut i: usize = 0;
        while i < self.status_cache.len() && !text_eq(self.status_cache[i].0.as_str(), name)
            invariant
                i <= v.len(),
                v == self.status_cache@,
                forall|j: int| 0 <= j < i ==> (#[trigger] v[j]).0@ != name@,
            decreases v.len() - i,
        {
            i = i + 1;
        }
        if i < self.status_cache.len() {
            self.status_cache.set(i, (string_of(name), status));
            proof {
                let w = self.status_cache@;
                assert forall|n: Seq<char>| n != name@ implies cached_from(w, n, 0) == cached_from(
                    v,
                    n,
                    0,
                ) by {
                    lemma_cached_update(v, w, n, i as int, 0);
                }
                lemma_cached_hit(w, name@, i as int, 0);
            }
        } else {
            self.status_cache.push((string_of(name), status));
            proof {
                let w = self.status_cache@;
                assert forall|n: Seq<char>| n != name@ implies cached_from(w, n, 0) == cached_from(
                    v,
                    n,
                    0,
                ) by {
                    lemma_cached_push(v, w, n, 0);
                }
                lemma_cached_hit(w, name@, v.len() as int, 0);
            }
        }
    }

    /// Start a module: it must be discovered; it is then recorded as
    /// running.
    pub fn start_module(&mut self, name: &str) -> (r: CompositionResult<()>)
        ensures
            final(self).registry_view() == old(self).registry_view(),
            find_module(old(self).registry_view().modules(), name@, None) < 0 ==> (r matches Err(
                CompositionError::ModuleNotFound(m),
            ) && m@ == not_found_message(name@, None) && forall|n: Seq<char>| final(self).recorded(n) == old(self).recorded(n)),
            find_module(old(self).registry_view().modules(), name@, None) >= 0 ==> (r is Ok
                && final(self).recorded(name@) == Some(ModuleStatus::Running) && forall|n: Seq<char>|
                n != name@ ==> final(self).recorded(n) == old(self).recorded(n)),
    {
        match self.registry.get_module(name, None) {
            Ok(_) => {},
            Err(e) => {
                return Err(e);
            },
        }
        self.record(name, ModuleStatus::Running);
        Ok(())
    }

    /// Stop a module: it must be discovered; it is then recorded as
    /// stopped.
    pub fn stop_module(&mut self, name: &str) -> (r: CompositionResult<()>)
        ensures
            final(self).registry_view() == old(self).registry_view(),
            find_module(old(self).registry_view().modules(), name@, None) < 0 ==> (r matches Err(
                CompositionError::ModuleNotFound(m),
            ) && m@ == not_found_message(name@, None) && forall|n: Seq<char>| final(self).recorded(n) == old(self).recorded(n)),
            find_module(old(self).registry_view().modules(), name@, None) >= 0 ==> (r is Ok
                && final(self).recorded(name@) == Some(ModuleStatus::Stopped) && forall|n: Seq<char>|
                n != name@ ==> final(self).recorded(n) == old(self).recorded(n)),
    {
        match self.registry.get_module(name, None) {
            Ok(_) => {},
            Err(e) => {
                return Err(e);
            },
        }
        self.record(name, ModuleStatus::Stopped);
        Ok(())
    }

    /// A module's status where the node's module manager may know it: the
    /// manager's state where it reports one, else the one recorded (or not
    /// installed). An unregistered module is not found.
    pub fn status_with_manager(&self, name: &str, manager_state: Option<NodeModuleState>) -> (r:
        CompositionResult<ModuleStatus>)
        ensures
            find_module(self.registry_view().modules(), name@, None) < 0 ==> (r matches Err(
                CompositionError::ModuleNotFound(m),
            ) && m@ == not_found_message(name@, None)),
            find_module(self.registry_view().modules(), name@, None) >= 0 ==> match manager_state {
                Some(s) => r matches Ok(st) && status_of_state(s, st),
                None => r == Ok::<ModuleStatus, CompositionError>(
                    match self.recorded(name@) {
                        Some(s) => s,
                        None => ModuleStatus::NotInstalled,
                    },
                ),
            },
    {
        match self.registry.get_module(name, None) {
            Ok(_) => {},
            Err(e) => {
                return Err(e);
            },
        }
        match manager_state {
            Some(s) => Ok(module_state_to_status(s)),
            None => self.get_module_status(name),
        }
    }

    /// Get module status: the one recorded, or not installed.
    pub fn get_module_status(&self, name: &str) -> (r: CompositionResult<ModuleStatus>)
        ensures
            find_module(self.registry_view().modules(), name@, None) < 0 ==> (r matches Err(
                CompositionError::ModuleNotFound(m),
            ) && m@ == not_found_message(name@, None)),
            find_module(self.registry_view().modules(), name@, None) >= 0 ==> r == Ok::<ModuleStatus, CompositionError>(
                match self.recorded(name@) {
                    Some(s) => s,
                    None => ModuleStatus::NotInstalled,
                },
            ),
    {
        match self.registry.get_module(name, None) {
            Ok(_) => {},
            Err(e) => {
                return Err(e);
            },
        }
        let ghost v = self.status_cache@;
        let mut i: usize = 0;
        while i < self.status_cache.len()
            invariant
                i <= v.len(),
                v == self.status_cache@,
                find_module(self.registry_view().modules(), name@, None) >= 0,
                cached_from(v, name@, 0) == cached_from(v, name@, i as int),
            decreases v.len() - i,
        {
            if text_eq(self.status_cache[i].0.as_str(), name) {
                return Ok(copy_status(&self.status_cache[i].1));
            }
            i = i + 1;
        }
        Ok(ModuleStatus::NotInstalled)
    }

    /// Perform health check on module: the health its status shows.
    pub fn health_check(&self, name: &str) -> (r: CompositionResult<ModuleHealth>)
        ensures
            find_module(self.registry_view().modules(), name@, None) < 0 ==> (r matches Err(
                CompositionError::ModuleNotFound(m),
            ) && m@ == not_found_message(name@, None)),
            find_module(self.registry_view().modules(), name@, None) >= 0 ==> (r matches Ok(h)
                && health_of(
                match self.recorded(name@) {
                    Some(s) => s,
                    None => ModuleStatus::NotInstalled,
                },
                h,
            )),
    {
        match self.get_module_status(name) {
            Ok(s) => Ok(health_for_status(&s)),
            Err(e) => Err(e),
        }
    }

    /// Get the module registry.
    pub fn registry(&self) -> (r: &ModuleRegistry)
        ensures
            *r == self.registry_view(),
    {
        &self.registry
    }

    /// Get mutable access to the module registry.
    pub fn registry_mut(&mut self) -> (r: &mut ModuleRegistry)
        ensures
            *r == old(self).registry_view(),
            final(self).registry_view() == *final(r),
            forall|n: Seq<char>| final(self).recorded(n) == old(self).recorded(n),
    {
        &mut self.registry
    }
}

/// Replacing entry `k` by one with another name leaves every other name's
/// lookup as it was, where no entry before `k` had that other name... in
/// general: the lookup of a name other than the new entry's and the old
/// entry's does not change.
proof fn lemma_cached_update(
    v: Seq<(String, ModuleStatus)>,
    w: Seq<(String, ModuleStatus)>,
    n: Seq<char>,
    k: int,
    i: int,
)
    requires
        0 <= k < v.len(),
        w.len() == v.len(),
        forall|j: int| 0 <= j < v.len() && j != k ==> w[j] == v[j],
        v[k].0@ == w[k].0@,
        n != v[k].0@,
        0 <= i,
    ensures
        cached_from(w, n, i) == cached_from(v, n, i),
    decreases v.len() - i,
{
    if i < v.len() {
        lemma_cached_update(v, w, n, k, i + 1);
    }
}

/// Appending an entry leaves the lookup of every other name as it was.
proof fn lemma_cached_push(
    v: Seq<(String, ModuleStatus)>,
    w: Seq<(String, ModuleStatus)>,
    n: Seq<char>,
    i: int,
)
    requires
        w.len() == v.len() + 1,
        forall|j: int| 0 <= j < v.len() ==> w[j] == v[j],
        n != w[v.len() as int].0@,
        0 <= i,
    ensures
        cached_from(w, n, i) == cached_from(v, n, i),
    decreases w.len() - i,
{
    if i < w.len() {
        lemma_cached_push(v, w, n, i + 1);
    }
}

/// The lookup finds entry `k` when no entry before it has the name.
proof fn lemma_cached_hit(w: Seq<(String, ModuleStatus)>, name: Seq<char>, k: int, i: int)
    requires
        0 <= i <= k < w.len(),
        w[k].0@ == name,
        forall|j: int| 0 <= j < k ==> (#[trigger] w[j]).0@ != name,
    ensures
        cached_from(w, name, i) == Some(w[k].1),
    decreases k - i,
{
    if i < k {
        lemma_cached_hit(w, name, k, i + 1);
    }
}

} // verus!
