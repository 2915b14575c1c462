//! Module registry: the modules discovered in a modules directory, their
//! lookup by name and version, and the install and update decisions.
//!
//! Reading the modules directory, the network and the disk is the
//! caller's part; the registry records what was discovered and decides.

use vstd::prelude::*;

use crate::composition::types::{
    copy_modules, same_module, same_modules, CompositionError, CompositionResult, ModuleInfo,
    ModuleSource,
};
use crate::composition::conversion::NodeModuleError;
use crate::composition::load_order::{
    deps_view, is_load_order, names_view, requested_modules, resolution_failure, resolvable,
    resolve_load_order, select_requested,
};
use crate::text::{concat_str, string_of, text_eq, trim_end, trim_end_char};

verus! {

/// The record that an install leaves in a module's directory: where the
/// module came from ("registry" or "git"), its URL and an optional tag.
#[derive(Debug, Clone)]
pub struct ModuleSourceFile {
    pub source: String,
    pub url: String,
    pub tag: Option<String>,
}

/// The characters of an optional string slice.
pub open spec fn opt_text(s: Option<&str>) -> Option<Seq<char>> {
    match s {
        Some(v) => Some(v@),
        None => None,
    }
}

/// Whether a module has the name and, where one is given, the version.
pub open spec fn matches_query(m: ModuleInfo, name: Seq<char>, version: Option<Seq<char>>) -> bool {
    m.name@ == name && match version {
        Some(v) => m.version@ == v,
        None => true,
    }
}

/// The first position from `i` on of a matching module, or -1.
pub open spec fn find_from(
    ms: Seq<ModuleInfo>,
    name: Seq<char>,
    version: Option<Seq<char>>,
    i: int,
) -> int
    decreases ms.len() - i,
{
    if i < 0 || i >= ms.len() {
        -1
    } else if matches_query(ms[i], name, version) {
        i
    } else {
        find_from(ms, name, version, i + 1)
    }
}

/// The position of the first matching module, or -1.
pub open spec fn find_module(ms: Seq<ModuleInfo>, name: Seq<char>, version: Option<Seq<char>>) -> int {
    find_from(ms, name, version, 0)
}

/// The first position from `j` on of a name in `o` with no module in
/// `ms`, or -1.
pub open spec fn first_unknown(ms: Seq<ModuleInfo>, o: Seq<Seq<char>>, j: int) -> int
    decreases o.len() - j,
{
    if j < 0 || j >= o.len() {
        -1
    } else if find_module(ms, o[j], None) < 0 {
        j
    } else {
        first_unknown(ms, o, j + 1)
    }
}

/// Whether `r` is what looking up the names of a load order gives: the
/// first module of each name, or the error for the first name with none.
pub open spec fn modules_for_order(
    ms: Seq<ModuleInfo>,
    o: Seq<Seq<char>>,
    r: CompositionResult<Vec<ModuleInfo>>,
) -> bool {
    let u = first_unknown(ms, o, 0);
    if u < 0 {
        r matches Ok(v) && v@.len() == o.len() && forall|j: int|
            0 <= j < o.len() ==> #[trigger] same_module(v@[j], ms[find_module(ms, o[j], None)])
    } else {
        r matches Err(CompositionError::ModuleNotFound(m)) && m@ == not_found_message(o[u], None)
    }
}

/// A module of a registry index, as the fields that installing reads:
/// its `name` where that is text; `download_url` where the key is present
/// (with its text, where it is text); `url` where that is text.
#[derive(Debug, Clone)]
pub struct RegistryEntry {
    pub name: Option<String>,
    pub download_url: Option<Option<String>>,
    pub url: Option<String>,
}

/// An optional text as characters.
pub open spec fn opt_chars(s: Option<String>) -> Option<Seq<char>> {
    match s {
        Some(v) => Some(v@),
        None => None,
    }
}

/// The first entry from `i` on named `n`, or -1.
pub open spec fn entry_named_from(es: Seq<RegistryEntry>, n: Seq<char>, i: int) -> int
    decreases es.len() - i,
{
    if i < 0 || i >= es.len() {
        -1
    } else if opt_chars(es[i].name) == Some(n) {
        i
    } else {
        entry_named_from(es, n, i + 1)
    }
}

/// The module that installing from a registry index picks, as its name
/// and download address, or the message of the error: none for an empty
/// index; the first entry with the given name (or the first entry); its
/// name, and its `download_url`, or its `url` where `download_url` is
/// absent.
pub open spec fn registry_choice(es: Seq<RegistryEntry>, name: Option<Seq<char>>) -> Result<
    (Seq<char>, Seq<char>),
    Seq<char>,
> {
    if es.len() == 0 {
        Err("Registry has no modules"@)
    } else {
        let i = match name {
            Some(n) => entry_named_from(es, n, 0),
            None => 0,
        };
        if i < 0 {
            Err("Module '"@ + name.unwrap() + "' not found in registry"@)
        } else {
            let e = es[i];
            let address = match e.download_url {
                Some(d) => opt_chars(d),
                None => opt_chars(e.url),
            };
            match (opt_chars(e.name), address) {
                (None, _) => Err("Module missing 'name'"@),
                (Some(_), None) => Err("Module missing download_url"@),
                (Some(n), Some(a)) => Ok((n, a)),
            }
        }
    }
}

/// The message when no module matches.
pub open spec fn not_found_message(name: Seq<char>, version: Option<Seq<char>>) -> Seq<char> {
    match version {
        Some(v) => "Module "@ + name + " version "@ + v + " not found"@,
        None => "Module "@ + name + " not found"@,
    }
}

/// Whether an error is `InstallationFailed` with message `m`.
pub open spec fn is_install_error(e: CompositionError, m: Seq<char>) -> bool {
    e matches CompositionError::InstallationFailed(x) && x@ == m
}

/// Module registry for managing module lifecycle.
pub struct ModuleRegistry {
    /// Base directory for modules
    modules_dir: String,
    /// Discovered modules cache
    discovered: Vec<ModuleInfo>,
}

/// Pick the module to install from a registry index: the first entry with
/// the given name, or the first entry, with its name and its download
/// address (`download_url`, or `url` where that key is absent).
pub fn select_registry_module(entries: &Vec<RegistryEntry>, name: Option<&str>) -> (r: CompositionResult<
    (String, String),
>)
    ensures
        registry_choice(entries@, opt_text(name)) matches Ok((n, a)) ==> (r matches Ok((rn, ra))
            && rn@ == n && ra@ == a),
        registry_choice(entries@, opt_text(name)) matches Err(m) ==> (r matches Err(
            CompositionError::InstallationFailed(e),
        ) && e@ == m),
{
    if entries.len() == 0 {
        return Err(CompositionError::InstallationFailed(string_of("Registry has no modules")));
    }
    let ghost es = entries@;
    let mut i: usize = 0;
    if let Some(n) = name {
        let mut found = false;
        while i < entries.len() && !found
            invariant
                i <= es.len(),
                es == entries@,
                found ==> i < es.len() && entry_named_from(es, n@, 0) == i as int,
                !found ==> entry_named_from(es, n@, 0) == entry_named_from(es, n@, i as int),
            decreases es.len() - i, if found { 0int } else { 1int },
        {
            let hit = match &entries[i].name {
                Some(en) => text_eq(en.as_str(), n),
                None => false,
            };
            if hit {
                found = true;
            } else {
                i = i + 1;
            }
        }
        if !found {
            let a = concat_str("Module '", n);
            return Err(CompositionError::InstallationFailed(concat_str(a.as_str(), "' not found in registry")));
        }
    }
    let e = &entries[i];
    let address = match &e.download_url {
        Some(d) => d,
        None => &e.url,
    };
    match (&e.name, address) {
        (None, _) => Err(CompositionError::InstallationFailed(string_of("Module missing 'name'"))),
        (Some(_), None) => Err(
            CompositionError::InstallationFailed(string_of("Module missing download_url")),
        ),
        (Some(n), Some(a)) => Ok((n.clone(), a.clone())),
    }
}

impl ModuleRegistry {
    /// The modules discovered last, in the order found.
    pub closed spec fn modules(&self) -> Seq<ModuleInfo> {
        self.discovered@
    }

    /// The modules directory.
    pub closed spec fn dir(&self) -> Seq<char> {
        self.modules_dir@
    }

    /// Create a new module registry over a modules directory; nothing is
    /// discovered yet.
    pub fn new(modules_dir: &str) -> (r: Self)
        ensures
            r.modules() == Seq::<ModuleInfo>::empty(),
            r.dir() == modules_dir@,
    {
        ModuleRegistry { modules_dir: string_of(modules_dir), discovered: Vec::new() }
    }

    /// The modules directory.
    pub fn modules_dir(&self) -> (r: &str)
        ensures
            r@ == self.dir(),
    {
        self.modules_dir.as_str()
    }

    /// Record the modules found by a discovery of the modules directory,
    /// and give them back.
    pub fn record_discovered(&mut self, modules: Vec<ModuleInfo>) -> (r: Vec<ModuleInfo>)
        ensures
            final(self).modules() == modules@,
            final(self).dir() == old(self).dir(),
            same_modules(r@, modules@),
    {
        self.discovered = modules;
        copy_modules(&self.discovered)
    }

    /// Get module by name and optional version: the first discovered
    /// module with that name (and that version, where one is given).
    pub fn get_module(&self, name: &str, version: Option<&str>) -> (r: CompositionResult<ModuleInfo>)
        ensures
            find_module(self.modules(), name@, opt_text(version)) >= 0 ==> (r matches Ok(m)
                && same_module(m, self.modules()[find_module(self.modules(), name@, opt_text(version))])),
            find_module(self.modules(), name@, opt_text(version)) < 0 ==> (r matches Err(
                CompositionError::ModuleNotFound(msg),
            ) && msg@ == not_found_message(name@, opt_text(version))),
    {
        let ghost ms = self.modules();
        let mut i: usize = 0;
        while i < self.discovered.len()
            invariant
                i <= ms.len(),
                ms == self.discovered@,
                find_from(ms, name@, opt_text(version), 0) == find_from(ms, name@, opt_text(version), i as int),
            decreases ms.len() - i,
        {
            let m = &self.discovered[i];
            let found = text_eq(m.name.as_str(), name) && match version {
                Some(v) => text_eq(m.version.as_str(), v),
                None => true,
            };
            if found {
                return Ok(m.clone());
            }
            i = i + 1;
        }
        let msg = match version {
            Some(v) => {
                let a = concat_str("Module ", name);
                let b = concat_str(a.as_str(), " version ");
                let c = concat_str(b.as_str(), v);
                concat_str(c.as_str(), " not found")
            },
            None => {
                let a = concat_str("Module ", name);
                concat_str(a.as_str(), " not found")
            },
        };
        Err(CompositionError::ModuleNotFound(msg))
    }

    /// Resolve the dependencies of the named modules among those that a
    /// discovery found (each by name and the names it depends on): the
    /// modules in load order, each the first registered module of its name.
    /// A missing dependency or a cycle fails the resolution; a name in the
    /// load order with no registered module fails with the first such name.
    pub fn resolve_dependencies(&self, discovered: Vec<(String, Vec<String>)>, names: &Vec<String>) -> (r:
        CompositionResult<Vec<ModuleInfo>>)
        ensures
            ({
                let req = requested_modules(deps_view(discovered@), names_view(names@));
                &&& !resolvable(req) ==> (r matches Err(CompositionError::DependencyResolutionFailed(m))
                    && resolution_failure(req, m@))
                &&& resolvable(req) ==> exists|o: Seq<Seq<char>>|
                    is_load_order(req, o) && #[trigger] modules_for_order(self.modules(), o, r)
            }),
    {
        let requested = select_requested(discovered, names);
        let order = match resolve_load_order(&requested) {
            Ok(o) => o,
            Err(m) => {
                return Err(CompositionError::from_module_error(NodeModuleError::DependencyMissing(m)));
            },
        };
        let ghost o = order@.map_values(|s: String| s@);
        let ghost ms = self.modules();
        let ghost req = requested_modules(deps_view(discovered@), names_view(names@));
        assert(resolvable(req) && is_load_order(req, o));
        let mut resolved: Vec<ModuleInfo> = Vec::new();
        let mut j: usize = 0;
        while j < order.len()
            invariant
                j <= order@.len(),
                o == order@.map_values(|s: String| s@),
                ms == self.modules(),
                req == requested_modules(deps_view(discovered@), names_view(names@)),
                resolvable(req),
                is_load_order(req, o),
                first_unknown(ms, o, 0) == first_unknown(ms, o, j as int),
                resolved@.len() == j,
                forall|i: int| 0 <= i < j ==> find_module(ms, #[trigger] o[i], None) >= 0,
                forall|i: int|
                    0 <= i < j ==> same_module(#[trigger] resolved@[i], ms[find_module(ms, o[i], None)]),
            decreases order@.len() - j,
        {
            let name = order[j].as_str();
            assert(name@ == o[j as int]);
            assert(opt_text(None) == None::<Seq<char>>);
            let m = match self.get_module(name, None) {
                Ok(m) => m,
                Err(e) => {
                    let r: CompositionResult<Vec<ModuleInfo>> = Err(e);
                    proof {
                        assert(first_unknown(ms, o, 0) == j as int);
                        assert(modules_for_order(ms, o, r));
                    }
                    return r;
                },
            };
            assert(find_module(ms, o[j as int], None) >= 0);
            assert(same_module(m, ms[find_module(ms, o[j as int], None)]));
            let ghost before = resolved@;
            resolved.push(m);
            proof {
                assert forall|i: int| 0 <= i < j + 1 implies same_module(
                    #[trigger] resolved@[i],
                    ms[find_module(ms, o[i], None)],
                ) by {
                    if i < j {
                        assert(resolved@[i] == before[i]);
                    } else {
                        assert(resolved@[i] == m);
                    }
                }
            }
            j = j + 1;
        }
        let r: CompositionResult<Vec<ModuleInfo>> = Ok(resolved);
        proof {
            assert(first_unknown(ms, o, 0) == -1);
            assert(modules_for_order(ms, o, r));
        }
        r
    }

    /// List all installed modules.
    pub fn list_modules(&self) -> (r: Vec<ModuleInfo>)
        ensures
            same_modules(r@, self.modules()),
    {
        copy_modules(&self.discovered)
    }

    /// Installing from a registry needs the registry support, which this
    /// build does not have.
    pub fn install_from_registry(&mut self, url: &str, name: Option<&str>) -> (r: CompositionResult<
        ModuleInfo,
    >)
        ensures
            r matches Err(e) && is_install_error(
                e,
                "Registry installation requires 'registry' feature (reqwest)"@,
            ),
            final(self).modules() == old(self).modules(),
            final(self).dir() == old(self).dir(),
    {
        Err(
            CompositionError::InstallationFailed(
                string_of("Registry installation requires 'registry' feature (reqwest)"),
            ),
        )
    }

    /// Installing from git needs the git support, which this build does
    /// not have.
    pub fn install_from_git(&mut self, url: &str, tag: Option<&str>) -> (r: CompositionResult<
        ModuleInfo,
    >)
        ensures
            r matches Err(e) && is_install_error(e, "Git installation requires 'git' feature (git2)"@),
            final(self).modules() == old(self).modules(),
            final(self).dir() == old(self).dir(),
    {
        Err(
            CompositionError::InstallationFailed(
                string_of("Git installation requires 'git' feature (git2)"),
            ),
        )
    }

    /// The module that an install from a local path gives: the first
    /// module discovered at that path.
    pub fn module_at_path(found: &Vec<ModuleInfo>) -> (r: CompositionResult<ModuleInfo>)
        ensures
            found@.len() > 0 ==> (r matches Ok(m) && same_module(m, found@[0])),
            found@.len() == 0 ==> (r matches Err(e) && is_install_error(e, "No module found at path"@)),
    {
        if found.len() == 0 {
            return Err(CompositionError::InstallationFailed(string_of("No module found at path")));
        }
        Ok(found[0].clone())
    }

    /// Update module to new version: the module must be discovered and
    /// have a directory; `source_file` is what reading its install record
    /// gave. Updating from git or from a registry needs support that this
    /// build does not have, so every update is refused with the reason.
    pub fn update_module(
        &mut self,
        name: &str,
        new_version: Option<&str>,
        source_file: CompositionResult<Option<ModuleSourceFile>>,
    ) -> (r: CompositionResult<ModuleInfo>)
        ensures
            final(self).modules() == old(self).modules(),
            final(self).dir() == old(self).dir(),
            ({
                let ms = old(self).modules();
                let i = find_module(ms, name@, None);
                &&& i < 0 ==> (r matches Err(CompositionError::ModuleNotFound(msg)) && msg@
                    == not_found_message(name@, None))
                &&& (i >= 0 && ms[i].directory is None) ==> (r matches Err(e) && is_install_error(
                    e,
                    "Module has no directory"@,
                ))
                &&& (i >= 0 && ms[i].directory is Some) ==> match source_file {
                    Err(e) => r matches Err(x) && x == e,
                    Ok(Some(f)) => if f.source@ == "git"@ {
                        r matches Err(e) && is_install_error(
                            e,
                            "Module update from git requires 'git' feature"@,
                        )
                    } else if f.source@ == "registry"@ {
                        r matches Err(e) && is_install_error(
                            e,
                            "Module update from registry requires 'registry' feature"@,
                        )
                    } else {
                        r matches Err(e) && is_install_error(
                            e,
                            "Module has no install source (.blvm-source.json). Reinstall from registry or git."@,
                        )
                    },
                    Ok(None) => r matches Err(e) && is_install_error(
                        e,
                        "Module has no install source (.blvm-source.json). Reinstall from registry or git."@,
                    ),
                }
            }),
    {
        let current = match self.get_module(name, None) {
            Ok(m) => m,
            Err(e) => {
                return Err(e);
            },
        };
        if current.directory.is_none() {
            return Err(CompositionError::InstallationFailed(string_of("Module has no directory")));
        }
        match source_file {
            Err(e) => {
                return Err(e);
            },
            Ok(Some(f)) => {
                if text_eq(f.source.as_str(), "git") {
                    return Err(
                        CompositionError::InstallationFailed(
                            string_of("Module update from git requires 'git' feature"),
                        ),
                    );
                }
                if text_eq(f.source.as_str(), "registry") {
                    return Err(
                        CompositionError::InstallationFailed(
                            string_of("Module update from registry requires 'registry' feature"),
                        ),
                    );
                }
            },
            Ok(None) => {},
        }
        Err(
            CompositionError::InstallationFailed(
                string_of(
                    "Module has no install source (.blvm-source.json). Reinstall from registry or git.",
                ),
            ),
        )
    }
}

/// Whether `s` starts with `p`.
pub open spec fn has_prefix(s: Seq<char>, p: Seq<char>) -> bool {
    s.len() >= p.len() && s.take(p.len() as int) == p
}

/// Whether `p` occurs in `s`.
pub open spec fn has_infix(s: Seq<char>, p: Seq<char>) -> bool {
    exists|i: int| 0 <= i <= s.len() - p.len() && #[trigger] s.subrange(i, i + p.len()) == p
}

/// Whether `s` starts with `p`.
fn starts_with(s: &str, p: &str) -> (r: bool)
    ensures
        r == has_prefix(s@, p@),
{
    let n = s.unicode_len();
    let m = p.unicode_len();
    if n < m {
        return false;
    }
    let mut i: usize = 0;
    while i < m
        invariant
            n == s@.len(),
            m == p@.len(),
            m <= n,
            i <= m,
            forall|j: int| 0 <= j < i ==> s@[j] == p@[j],
        decreases m - i,
    {
        if s.get_char(i) != p.get_char(i) {
            proof {
                assert(s@.take(m as int)[i as int] != p@[i as int]);
            }
            return false;
        }
        i = i + 1;
    }
    assert(s@.take(m as int) =~= p@);
    true
}

/// Whether `p` occurs in `s`.
fn contains_text(s: &str, p: &str) -> (r: bool)
    ensures
        r == has_infix(s@, p@),
{
    let n = s.unicode_len();
    let m = p.unicode_len();
    if n < m {
        proof {
            assert forall|i: int| 0 <= i <= s@.len() - p@.len() implies #[trigger] s@.subrange(i, i + p@.len()) != p@ by {}
        }
        return false;
    }
    let mut i: usize = 0;
    while i <= n - m
        invariant
            n == s@.len(),
            m == p@.len(),
            m <= n,
            i <= n - m + 1,
            forall|j: int| 0 <= j < i ==> #[trigger] s@.subrange(j, j + m) != p@,
        decreases n - m + 1 - i,
    {
        let mut k: usize = 0;
        let mut same = true;
        while k < m
            invariant
                n == s@.len(),
                m == p@.len(),
                i + m <= n,
                k <= m,
                same == (forall|j: int| 0 <= j < k ==> s@[i + j] == p@[j]),
            decreases m - k,
        {
            if s.get_char(i + k) != p.get_char(k) {
                same = false;
            }
            k = k + 1;
        }
        if same {
            assert(s@.subrange(i as int, i + m) =~= p@);
            return true;
        }
        proof {
            let j = choose|j: int| 0 <= j < m && s@[i + j] != p@[j];
            assert(s@.subrange(i as int, i + m)[j] != p@[j]);
        }
        i = i + 1;
    }
    false
}

/// The source that a module source argument names: an `http://` or
/// `https://` URL is a registry, a `git+` URL or a GitHub address a git
/// repository, anything else a local path.
pub open spec fn source_kind(s: Seq<char>) -> int {
    if has_prefix(s, "http://"@) || has_prefix(s, "https://"@) {
        0
    } else if has_prefix(s, "git+"@) || has_infix(s, "github.com"@) {
        1
    } else {
        2
    }
}

/// The module source that an install argument names.
pub fn classify_module_source(source: String) -> (r: ModuleSource)
    ensures
        source_kind(source@) == 0 ==> (r matches ModuleSource::Registry { url, name } && url@
            == source@ && name is None),
        source_kind(source@) == 1 ==> (r matches ModuleSource::Git { url, tag } && url@ == source@
            && tag is None),
        source_kind(source@) == 2 ==> (r matches ModuleSource::Path(p) && p@ == source@),
{
    let s = source.as_str();
    if starts_with(s, "http://") || starts_with(s, "https://") {
        ModuleSource::Registry { url: source, name: None }
    } else if starts_with(s, "git+") || contains_text(s, "github.com") {
        ModuleSource::Git { url: source, tag: None }
    } else {
        ModuleSource::Path(source)
    }
}

/// Where a registry serves a module's archive: the base URL without its
/// trailing slashes, then `/modules/{name}-{version}.tar.gz`.
pub open spec fn download_url_text(base: Seq<char>, name: Seq<char>, version: Seq<char>) -> Seq<char> {
    trim_end(base, '/') + "/modules/"@ + name + "-"@ + version + ".tar.gz"@
}

/// Where a registry serves a module's archive.
pub fn registry_download_url(base: &str, name: &str, version: &str) -> (r: String)
    ensures
        r@ == download_url_text(base@, name@, version@),
{
    let b = trim_end_char(base, '/');
    let a1 = concat_str(b.as_str(), "/modules/");
    let a2 = concat_str(a1.as_str(), name);
    let a3 = concat_str(a2.as_str(), "-");
    let a4 = concat_str(a3.as_str(), version);
    concat_str(a4.as_str(), ".tar.gz")
}

} // verus!
