//! Validation of a node composition against the registry: every enabled
//! module must be discovered, and the resolved dependencies are gathered.

use vstd::prelude::*;

use crate::composition::registry::{
    find_from, find_module, matches_query, not_found_message, opt_text, ModuleRegistry,
};
use crate::composition::types::{
    error_text, same_module, same_modules, CompositionResult, ModuleInfo,
    ModuleSpec, NodeSpec, ValidationResult,
};
use crate::text::{concat_str, text_eq};

verus! {

/// The optional version of a module spec as characters.
pub open spec fn spec_version(s: ModuleSpec) -> Option<Seq<char>> {
    match s.version {
        Some(v) => Some(v@),
        None => None,
    }
}

/// The names of the enabled module specs, in order.
pub open spec fn enabled_names(specs: Seq<ModuleSpec>) -> Seq<Seq<char>>
    decreases specs.len(),
{
    if specs.len() == 0 {
        Seq::empty()
    } else if specs.last().enabled {
        enabled_names(specs.drop_last()).push(specs.last().name@)
    } else {
        enabled_names(specs.drop_last())
    }
}

/// The error for an enabled module spec that matches no discovered module.
pub open spec fn missing_module_error(s: ModuleSpec) -> Seq<char> {
    "Module '"@ + s.name@ + "' not found: "@ + "Module not found: "@ + not_found_message(
        s.name@,
        spec_version(s),
    )
}

/// The errors for the enabled module specs that match no discovered
/// module, in order.
pub open spec fn missing_errors(ms: Seq<ModuleInfo>, specs: Seq<ModuleSpec>) -> Seq<Seq<char>>
    decreases specs.len(),
{
    if specs.len() == 0 {
        Seq::empty()
    } else {
        let s = specs.last();
        let rest = missing_errors(ms, specs.drop_last());
        if s.enabled && find_module(ms, s.name@, spec_version(s)) < 0 {
            rest.push(missing_module_error(s))
        } else {
            rest
        }
    }
}

/// The discovered modules that the enabled module specs match, in order.
pub open spec fn found_modules(ms: Seq<ModuleInfo>, specs: Seq<ModuleSpec>) -> Seq<ModuleInfo>
    decreases specs.len(),
{
    if specs.len() == 0 {
        Seq::empty()
    } else {
        let s = specs.last();
        let rest = found_modules(ms, specs.drop_last());
        let i = find_module(ms, s.name@, spec_version(s));
        if s.enabled && i >= 0 {
            rest.push(ms[i])
        } else {
            rest
        }
    }
}

/// Whether some module of the list has the name.
pub open spec fn has_name(ds: Seq<ModuleInfo>, name: Seq<char>) -> bool {
    exists|k: int| 0 <= k < ds.len() && (#[trigger] ds[k]).name@ == name
}

/// The dependencies after adding, in order, each resolved module whose
/// name is not yet among them.
pub open spec fn merge_resolved(ds: Seq<ModuleInfo>, resolved: Seq<ModuleInfo>) -> Seq<ModuleInfo>
    decreases resolved.len(),
{
    if resolved.len() == 0 {
        ds
    } else {
        let d = merge_resolved(ds, resolved.drop_last());
        if has_name(d, resolved.last().name@) {
            d
        } else {
            d.push(resolved.last())
        }
    }
}

/// The texts of a list of strings.
pub open spec fn texts(v: Seq<String>) -> Seq<Seq<char>> {
    v.map_values(|s: String| s@)
}

/// Whether a discovered module fits a module spec: the same name, and the
/// same version where the spec names one.
pub open spec fn fits_spec(m: ModuleInfo, s: ModuleSpec) -> bool {
    m.name@ == s.name@ && match s.version {
        Some(v) => m.version@ == v@,
        None => true,
    }
}

/// The registry's lookup finds a module exactly when one matches, and what
/// it finds matches.
proof fn lemma_find_from(ms: Seq<ModuleInfo>, name: Seq<char>, version: Option<Seq<char>>, i: int)
    requires
        0 <= i,
    ensures
        find_from(ms, name, version, i) >= 0 <==> exists|j: int|
            i <= j < ms.len() && matches_query(#[trigger] ms[j], name, version),
        find_from(ms, name, version, i) >= 0 ==> i <= find_from(ms, name, version, i) < ms.len()
            && matches_query(ms[find_from(ms, name, version, i)], name, version),
    decreases ms.len() - i,
{
    if i < ms.len() && !matches_query(ms[i], name, version) {
        lemma_find_from(ms, name, version, i + 1);
        if exists|j: int| i <= j < ms.len() && matches_query(#[trigger] ms[j], name, version) {
            let j = choose|j: int| i <= j < ms.len() && matches_query(#[trigger] ms[j], name, version);
            assert(j != i);
        }
    }
}

/// What one more module spec adds to a validation: a disabled one
/// nothing; an enabled one, where a discovered module fits it (name, and
/// version where given), that module to the dependencies and no error;
/// where none fits, the not-found error for it and no dependency. A module
/// of another version never stands in for the one asked for.
pub proof fn lemma_validation_step(ms: Seq<ModuleInfo>, specs: Seq<ModuleSpec>, s: ModuleSpec)
    ensures
        !s.enabled ==> missing_errors(ms, specs.push(s)) == missing_errors(ms, specs)
            && found_modules(ms, specs.push(s)) == found_modules(ms, specs),
        s.enabled && (exists|j: int| 0 <= j < ms.len() && fits_spec(#[trigger] ms[j], s)) ==> ({
            let f = found_modules(ms, specs.push(s));
            &&& missing_errors(ms, specs.push(s)) == missing_errors(ms, specs)
            &&& f.len() == found_modules(ms, specs).len() + 1
            &&& f.drop_last() == found_modules(ms, specs)
            &&& fits_spec(f.last(), s)
            &&& ms.contains(f.last())
        }),
        s.enabled && !(exists|j: int| 0 <= j < ms.len() && fits_spec(#[trigger] ms[j], s)) ==> (
        found_modules(ms, specs.push(s)) == found_modules(ms, specs) && missing_errors(
            ms,
            specs.push(s),
        ) == missing_errors(ms, specs).push(
            "Module '"@ + s.name@ + "' not found: "@ + "Module not found: "@ + not_found_message(
                s.name@,
                spec_version(s),
            ),
        )),
{
    let more = specs.push(s);
    assert(more.drop_last() =~= specs);
    assert(more.last() == s);
    lemma_find_from(ms, s.name@, spec_version(s), 0);
    assert forall|j: int| 0 <= j < ms.len() implies (matches_query(ms[j], s.name@, spec_version(s))
        <==> fits_spec(#[trigger] ms[j], s)) by {}
    let i = find_module(ms, s.name@, spec_version(s));
    if s.enabled && i >= 0 {
        let f = found_modules(ms, more);
        assert(f.last() == ms[i]);
        assert(f.drop_last() =~= found_modules(ms, specs));
        assert(ms.contains(ms[i]));
    }
}

/// Every module that validation gathers fits an enabled module spec (name,
/// and version where given) and is a discovered module.
pub proof fn lemma_found_modules_fit(ms: Seq<ModuleInfo>, specs: Seq<ModuleSpec>)
    ensures
        forall|j: int|
            0 <= j < found_modules(ms, specs).len() ==> ms.contains(#[trigger] found_modules(ms, specs)[j])
                && exists|k: int| 0 <= k < specs.len() && specs[k].enabled && fits_spec(
                found_modules(ms, specs)[j],
                #[trigger] specs[k],
            ),
    decreases specs.len(),
{
    if specs.len() > 0 {
        let pre = specs.drop_last();
        let s = specs.last();
        lemma_found_modules_fit(ms, pre);
        lemma_validation_step(ms, pre, s);
        assert(pre.push(s) =~= specs);
        let f = found_modules(ms, specs);
        let g = found_modules(ms, pre);
        assert forall|j: int| 0 <= j < f.len() implies ms.contains(#[trigger] f[j]) && exists|k: int|
            0 <= k < specs.len() && specs[k].enabled && fits_spec(f[j], #[trigger] specs[k]) by {
            if j < g.len() {
                assert(f[j] == g[j]);
                let k = choose|k: int| 0 <= k < pre.len() && pre[k].enabled && fits_spec(g[j], #[trigger] pre[k]);
                assert(specs[k] == pre[k]);
            } else {
                assert(specs[specs.len() - 1] == s);
            }
        }
    }
}

/// An enabled module spec that no discovered module fits (for instance one
/// naming a version that is not installed, even where another version is)
/// makes the validation report an error, so the composition is invalid.
pub proof fn lemma_unfit_spec_invalid(ms: Seq<ModuleInfo>, specs: Seq<ModuleSpec>, k: int)
    requires
        0 <= k < specs.len(),
        specs[k].enabled,
        forall|j: int| 0 <= j < ms.len() ==> !fits_spec(#[trigger] ms[j], specs[k]),
    ensures
        missing_errors(ms, specs).len() > 0,
    decreases specs.len(),
{
    let pre = specs.drop_last();
    let s = specs.last();
    lemma_validation_step(ms, pre, s);
    assert(pre.push(s) =~= specs);
    if k < specs.len() - 1 {
        assert(pre[k] == specs[k]);
        lemma_unfit_spec_invalid(ms, pre, k);
        lemma_missing_grows(ms, pre, s);
    }
}

/// Validation never takes back an error: one more spec keeps every error.
proof fn lemma_missing_grows(ms: Seq<ModuleInfo>, specs: Seq<ModuleSpec>, s: ModuleSpec)
    ensures
        missing_errors(ms, specs.push(s)).len() >= missing_errors(ms, specs).len(),
{
    lemma_validation_step(ms, specs, s);
}

/// The names of the enabled modules of a node spec, in order.
pub fn enabled_module_names(spec: &NodeSpec) -> (r: Vec<String>)
    ensures
        texts(r@) == enabled_names(spec.modules@),
{
    let mut r: Vec<String> = Vec::new();
    let mut i: usize = 0;
    while i < spec.modules.len()
        invariant
            i <= spec.modules@.len(),
            texts(r@) == enabled_names(spec.modules@.take(i as int)),
        decreases spec.modules@.len() - i,
    {
        proof {
            assert(spec.modules@.take(i + 1).drop_last() =~= spec.modules@.take(i as int));
        }
        let ghost before = r@;
        if spec.modules[i].enabled {
            r.push(spec.modules[i].name.clone());
            assert(texts(r@) =~= texts(before).push(spec.modules@[i as int].name@));
        }
        i = i + 1;
    }
    assert(spec.modules@.take(i as int) =~= spec.modules@);
    r
}

/// Whether some module of the list has the name.
fn contains_name(ds: &Vec<ModuleInfo>, name: &String) -> (r: bool)
    ensures
        r == has_name(ds@, name@),
{
    let mut k: usize = 0;
    while k < ds.len()
        invariant
            k <= ds@.len(),
            forall|j: int| 0 <= j < k ==> (#[trigger] ds@[j]).name@ != name@,
        decreases ds@.len() - k,
    {
        if text_eq(ds[k].name.as_str(), name.as_str()) {
            return true;
        }
        k = k + 1;
    }
    false
}

/// Validate a node composition specification: every enabled module must
/// be discovered (with its version, where one is given); the matched
/// modules, then each resolved dependency not yet among them by name,
/// are the dependencies. `resolution` is what resolving the enabled
/// module names gave. The composition is valid when there is no error.
pub fn validate_composition(
    spec: &NodeSpec,
    registry: &ModuleRegistry,
    resolution: CompositionResult<Vec<ModuleInfo>>,
) -> (r: CompositionResult<ValidationResult>)
    ensures
        r matches Ok(v) && ({
            let ms = registry.modules();
            let found = found_modules(ms, spec.modules@);
            let missing = missing_errors(ms, spec.modules@);
            &&& v.warnings@.len() == 0
            &&& v.valid == (v.errors@.len() == 0)
            &&& resolution matches Ok(resolved) ==> texts(v.errors@) == missing && same_modules(
                v.dependencies@,
                merge_resolved(found, resolved@),
            )
            &&& resolution matches Err(e) ==> v.errors@.len() == missing.len() + 1 && texts(
                v.errors@,
            ).take(missing.len() as int) == missing && same_modules(v.dependencies@, found) && (
            !(e is IoError) ==> v.errors@.last()@ == "Dependency resolution failed: "@ + error_text(
                e,
            ))
        }),
{
    let ghost ms = registry.modules();
    let mut errors: Vec<String> = Vec::new();
    let warnings: Vec<String> = Vec::new();
    let mut dependencies: Vec<ModuleInfo> = Vec::new();
    let mut i: usize = 0;
    while i < spec.modules.len()
        invariant
            i <= spec.modules@.len(),
            ms == registry.modules(),
            texts(errors@) == missing_errors(ms, spec.modules@.take(i as int)),
            same_modules(dependencies@, found_modules(ms, spec.modules@.take(i as int))),
        decreases spec.modules@.len() - i,
    {
        proof {
            assert(spec.modules@.take(i + 1).drop_last() =~= spec.modules@.take(i as int));
            assert(spec.modules@.take(i + 1).last() == spec.modules@[i as int]);
        }
        let module_spec = &spec.modules[i];
        if module_spec.enabled {
            let version: Option<&str> = match &module_spec.version {
                Some(v) => Some(v.as_str()),
                None => None,
            };
            assert(opt_text(version) == spec_version(*module_spec));
            match registry.get_module(module_spec.name.as_str(), version) {
                Ok(info) => {
                    let ghost before = dependencies@;
                    dependencies.push(info);
                    assert forall|j: int| 0 <= j < dependencies@.len() implies same_module(
                        #[trigger] dependencies@[j],
                        found_modules(ms, spec.modules@.take(i + 1))[j],
                    ) by {
                        if j < before.len() {
                            assert(dependencies@[j] == before[j]);
                        }
                    }
                },
                Err(e) => {
                    let t = e.to_text();
                    let a = concat_str("Module '", module_spec.name.as_str());
                    let b = concat_str(a.as_str(), "' not found: ");
                    let msg = concat_str(b.as_str(), t.as_str());
                    assert(msg@ =~= missing_module_error(*module_spec));
                    let ghost before = errors@;
                    errors.push(msg);
                    assert(texts(errors@) =~= texts(before).push(msg@));
                },
            }
        }
        i = i + 1;
    }
    proof {
        assert(spec.modules@.take(i as int) =~= spec.modules@);
    }
    let ghost found = found_modules(ms, spec.modules@);
    match resolution {
        Ok(resolved) => {
            let mut k: usize = 0;
            while k < resolved.len()
                invariant
                    k <= resolved@.len(),
                    same_modules(dependencies@, merge_resolved(found, resolved@.take(k as int))),
                decreases resolved@.len() - k,
            {
                proof {
                    assert(resolved@.take(k + 1).drop_last() =~= resolved@.take(k as int));
                    assert(resolved@.take(k + 1).last() == resolved@[k as int]);
                }
                let ghost d = merge_resolved(found, resolved@.take(k as int));
                let present = contains_name(&dependencies, &resolved[k].name);
                proof {
                    if present {
                        let w = choose|j: int| 0 <= j < dependencies@.len() && (#[trigger] dependencies@[j]).name@ == resolved@[k as int].name@;
                        assert(same_module(dependencies@[w], d[w]));
                        assert(d[w].name@ == resolved@[k as int].name@);
                    } else {
                        assert forall|j: int| 0 <= j < d.len() implies (#[trigger] d[j]).name@ != resolved@[k as int].name@ by {
                            assert(same_module(dependencies@[j], d[j]));
                        }
                    }
                }
                if !present {
                    let ghost before = dependencies@;
                    dependencies.push(resolved[k].clone());
                    assert forall|j: int| 0 <= j < dependencies@.len() implies same_module(
                        #[trigger] dependencies@[j],
                        d.push(resolved@[k as int])[j],
                    ) by {
                        if j < before.len() {
                            assert(dependencies@[j] == before[j]);
                        }
                    }
                }
                k = k + 1;
            }
            proof {
                assert(resolved@.take(k as int) =~= resolved@);
            }
        },
        Err(e) => {
            let t = e.to_text();
            let msg = concat_str("Dependency resolution failed: ", t.as_str());
            let ghost before = errors@;
            errors.push(msg);
            assert(texts(errors@).take(before.len() as int) =~= texts(before));
        },
    }
    let valid = errors.len() == 0;
    Ok(ValidationResult { valid, errors, warnings, dependencies })
}

} // verus!
