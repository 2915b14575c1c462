//! Migration planning for module databases: the schema version that a
//! database records, which migrations run and in what order, and which
//! storage backend a setting names. Running the migrations against the
//! database is the caller's part.

use vstd::prelude::*;

use crate::module::cli_args::{lower_text, lowercase};
use crate::text::{parse_u32, parse_u32_spec, text_eq};

verus! {

/// The text that bytes hold as UTF-8, or none where they are not UTF-8.
pub uninterp spec fn utf8_decode(bytes: Seq<u8>) -> Option<Seq<char>>;

/// Whether every byte is ASCII.
pub open spec fn is_ascii_bytes(b: Seq<u8>) -> bool {
    forall|i: int| 0 <= i < b.len() ==> #[trigger] b[i] < 128
}

/// The characters of ASCII bytes, each the character of its value.
pub open spec fn ascii_chars(b: Seq<u8>) -> Seq<char> {
    b.map_values(|x: u8| x as char)
}

/// The text that bytes hold as UTF-8: ASCII bytes are their characters;
/// beyond ASCII, what UTF-8 decoding gives, or none where they are not
/// UTF-8.
pub open spec fn utf8_text_of(b: Seq<u8>) -> Option<Seq<char>> {
    if is_ascii_bytes(b) {
        Some(ascii_chars(b))
    } else {
        utf8_decode(b)
    }
}

/// `String::from_utf8`; ASCII bytes are valid UTF-8, each the character of
/// its value.
#[verifier::external_body]
fn utf8_text(bytes: &[u8]) -> (r: Option<String>)
    ensures
        r matches Some(s) ==> utf8_decode(bytes@) == Some(s@),
        r is None ==> utf8_decode(bytes@) is None,
        is_ascii_bytes(bytes@) ==> r is Some,
        r matches Some(s) ==> (is_ascii_bytes(bytes@) ==> s@ == ascii_chars(bytes@)),
{
    String::from_utf8(bytes.to_vec()).ok()
}

/// The schema version that a stored value records: its UTF-8 text read
/// as a decimal `u32`, or 0 when there is none or it is not one.
pub open spec fn recorded_version(stored: Option<Seq<u8>>) -> u32 {
    match stored {
        Some(b) => match utf8_text_of(b) {
            Some(t) => match parse_u32_spec(t) {
                Some(v) => v,
                None => 0,
            },
            None => 0,
        },
        None => 0,
    }
}

/// The schema version that a stored value records.
pub fn schema_version(stored: Option<&[u8]>) -> (r: u32)
    ensures
        r == recorded_version(match stored {
            Some(b) => Some(b@),
            None => None,
        }),
{
    match stored {
        Some(b) => match utf8_text(b) {
            Some(t) => match parse_u32(t.as_str()) {
                Some(v) => v,
                None => 0,
            },
            None => 0,
        },
        None => 0,
    }
}

/// Whether migration `a` comes before migration `b`: by version, upward
/// or downward, and in list order for equal versions.
pub open spec fn runs_before(vs: Seq<u32>, desc: bool, a: int, b: int) -> bool {
    if desc {
        vs[a] > vs[b] || (vs[a] == vs[b] && a < b)
    } else {
        vs[a] < vs[b] || (vs[a] == vs[b] && a < b)
    }
}

/// The migrations to run: exactly the positions that `chosen` marks,
/// each once, in running order.
pub open spec fn is_plan(r: Seq<usize>, vs: Seq<u32>, desc: bool, chosen: spec_fn(int) -> bool) -> bool {
    &&& forall|k: int| 0 <= k < r.len() ==> r[k] < vs.len() && chosen(r[k] as int)
    &&& forall|i: int|
        0 <= i < vs.len() && #[trigger] chosen(i) ==> exists|k: int| 0 <= k < r.len() && r[k] == i
    &&& forall|a: int, b: int| 0 <= a < b < r.len() ==> runs_before(vs, desc, r[a] as int, r[b] as int)
}

/// Whether a migration of version `w` runs after one of version `v`.
fn goes_after(desc: bool, w: u32, v: u32) -> (r: bool)
    ensures
        r == (if desc {
            w < v
        } else {
            w > v
        }),
{
    if desc {
        w < v
    } else {
        w > v
    }
}

/// The positions that `chosen` marks, in running order.
fn plan(vs: &[u32], desc: bool, chosen: &Vec<bool>) -> (r: Vec<usize>)
    requires
        chosen@.len() == vs@.len(),
    ensures
        is_plan(r@, vs@, desc, |i: int| chosen@[i]),
{
    let mut r: Vec<usize> = Vec::new();
    let mut i: usize = 0;
    while i < vs.len()
        invariant
            i <= vs@.len(),
            chosen@.len() == vs@.len(),
            forall|k: int| 0 <= k < r@.len() ==> r@[k] < i && chosen@[r@[k] as int],
            forall|j: int|
                0 <= j < i && #[trigger] chosen@[j] ==> exists|k: int| 0 <= k < r@.len() && r@[k] == j,
            forall|a: int, b: int| 0 <= a < b < r@.len() ==> runs_before(vs@, desc, r@[a] as int, r@[b] as int),
        decreases vs@.len() - i,
    {
        if chosen[i] {
            let v = vs[i];
            let mut p: usize = r.len();
            while p > 0 && goes_after(desc, vs[r[p - 1]], v)
                invariant
                    p <= r@.len(),
                    forall|k: int| 0 <= k < r@.len() ==> r@[k] < i,
                    i < vs@.len(),
                    v == vs@[i as int],
                    forall|k: int| p <= k < r@.len() ==> runs_before(vs@, desc, i as int, r@[k] as int),
                decreases p,
            {
                p = p - 1;
            }
            proof {
                if p > 0 {
                    let q = r@[p - 1];
                    assert(runs_before(vs@, desc, q as int, i as int));
                    assert forall|k: int| 0 <= k < p implies runs_before(vs@, desc, r@[k] as int, i as int) by {
                        if k < p - 1 {
                            assert(runs_before(vs@, desc, r@[k] as int, q as int));
                        }
                    }
                }
            }
            let ghost before = r@;
            r.insert(p, i);
            proof {
                assert forall|a: int, b: int| 0 <= a < b < r@.len() implies runs_before(vs@, desc, r@[a] as int, r@[b] as int) by {
                    if b < p {
                        assert(r@[a] == before[a] && r@[b] == before[b]);
                    } else if b == p {
                        assert(r@[a] == before[a]);
                    } else if a == p {
                        assert(r@[b] == before[b - 1]);
                    } else if a < p {
                        assert(r@[a] == before[a] && r@[b] == before[b - 1]);
                    } else {
                        assert(r@[a] == before[a - 1] && r@[b] == before[b - 1]);
                    }
                }
                assert forall|j: int| 0 <= j < i + 1 && #[trigger] chosen@[j] implies exists|k: int|
                    0 <= k < r@.len() && r@[k] == j by {
                    if j == i {
                        assert(r@[p as int] == i);
                    } else {
                        let k = choose|k: int| 0 <= k < before.len() && before[k] == j;
                        if k < p {
                            assert(r@[k] == j);
                        } else {
                            assert(r@[k + 1] == j);
                        }
                    }
                }
                assert forall|k: int| 0 <= k < r@.len() implies r@[k] < i + 1 && chosen@[r@[k] as int] by {
                    if k < p {
                        assert(r@[k] == before[k]);
                    } else if k > p {
                        assert(r@[k] == before[k - 1]);
                    }
                }
            }
        }
        i = i + 1;
    }
    r
}

/// The pending migrations: every migration with a version above the
/// current one, by version upward, in list order for equal versions.
pub fn pending_migrations(versions: &[u32], current: u32) -> (r: Vec<usize>)
    ensures
        is_plan(r@, versions@, false, |i: int| versions@[i] > current),
{
    let mut chosen: Vec<bool> = Vec::new();
    let mut i: usize = 0;
    while i < versions.len()
        invariant
            i <= versions@.len(),
            chosen@.len() == i,
            forall|j: int| 0 <= j < i ==> chosen@[j] == (versions@[j] > current),
        decreases versions@.len() - i,
    {
        chosen.push(versions[i] > current);
        i = i + 1;
    }
    let r = plan(versions, false, &chosen);
    proof {
        assert forall|k: int| 0 <= k < r@.len() implies r@[k] < versions@.len() && versions@[r@[k] as int]
            > current by {
            assert(chosen@[r@[k] as int]);
        }
        assert forall|j: int| 0 <= j < versions@.len() && versions@[j] > current implies exists|k: int|
            0 <= k < r@.len() && r@[k] == j by {
            let f = |i: int| chosen@[i];
            assert(f(j));
        }
    }
    r
}

/// Whether the migration at position `i` lies in the range that a
/// rollback from `current` to `target` undoes.
pub open spec fn in_rollback(vs: Seq<u32>, current: u32, target: u32, i: int) -> bool {
    target < vs[i] <= current
}

/// Whether `v` is the highest version in the rollback range whose
/// migration has no down step.
pub open spec fn highest_missing_down(vs: Seq<u32>, has_down: Seq<bool>, current: u32, target: u32, v: u32) -> bool {
    &&& exists|i: int| 0 <= i < vs.len() && in_rollback(vs, current, target, i) && !has_down[i] && #[trigger] vs[i] == v
    &&& forall|i: int|
        0 <= i < vs.len() && in_rollback(vs, current, target, i) && !has_down[i] ==> #[trigger] vs[i] <= v
}

/// The migrations to roll back to `target`. Nothing to do (`Ok(None)`)
/// when the current version is not above it. Every migration in the range
/// above the target and up to the current version must have a down step:
/// where one has none, the rollback is refused with the highest such
/// version, before anything runs. Otherwise the plan holds every migration
/// in that range, by version downward, in list order for equal versions.
pub fn rollback_migrations(versions: &[u32], has_down: &[bool], current: u32, target: u32) -> (r: Result<
    Option<Vec<usize>>,
    u32,
>)
    requires
        has_down@.len() == versions@.len(),
    ensures
        current <= target ==> r == Ok::<Option<Vec<usize>>, u32>(None),
        current > target ==> ((exists|i: int|
            0 <= i < versions@.len() && in_rollback(versions@, current, target, i) && !#[trigger] has_down@[i])
            <==> r is Err),
        r matches Err(v) ==> highest_missing_down(versions@, has_down@, current, target, v),
        r matches Ok(Some(p)) ==> current > target && is_plan(
            p@,
            versions@,
            true,
            |i: int| in_rollback(versions@, current, target, i),
        ),
        current > target && r is Ok ==> r matches Ok(Some(_)),
{
    if current <= target {
        return Ok(None);
    }
    let mut missing: Option<u32> = None;
    let mut i: usize = 0;
    while i < versions.len()
        invariant
            i <= versions@.len(),
            has_down@.len() == versions@.len(),
            current > target,
            missing is None <==> forall|j: int|
                0 <= j < i && in_rollback(versions@, current, target, j) ==> #[trigger] has_down@[j],
            missing matches Some(v) ==> (exists|j: int|
                0 <= j < i && in_rollback(versions@, current, target, j) && !has_down@[j] && #[trigger] versions@[j] == v),
            missing matches Some(v) ==> forall|j: int|
                0 <= j < i && in_rollback(versions@, current, target, j) && !has_down@[j] ==> #[trigger] versions@[j] <= v,
        decreases versions@.len() - i,
    {
        let v = versions[i];
        if target < v && v <= current && !has_down[i] {
            match missing {
                Some(m) => {
                    if v > m {
                        missing = Some(v);
                    }
                },
                None => {
                    missing = Some(v);
                },
            }
        }
        i = i + 1;
    }
    if let Some(v) = missing {
        return Err(v);
    }
    let mut chosen: Vec<bool> = Vec::new();
    let mut i: usize = 0;
    while i < versions.len()
        invariant
            i <= versions@.len(),
            chosen@.len() == i,
            forall|j: int| 0 <= j < i ==> chosen@[j] == in_rollback(versions@, current, target, j),
        decreases versions@.len() - i,
    {
        chosen.push(versions[i] > target && versions[i] <= current);
        i = i + 1;
    }
    let r = plan(versions, true, &chosen);
    proof {
        assert forall|k: int| 0 <= k < r@.len() implies r@[k] < versions@.len() && in_rollback(
            versions@,
            current,
            target,
            r@[k] as int,
        ) by {
            assert(chosen@[r@[k] as int]);
        }
        assert forall|j: int|
            0 <= j < versions@.len() && in_rollback(versions@, current, target, j) implies exists|k: int|
            0 <= k < r@.len() && r@[k] == j by {
            let f = |i: int| chosen@[i];
            assert(f(j));
        }
    }
    Ok(Some(r))
}

/// The database backends that a module can ask for.
#[derive(Debug, Clone, Copy, PartialEq, Eq, Structural)]
pub enum BackendChoice {
    Redb,
    RocksDB,
    Sled,
    TidesDB,
    /// The node's default backend.
    Auto,
}

/// The backend that a setting names, in any case; Redb for anything
/// unknown.
pub open spec fn backend_named(s: Seq<char>) -> BackendChoice {
    if s == "redb"@ {
        BackendChoice::Redb
    } else if s == "rocksdb"@ {
        BackendChoice::RocksDB
    } else if s == "sled"@ {
        BackendChoice::Sled
    } else if s == "tidesdb"@ {
        BackendChoice::TidesDB
    } else if s == "auto"@ {
        BackendChoice::Auto
    } else {
        BackendChoice::Redb
    }
}

/// The backend that a setting names.
pub fn parse_backend(s: &str) -> (r: BackendChoice)
    ensures
        r == backend_named(lower_text(s@)),
{
    let l = lowercase(s);
    let t = l.as_str();
    if text_eq(t, "redb") {
        BackendChoice::Redb
    } else if text_eq(t, "rocksdb") {
        BackendChoice::RocksDB
    } else if text_eq(t, "sled") {
        BackendChoice::Sled
    } else if text_eq(t, "tidesdb") {
        BackendChoice::TidesDB
    } else if text_eq(t, "auto") {
        BackendChoice::Auto
    } else {
        BackendChoice::Redb
    }
}

} // verus!
