//! Host side of WASM modules: the trees that a module has opened and the
//! iterations it runs over them, each known by a handle. Handles are
//! given out in increasing order from 1.

use vstd::prelude::*;

use std::collections::HashMap;

use crate::governance::psbt_map::copy_bytes;
use crate::module::handles::HandleTable;
use crate::text::{concat_str, decimal, decimal_string};

verus! {

/// Minimal tree interface for WASM host storage. Embedder implements this.
/// An embedder that does not describe the results of its calls leaves
/// every result possible.
pub trait WasmTree {
    /// Whether `r` is a result that storing `value` under `key` can give.
    closed spec fn insert_result(&self, key: Seq<u8>, value: Seq<u8>, r: Result<(), String>) -> bool {
        true
    }

    /// Whether `r` is a result that reading `key` can give.
    closed spec fn get_result(&self, key: Seq<u8>, r: Result<Option<Vec<u8>>, String>) -> bool {
        true
    }

    /// Whether `r` is a result that removing `key` can give.
    closed spec fn remove_result(&self, key: Seq<u8>, r: Result<(), String>) -> bool {
        true
    }

    /// Whether `r` is a result that scanning the tree can give.
    closed spec fn scan_result(&self, r: Result<Vec<(Vec<u8>, Vec<u8>)>, String>) -> bool {
        true
    }

    fn insert(&self, key: &[u8], value: &[u8]) -> (r: Result<(), String>)
        ensures
            self.insert_result(key@, value@, r),
    ;

    fn get(&self, key: &[u8]) -> (r: Result<Option<Vec<u8>>, String>)
        ensures
            self.get_result(key@, r),
    ;

    fn remove(&self, key: &[u8]) -> (r: Result<(), String>)
        ensures
            self.remove_result(key@, r),
    ;

    /// Scan all key-value pairs for iteration. Used by host_storage_iter_*.
    fn scan(&self) -> (r: Result<Vec<(Vec<u8>, Vec<u8>)>, String>)
        ensures
            self.scan_result(r),
    ;
}

/// Minimal storage interface. Embedder implements this (e.g. wraps a node
/// database); its trees are shared handles, so a clone is the same tree.
/// An embedder that does not describe the results of opening a tree
/// leaves every result possible.
pub trait WasmStorage {
    type Tree: WasmTree + Clone;

    /// Whether `r` is a result that opening the tree named `name` can give.
    closed spec fn open_result(&self, name: Seq<char>, r: Result<Self::Tree, String>) -> bool {
        true
    }

    fn open_tree(&self, name: &str) -> (r: Result<Self::Tree, String>)
        ensures
            self.open_result(name@, r),
    ;
}

/// The decimal text of an integer, with a minus sign when negative.
pub open spec fn int_text(x: int) -> Seq<char> {
    if x < 0 {
        "-"@ + decimal((-x) as nat)
    } else {
        decimal(x as nat)
    }
}

/// The decimal text of an `i32`.
fn i32_text(x: i32) -> (r: String)
    ensures
        r@ == int_text(x as int),
{
    if x < 0 {
        let m: u64 = (0 - (x as i64)) as u64;
        let d = decimal_string(m);
        concat_str("-", d.as_str())
    } else {
        decimal_string(x as u64)
    }
}

/// The pairs of an iteration as values.
pub open spec fn pairs_view(ps: Seq<(Vec<u8>, Vec<u8>)>) -> Seq<(Seq<u8>, Seq<u8>)> {
    ps.map_values(|p: (Vec<u8>, Vec<u8>)| (p.0@, p.1@))
}

/// The level at which a module's log line is written.
#[derive(Debug, Clone, Copy, PartialEq, Eq, Structural)]
pub enum LogLevel {
    Trace,
    Debug,
    Info,
    Warn,
    Error,
}

/// The level of a log call: 0 trace, 1 debug, 2 info, 3 warn, anything
/// else error.
pub open spec fn level_of(level: i32) -> LogLevel {
    if level == 0 {
        LogLevel::Trace
    } else if level == 1 {
        LogLevel::Debug
    } else if level == 2 {
        LogLevel::Info
    } else if level == 3 {
        LogLevel::Warn
    } else {
        LogLevel::Error
    }
}

/// The level at which a log call writes, or none for a call without a
/// positive length.
pub fn log_level(level: i32, len: i32) -> (r: Option<LogLevel>)
    ensures
        len <= 0 ==> r is None,
        len > 0 ==> r == Some(level_of(level)),
{
    if len <= 0 {
        None
    } else if level == 0 {
        Some(LogLevel::Trace)
    } else if level == 1 {
        Some(LogLevel::Debug)
    } else if level == 2 {
        Some(LogLevel::Info)
    } else if level == 3 {
        Some(LogLevel::Warn)
    } else {
        Some(LogLevel::Error)
    }
}

/// Whether `len` bytes fit a guest buffer of `out_len` bytes. The length
/// is read as an unsigned size, so a negative one reads as a very large
/// buffer.
pub open spec fn fits(out_len: i32, len: usize) -> bool {
    !((out_len as usize) < len)
}

/// Whether `len` bytes fit a guest buffer of `out_len` bytes.
pub fn fits_buffer(out_len: i32, len: usize) -> (r: bool)
    ensures
        r == fits(out_len, len),
{
    !((out_len as usize) < len)
}

/// The reply to a storage read: the value's length, with the value to
/// write to the guest, where a value was found and fits the buffer; -1
/// otherwise.
pub open spec fn read_reply(found: Result<Option<Vec<u8>>, String>, out_len: i32) -> (i32, Option<Vec<u8>>) {
    match found {
        Ok(Some(v)) => if fits(out_len, v@.len() as usize) {
            (v@.len() as i32, Some(v))
        } else {
            (-1i32, None)
        },
        _ => (-1i32, None),
    }
}

/// The reply to a storage read.
pub fn get_reply(found: Result<Option<Vec<u8>>, String>, out_len: i32) -> (r: (i32, Option<Vec<u8>>))
    ensures
        r == read_reply(found, out_len),
{
    match found {
        Ok(Some(v)) => {
            if fits_buffer(out_len, v.len()) {
                (v.len() as i32, Some(v))
            } else {
                (-1, None)
            }
        },
        _ => (-1, None),
    }
}

/// The reply to an iteration step: 1 with the pair to write to the guest
/// where there is a next pair and both parts fit their buffers; 0 at the
/// end; -1 otherwise.
pub fn iter_reply(next: Result<Option<(Vec<u8>, Vec<u8>)>, String>, k_out_len: i32, v_out_len: i32) -> (r: (
    i32,
    Option<(Vec<u8>, Vec<u8>)>,
))
    ensures
        next == Ok::<Option<(Vec<u8>, Vec<u8>)>, String>(None) ==> r == (0i32, None::<(Vec<u8>, Vec<u8>)>),
        next is Err ==> r == (-1i32, None::<(Vec<u8>, Vec<u8>)>),
        next matches Ok(Some(p)) ==> if fits(k_out_len, p.0@.len() as usize) && fits(v_out_len, p.1@.len() as usize) {
            r == (1i32, Some(p))
        } else {
            r == (-1i32, None::<(Vec<u8>, Vec<u8>)>)
        },
{
    match next {
        Ok(None) => (0, None),
        Err(_) => (-1, None),
        Ok(Some(p)) => {
            if fits_buffer(k_out_len, p.0.len()) && fits_buffer(v_out_len, p.1.len()) {
                (1, Some(p))
            } else {
                (-1, None)
            }
        },
    }
}

/// The status code of a storage write or removal: 0 done, -1 failed.
pub open spec fn status_of(done: Result<(), String>) -> i32 {
    if done is Ok {
        0i32
    } else {
        -1i32
    }
}

/// The status code of a storage write or removal.
pub fn status_code(done: Result<(), String>) -> (r: i32)
    ensures
        r == status_of(done),
{
    match done {
        Ok(()) => 0,
        Err(_) => -1,
    }
}

/// The state of an iteration: the pairs it holds and the position of the
/// next one.
pub type IterState = (Seq<(Seq<u8>, Seq<u8>)>, usize);

/// One step of an iteration: the pair at its position, with the position
/// moved on, or none at the end, where it stays.
pub open spec fn iter_step(st: IterState) -> (Option<(Seq<u8>, Seq<u8>)>, IterState) {
    if (st.1 as int) < st.0.len() {
        (Some(st.0[st.1 as int]), (st.0, (st.1 + 1) as usize))
    } else {
        (None, st)
    }
}

/// `n` steps of an iteration: what each gives, and the state after them.
pub open spec fn iter_steps(st: IterState, n: nat) -> (Seq<Option<(Seq<u8>, Seq<u8>)>>, IterState)
    decreases n,
{
    if n == 0 {
        (Seq::empty(), st)
    } else {
        let before = iter_steps(st, (n - 1) as nat);
        let step = iter_step(before.1);
        (before.0.push(step.0), step.1)
    }
}

/// An optional pair as values.
pub open spec fn opt_pair_view(o: Option<(Vec<u8>, Vec<u8>)>) -> Option<(Seq<u8>, Seq<u8>)> {
    match o {
        Some(p) => Some((p.0@, p.1@)),
        None => None,
    }
}

/// An iteration gives the pairs its tree held when it was opened, in order,
/// and then nothing, however many more steps are taken: `n` steps from the
/// start give the first `n` pairs (none past the end) and leave the
/// position at the number of pairs given.
pub proof fn lemma_iteration_yields(ps: Seq<(Seq<u8>, Seq<u8>)>, n: nat)
    requires
        ps.len() <= usize::MAX,
    ensures
        iter_steps((ps, 0usize), n).0 == Seq::new(
            n,
            |k: int| if k < ps.len() { Some(ps[k]) } else { None::<(Seq<u8>, Seq<u8>)> },
        ),
        iter_steps((ps, 0usize), n).1 == (ps, (if n < ps.len() { n } else { ps.len() }) as usize),
    decreases n,
{
    if n > 0 {
        lemma_iteration_yields(ps, (n - 1) as nat);
        let want = Seq::new(
            n,
            |k: int| if k < ps.len() { Some(ps[k]) } else { None::<(Seq<u8>, Seq<u8>)> },
        );
        let before = iter_steps((ps, 0usize), (n - 1) as nat);
        assert(before.0.push(iter_step(before.1).0) =~= want);
    } else {
        assert(iter_steps((ps, 0usize), n).0 =~= Seq::new(
            n,
            |k: int| if k < ps.len() { Some(ps[k]) } else { None::<(Seq<u8>, Seq<u8>)> },
        ));
    }
}

/// The handles from 1 up to, and not including, `n`.
pub open spec fn handles_below(n: i32) -> Set<i32> {
    Set::new(|h: i32| 1 <= h < n)
}

/// There are `n - 1` handles below `n`.
pub proof fn lemma_handles_below(n: i32)
    requires
        1 <= n,
    ensures
        handles_below(n).finite(),
        handles_below(n).len() == n - 1,
    decreases n,
{
    if n == 1 {
        assert(handles_below(n) =~= Set::<i32>::empty());
    } else {
        lemma_handles_below((n - 1) as i32);
        assert(handles_below(n) =~= handles_below((n - 1) as i32).insert((n - 1) as i32));
    }
}

/// Host context stored in the WASM store.
pub struct WasmHostContext<S: WasmStorage> {
    storage: S,
    config: HashMap<String, String>,
    trees: HandleTable<S::Tree>,
    next_tree_id: i32,
    iter_pairs: HandleTable<Vec<(Vec<u8>, Vec<u8>)>>,
    iter_positions: HandleTable<usize>,
    next_iter_id: i32,
}

impl<S: WasmStorage> WasmHostContext<S> {
    /// The tables are well formed, every iteration has its pairs and its
    /// position, every handle given out is below the next one, and the open
    /// trees are exactly the handles given out (trees are never closed).
    pub closed spec fn wf(&self) -> bool {
        &&& self.trees.wf()
        &&& self.iter_pairs.wf()
        &&& self.iter_positions.wf()
        &&& self.iter_pairs@.dom() == self.iter_positions@.dom()
        &&& 1 <= self.next_tree_id
        &&& 1 <= self.next_iter_id
        &&& self.trees@.dom() == handles_below(self.next_tree_id)
        &&& forall|h: i32| #[trigger] self.iter_pairs@.dom().contains(h) ==> 1 <= h < self.next_iter_id
    }

    /// The open trees by handle.
    pub closed spec fn trees_view(&self) -> Map<i32, S::Tree> {
        self.trees@
    }

    /// The open iterations by handle: the pairs scanned and the position
    /// of the next one.
    pub closed spec fn iters_view(&self) -> Map<i32, (Seq<(Seq<u8>, Seq<u8>)>, usize)> {
        Map::new(
            |h: i32| self.iter_pairs@.dom().contains(h),
            |h: i32| (pairs_view(self.iter_pairs@[h]@), self.iter_positions@[h]),
        )
    }

    /// The handle that the next opened tree gets.
    pub closed spec fn next_tree(&self) -> i32 {
        self.next_tree_id
    }

    /// The handle that the next iteration gets.
    pub closed spec fn next_iter(&self) -> i32 {
        self.next_iter_id
    }

    /// The storage that trees are opened from.
    pub closed spec fn storage_view(&self) -> S {
        self.storage
    }

    /// The configuration given to the module.
    pub closed spec fn config_view(&self) -> Map<String, String> {
        self.config@
    }

    /// The trees opened so far are the handles 1, 2, ... up to the next
    /// one, so the k-th successful `open_tree` gets handle k: each success
    /// opens one tree, a failure none, and no tree is ever closed.
    pub proof fn lemma_open_trees(&self)
        requires
            self.wf(),
        ensures
            self.trees_view().dom() == handles_below(self.next_tree()),
            self.trees_view().dom().finite(),
            self.trees_view().dom().len() == self.next_tree() - 1,
    {
        lemma_handles_below(self.next_tree_id);
    }

    /// A context over a storage and a configuration, with nothing open.
    pub fn new(storage: S, config: HashMap<String, String>) -> (r: Self)
        ensures
            r.wf(),
            r.trees_view() == Map::<i32, S::Tree>::empty(),
            r.iters_view() == Map::<i32, (Seq<(Seq<u8>, Seq<u8>)>, usize)>::empty(),
            r.next_tree() == 1,
            r.next_iter() == 1,
            r.config_view() == config@,
    {
        let r = WasmHostContext {
            storage,
            config,
            trees: HandleTable::new(),
            next_tree_id: 1,
            iter_pairs: HandleTable::new(),
            iter_positions: HandleTable::new(),
            next_iter_id: 1,
        };
        assert(r.iters_view() =~= Map::<i32, (Seq<(Seq<u8>, Seq<u8>)>, usize)>::empty());
        assert(handles_below(1) =~= Set::<i32>::empty());
        r
    }

    /// The configuration given to the module.
    pub fn config(&self) -> (r: &HashMap<String, String>)
        ensures
            r@ == self.config_view(),
    {
        &self.config
    }

    /// Open a named tree of the storage under the next tree handle.
    pub fn open_tree(&mut self, name: &str) -> (r: Result<i32, String>)
        requires
            old(self).wf(),
            old(self).next_tree() < i32::MAX,
        ensures
            final(self).wf(),
            final(self).iters_view() == old(self).iters_view(),
            final(self).next_iter() == old(self).next_iter(),
            final(self).config_view() == old(self).config_view(),
            final(self).storage_view() == old(self).storage_view(),
            r is Err ==> final(self).trees_view() == old(self).trees_view() && final(self).next_tree()
                == old(self).next_tree(),
            r matches Err(e) ==> old(self).storage_view().open_result(name@, Err(e)),
            r matches Ok(id) ==> id == old(self).trees_view().dom().len() + 1,
            r matches Ok(id) ==> id == old(self).next_tree() && final(self).next_tree() == id + 1
                && final(self).trees_view().dom() == old(self).trees_view().dom().insert(id)
                && old(self).storage_view().open_result(name@, Ok(final(self).trees_view()[id]))
                && forall|h: i32| h != id && #[trigger] old(self).trees_view().dom().contains(h)
                ==> final(self).trees_view()[h] == old(self).trees_view()[h],
    {
        let tree = match self.storage.open_tree(name) {
            Ok(t) => t,
            Err(e) => {
                return Err(e);
            },
        };
        let id = self.next_tree_id;
        proof {
            lemma_handles_below(id);
        }
        self.next_tree_id = id + 1;
        self.trees.insert_fresh(id, tree);
        proof {
            assert(self.iters_view() =~= old(self).iters_view());
            assert(handles_below(self.next_tree_id) =~= handles_below(id).insert(id));
        }
        Ok(id)
    }

    /// The tree of a handle: a clone of it, or the error for an unknown
    /// handle.
    pub fn get_tree(&self, tree_id: i32) -> (r: Result<S::Tree, String>)
        requires
            self.wf(),
        ensures
            self.trees_view().dom().contains(tree_id) ==> (r matches Ok(t) && cloned(
                self.trees_view()[tree_id],
                t,
            )),
            !self.trees_view().dom().contains(tree_id) ==> (r matches Err(m) && m@ == "Unknown tree_id "@
                + int_text(tree_id as int)),
    {
        match self.trees.get(tree_id) {
            Some(t) => Ok(t.clone()),
            None => {
                let t = i32_text(tree_id);
                Err(concat_str("Unknown tree_id ", t.as_str()))
            },
        }
    }

    /// Start an iteration over everything a tree holds, under the next
    /// iteration handle: the tree of the handle is scanned, and the pairs
    /// it gives are the iteration's; a failed scan gives its error.
    pub fn iter_open(&mut self, tree_id: i32) -> (r: Result<i32, String>)
        requires
            old(self).wf(),
            old(self).next_iter() < i32::MAX,
        ensures
            final(self).wf(),
            final(self).trees_view() == old(self).trees_view(),
            final(self).next_tree() == old(self).next_tree(),
            final(self).config_view() == old(self).config_view(),
            !old(self).trees_view().dom().contains(tree_id) ==> (r matches Err(m) && m@
                == "Unknown tree_id "@ + int_text(tree_id as int)),
            old(self).trees_view().dom().contains(tree_id) ==> exists|s: Result<Vec<(Vec<u8>, Vec<u8>)>, String>|
                #[trigger] old(self).trees_view()[tree_id].scan_result(s) && match s {
                    Ok(ps) => r matches Ok(h) && final(self).iters_view()[h] == (pairs_view(ps@), 0usize),
                    Err(e) => r == Err::<i32, String>(e),
                },
            r is Err ==> final(self).iters_view() == old(self).iters_view() && final(self).next_iter()
                == old(self).next_iter(),
            r matches Ok(h) ==> h == old(self).next_iter() && final(self).next_iter() == h + 1
                && old(self).trees_view().dom().contains(tree_id) && final(self).iters_view().dom()
                == old(self).iters_view().dom().insert(h) && final(self).iters_view()[h].1 == 0
                && forall|g: i32| g != h && #[trigger] old(self).iters_view().dom().contains(g)
                ==> final(self).iters_view()[g] == old(self).iters_view()[g],
    {
        let scanned = match self.trees.get(tree_id) {
            Some(t) => t.scan(),
            None => {
                let t = i32_text(tree_id);
                return Err(concat_str("Unknown tree_id ", t.as_str()));
            },
        };
        let ghost s = scanned;
        let pairs = match scanned {
            Ok(p) => p,
            Err(e) => {
                return Err(e);
            },
        };
        let id = self.next_iter_id;
        self.next_iter_id = id + 1;
        self.iter_pairs.insert_fresh(id, pairs);
        self.iter_positions.insert_fresh(id, 0);
        proof {
            let old_iters = old(self).iters_view();
            let new_iters = self.iters_view();
            assert(new_iters.dom() =~= old_iters.dom().insert(id));
            assert forall|g: i32| g != id && #[trigger] old_iters.dom().contains(g) implies new_iters[g]
                == old_iters[g] by {}
            assert(old(self).trees_view()[tree_id].scan_result(s));
        }
        Ok(id)
    }

    /// The next pair of an iteration, or none at its end.
    pub fn iter_next(&mut self, iter_handle: i32) -> (r: Result<Option<(Vec<u8>, Vec<u8>)>, String>)
        requires
            old(self).wf(),
        ensures
            final(self).wf(),
            final(self).trees_view() == old(self).trees_view(),
            final(self).next_tree() == old(self).next_tree(),
            final(self).next_iter() == old(self).next_iter(),
            final(self).config_view() == old(self).config_view(),
            !old(self).iters_view().dom().contains(iter_handle) ==> (r matches Err(m) && m@
                == "Unknown iter_handle "@ + int_text(iter_handle as int) && final(self).iters_view()
                == old(self).iters_view()),
            old(self).iters_view().dom().contains(iter_handle) ==> (r matches Ok(o) && opt_pair_view(o)
                == iter_step(old(self).iters_view()[iter_handle]).0 && final(self).iters_view()
                == old(self).iters_view().insert(
                iter_handle,
                iter_step(old(self).iters_view()[iter_handle]).1,
            )),
            old(self).iters_view().dom().contains(iter_handle) ==> ({
                let (ps, pos) = old(self).iters_view()[iter_handle];
                &&& pos >= ps.len() ==> r == Ok::<Option<(Vec<u8>, Vec<u8>)>, String>(None)
                    && final(self).iters_view() == old(self).iters_view()
                &&& pos < ps.len() ==> (r matches Ok(Some(p)) && (p.0@, p.1@) == ps[pos as int]
                    && final(self).iters_view() == old(self).iters_view().insert(
                    iter_handle,
                    (ps, (pos + 1) as usize),
                ))
            }),
    {
        let pairs = match self.iter_pairs.get(iter_handle) {
            Some(p) => p,
            None => {
                let t = i32_text(iter_handle);
                return Err(concat_str("Unknown iter_handle ", t.as_str()));
            },
        };
        let idx = *self.iter_positions.get(iter_handle).unwrap();
        if idx >= pairs.len() {
            return Ok(None);
        }
        let k = copy_bytes(pairs[idx].0.as_slice());
        let v = copy_bytes(pairs[idx].1.as_slice());
        proof {
            assert(pairs_view(pairs@)[idx as int] == (pairs@[idx as int].0@, pairs@[idx as int].1@));
        }
        self.iter_positions.set(iter_handle, idx + 1);
        proof {
            assert(self.iter_positions@.dom() =~= self.iter_pairs@.dom());
            assert(self.iters_view() =~= old(self).iters_view().insert(
                iter_handle,
                (old(self).iters_view()[iter_handle].0, (idx + 1) as usize),
            ));
        }
        Ok(Some((k, v)))
    }

    /// Open a tree for the guest: its handle, or -1 where the name could
    /// not be read or the storage refused it.
    pub fn host_open_tree(&mut self, name: Option<&str>) -> (r: i32)
        requires
            old(self).wf(),
            old(self).next_tree() < i32::MAX,
        ensures
            final(self).wf(),
            final(self).iters_view() == old(self).iters_view(),
            final(self).config_view() == old(self).config_view(),
            name is None ==> r == -1 && final(self).trees_view() == old(self).trees_view()
                && final(self).next_tree() == old(self).next_tree(),
            r == -1 ==> final(self).trees_view() == old(self).trees_view() && final(self).next_tree()
                == old(self).next_tree(),
            r != -1 ==> name is Some && r == old(self).next_tree() && final(self).next_tree() == r + 1
                && final(self).trees_view().dom() == old(self).trees_view().dom().insert(r),
            r != -1 ==> (name matches Some(n) && old(self).storage_view().open_result(
                n@,
                Ok(final(self).trees_view()[r]),
            )),
            name matches Some(n) ==> (r == -1 ==> exists|e: String|
                #[trigger] old(self).storage_view().open_result(n@, Err(e))),
    {
        match name {
            None => -1,
            Some(n) => match self.open_tree(n) {
                Ok(id) => id,
                Err(_) => -1,
            },
        }
    }

    /// Store a pair for the guest: -1 for an unknown tree; else the
    /// status of that tree's insert of the key and value.
    pub fn host_put(&self, tree_id: i32, key: &[u8], value: &[u8]) -> (r: i32)
        requires
            self.wf(),
        ensures
            !self.trees_view().dom().contains(tree_id) ==> r == -1,
            self.trees_view().dom().contains(tree_id) ==> exists|d: Result<(), String>|
                #[trigger] self.trees_view()[tree_id].insert_result(key@, value@, d) && r == status_of(d),
            r == 0 || r == -1,
    {
        match self.trees.get(tree_id) {
            Some(t) => status_code(t.insert(key, value)),
            None => -1,
        }
    }

    /// Remove a key for the guest: -1 for an unknown tree; else the
    /// status of that tree's removal of the key.
    pub fn host_remove(&self, tree_id: i32, key: &[u8]) -> (r: i32)
        requires
            self.wf(),
        ensures
            !self.trees_view().dom().contains(tree_id) ==> r == -1,
            self.trees_view().dom().contains(tree_id) ==> exists|d: Result<(), String>|
                #[trigger] self.trees_view()[tree_id].remove_result(key@, d) && r == status_of(d),
            r == 0 || r == -1,
    {
        match self.trees.get(tree_id) {
            Some(t) => status_code(t.remove(key)),
            None => -1,
        }
    }

    /// Read a key for the guest: -1 for an unknown tree; else the reply
    /// to what that tree's read of the key gave.
    pub fn host_get(&self, tree_id: i32, key: &[u8], out_len: i32) -> (r: (i32, Option<Vec<u8>>))
        requires
            self.wf(),
        ensures
            !self.trees_view().dom().contains(tree_id) ==> r == (-1i32, None::<Vec<u8>>),
            self.trees_view().dom().contains(tree_id) ==> exists|g: Result<Option<Vec<u8>>, String>|
                #[trigger] self.trees_view()[tree_id].get_result(key@, g) && r == read_reply(g, out_len),
            r.1 matches Some(v) ==> r.0 == v@.len() as i32 && fits(out_len, v@.len() as usize),
            r.1 is None ==> r.0 == -1,
    {
        match self.trees.get(tree_id) {
            Some(t) => get_reply(t.get(key), out_len),
            None => (-1, None),
        }
    }

    /// Start an iteration for the guest: its handle, or -1.
    pub fn host_iter_open(&mut self, tree_id: i32) -> (r: i32)
        requires
            old(self).wf(),
            old(self).next_iter() < i32::MAX,
        ensures
            final(self).wf(),
            final(self).trees_view() == old(self).trees_view(),
            final(self).config_view() == old(self).config_view(),
            !old(self).trees_view().dom().contains(tree_id) ==> r == -1,
            old(self).trees_view().dom().contains(tree_id) ==> exists|s: Result<Vec<(Vec<u8>, Vec<u8>)>, String>|
                #[trigger] old(self).trees_view()[tree_id].scan_result(s) && match s {
                    Ok(ps) => r != -1 && final(self).iters_view()[r] == (pairs_view(ps@), 0usize),
                    Err(_) => r == -1,
                },
            r == -1 ==> final(self).iters_view() == old(self).iters_view() && final(self).next_iter()
                == old(self).next_iter(),
            r != -1 ==> r == old(self).next_iter() && final(self).next_iter() == r + 1
                && final(self).iters_view().dom() == old(self).iters_view().dom().insert(r)
                && final(self).iters_view()[r].1 == 0,
    {
        match self.iter_open(tree_id) {
            Ok(h) => h,
            Err(_) => -1,
        }
    }

    /// Take the next pair of an iteration for the guest: 1 with the pair
    /// where it fits the buffers, 0 at the end, -1 for an unknown handle
    /// or a pair that does not fit, which is then skipped.
    pub fn host_iter_next(&mut self, iter_handle: i32, k_out_len: i32, v_out_len: i32) -> (r: (
        i32,
        Option<(Vec<u8>, Vec<u8>)>,
    ))
        requires
            old(self).wf(),
        ensures
            final(self).wf(),
            final(self).trees_view() == old(self).trees_view(),
            final(self).config_view() == old(self).config_view(),
            !old(self).iters_view().dom().contains(iter_handle) ==> r == (-1i32, None::<(Vec<u8>, Vec<u8>)>)
                && final(self).iters_view() == old(self).iters_view(),
            old(self).iters_view().dom().contains(iter_handle) ==> ({
                let (ps, pos) = old(self).iters_view()[iter_handle];
                &&& pos >= ps.len() ==> r == (0i32, None::<(Vec<u8>, Vec<u8>)>) && final(self).iters_view()
                    == old(self).iters_view()
                &&& pos < ps.len() ==> final(self).iters_view() == old(self).iters_view().insert(
                    iter_handle,
                    (ps, (pos + 1) as usize),
                ) && if fits(k_out_len, ps[pos as int].0.len() as usize) && fits(
                    v_out_len,
                    ps[pos as int].1.len() as usize,
                ) {
                    r.0 == 1 && (r.1 matches Some(p) && (p.0@, p.1@) == ps[pos as int])
                } else {
                    r == (-1i32, None::<(Vec<u8>, Vec<u8>)>)
                }
            }),
    {
        let next = self.iter_next(iter_handle);
        iter_reply(next, k_out_len, v_out_len)
    }

    /// End an iteration.
    pub fn iter_close(&mut self, iter_handle: i32)
        requires
            old(self).wf(),
        ensures
            final(self).wf(),
            final(self).trees_view() == old(self).trees_view(),
            final(self).next_tree() == old(self).next_tree(),
            final(self).next_iter() == old(self).next_iter(),
            final(self).config_view() == old(self).config_view(),
            final(self).iters_view() == old(self).iters_view().remove(iter_handle),
    {
        self.iter_pairs.remove(iter_handle);
        self.iter_positions.remove(iter_handle);
        proof {
            assert(self.iters_view() =~= old(self).iters_view().remove(iter_handle));
        }
    }
}

} // verus!
