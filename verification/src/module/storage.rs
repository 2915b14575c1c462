//! Module storage abstraction: `ModuleStorage` and `ModuleTree` let a
//! module use storage without depending on a specific backend; the bridge
//! offers a storage as a database with trees and write batches.

use vstd::prelude::*;

use crate::governance::psbt_map::{bytes_eq, copy_bytes};

verus! {

/// `anyhow::Error`, the error of storage operations.
#[verifier::external_type_specification]
#[verifier::external_body]
pub struct ExAnyhowError(anyhow::Error);

/// Key-value tree interface for module storage. A tree is a shared handle
/// to storage that changes under it, so what each call gives is described
/// as one of the results that the implementation's call can give for the
/// arguments handed to it; an implementation that does not describe its
/// results leaves every result possible.
pub trait ModuleTree {
    /// Whether `r` is a result that inserting `value` under `key` can give.
    closed spec fn insert_result(&self, key: Seq<u8>, value: Seq<u8>, r: Result<(), anyhow::Error>) -> bool {
        true
    }

    /// Whether `r` is a result that reading `key` can give.
    closed spec fn get_result(&self, key: Seq<u8>, r: Result<Option<Vec<u8>>, anyhow::Error>) -> bool {
        true
    }

    /// Whether `r` is a result that removing `key` can give.
    closed spec fn remove_result(&self, key: Seq<u8>, r: Result<(), anyhow::Error>) -> bool {
        true
    }

    /// Whether `r` is a result that listing the pairs can give.
    closed spec fn entries_result(&self, r: Result<Vec<(Vec<u8>, Vec<u8>)>, anyhow::Error>) -> bool {
        true
    }

    /// Insert a key-value pair.
    fn insert(&self, key: &[u8], value: &[u8]) -> (r: Result<(), anyhow::Error>)
        ensures
            self.insert_result(key@, value@, r),
    ;

    /// Get a value by key.
    fn get(&self, key: &[u8]) -> (r: Result<Option<Vec<u8>>, anyhow::Error>)
        ensures
            self.get_result(key@, r),
    ;

    /// Remove a key.
    fn remove(&self, key: &[u8]) -> (r: Result<(), anyhow::Error>)
        ensures
            self.remove_result(key@, r),
    ;

    /// All key-value pairs.
    fn entries(&self) -> (r: Result<Vec<(Vec<u8>, Vec<u8>)>, anyhow::Error>)
        ensures
            self.entries_result(r),
    ;
}

/// Storage interface for modules. Host implements this; its trees are
/// shared handles, so a clone is the same tree. An implementation that
/// does not describe the results of opening a tree leaves every result
/// possible.
pub trait ModuleStorage {
    type Tree: ModuleTree + Clone;

    /// Whether `r` is a result that opening the tree named `name` can give.
    closed spec fn open_result(&self, name: Seq<char>, r: Result<Self::Tree, anyhow::Error>) -> bool {
        true
    }

    /// Open a named tree/table.
    fn open_tree(&self, name: &str) -> (r: Result<Self::Tree, anyhow::Error>)
        ensures
            self.open_result(name@, r),
    ;
}

/// Bridge: a `ModuleStorage` used where a database is expected.
pub struct ModuleStorageDatabaseBridge<S: ModuleStorage> {
    storage: S,
}

impl<S: ModuleStorage> ModuleStorageDatabaseBridge<S> {
    /// Create bridge from module storage.
    pub fn new(storage: S) -> (r: Self)
        ensures
            r.storage_view() == storage,
    {
        ModuleStorageDatabaseBridge { storage }
    }

    /// The storage bridged.
    pub closed spec fn storage_view(&self) -> S {
        self.storage
    }

    /// Open a named tree of the storage: the storage's own result, its
    /// tree adapted.
    pub fn open_tree(&self, name: &str) -> (r: Result<ModuleTreeAdapter<S::Tree>, anyhow::Error>)
        ensures
            self.storage_view().open_result(
                name@,
                match r {
                    Ok(a) => Ok(a.tree_view()),
                    Err(e) => Err(e),
                },
            ),
    {
        match self.storage.open_tree(name) {
            Ok(t) => Ok(ModuleTreeAdapter { tree: t }),
            Err(e) => Err(e),
        }
    }

    /// Nothing to flush: the storage writes through.
    pub fn flush(&self) -> (r: Result<(), anyhow::Error>)
        ensures
            r is Ok,
    {
        Ok(())
    }
}

/// A module tree offered as a database tree.
pub struct ModuleTreeAdapter<T: ModuleTree> {
    tree: T,
}

impl<T: ModuleTree + Clone> ModuleTreeAdapter<T> {
    /// The tree adapted.
    pub closed spec fn tree_view(&self) -> T {
        self.tree
    }

    /// Insert a key-value pair: the tree's own result.
    pub fn insert(&self, key: &[u8], value: &[u8]) -> (r: Result<(), anyhow::Error>)
        ensures
            self.tree_view().insert_result(key@, value@, r),
    {
        self.tree.insert(key, value)
    }

    /// Get a value by key: the tree's own result.
    pub fn get(&self, key: &[u8]) -> (r: Result<Option<Vec<u8>>, anyhow::Error>)
        ensures
            self.tree_view().get_result(key@, r),
    {
        self.tree.get(key)
    }

    /// Remove a key: the tree's own result.
    pub fn remove(&self, key: &[u8]) -> (r: Result<(), anyhow::Error>)
        ensures
            self.tree_view().remove_result(key@, r),
    {
        self.tree.remove(key)
    }

    /// Whether a key has a value: what a read of the key gives, its
    /// failure passed on.
    pub fn contains_key(&self, key: &[u8]) -> (r: Result<bool, anyhow::Error>)
        ensures
            r matches Ok(b) ==> exists|v: Option<Vec<u8>>|
                #[trigger] self.tree_view().get_result(key@, Ok(v)) && b == v is Some,
            r matches Err(e) ==> self.tree_view().get_result(key@, Err(e)),
    {
        let found = self.tree.get(key);
        match found {
            Ok(v) => {
                let b = v.is_some();
                assert(self.tree_view().get_result(key@, Ok::<Option<Vec<u8>>, anyhow::Error>(v)));
                Ok(b)
            },
            Err(e) => Err(e),
        }
    }

    /// Remove every key that the tree lists, in the order listed; a
    /// failure of the listing, or of a removal, which ends it, is passed
    /// on.
    pub fn clear(&self) -> (r: Result<(), anyhow::Error>)
        ensures
            r is Ok ==> exists|es: Vec<(Vec<u8>, Vec<u8>)>|
                #[trigger] self.tree_view().entries_result(Ok(es)) && forall|i: int|
                    0 <= i < es@.len() ==> self.tree_view().remove_result(
                        (#[trigger] es@[i]).0@,
                        Ok(()),
                    ),
            r matches Err(e) ==> self.tree_view().entries_result(Err(e)) || exists|
                es: Vec<(Vec<u8>, Vec<u8>)>,
                k: int,
            |
                #![trigger self.tree_view().entries_result(Ok(es)), self.tree_view().remove_result(es@[k].0@, Err(e))]
                self.tree_view().entries_result(Ok(es)) && 0 <= k < es@.len() && (forall|i: int|
                    0 <= i < k ==> self.tree_view().remove_result((#[trigger] es@[i]).0@, Ok(())))
                    && self.tree_view().remove_result(es@[k].0@, Err(e)),
    {
        let items = match self.tree.entries() {
            Ok(v) => v,
            Err(e) => {
                return Err(e);
            },
        };
        let mut i: usize = 0;
        while i < items.len()
            invariant
                i <= items@.len(),
                self.tree_view().entries_result(Ok(items)),
                forall|j: int| 0 <= j < i ==> self.tree_view().remove_result((#[trigger] items@[j]).0@, Ok(())),
            decreases items@.len() - i,
        {
            let removed = self.tree.remove(items[i].0.as_slice());
            match removed {
                Ok(u) => {
                    assert(u == ());
                    assert(self.tree_view().remove_result(items@[i as int].0@, Ok::<(), anyhow::Error>(())));
                },
                Err(e) => {
                    assert(self.tree_view().remove_result(items@[i as int].0@, Err(e)));
                    return Err(e);
                },
            }
            i = i + 1;
        }
        Ok(())
    }

    /// The number of pairs that the tree lists; a failure of the listing
    /// is passed on.
    pub fn len(&self) -> (r: Result<usize, anyhow::Error>)
        ensures
            r matches Ok(n) ==> exists|es: Vec<(Vec<u8>, Vec<u8>)>|
                #[trigger] self.tree_view().entries_result(Ok(es)) && n == es@.len(),
            r matches Err(e) ==> self.tree_view().entries_result(Err(e)),
    {
        let listed = self.tree.entries();
        match listed {
            Ok(v) => {
                let n = v.len();
                assert(self.tree_view().entries_result(Ok::<Vec<(Vec<u8>, Vec<u8>)>, anyhow::Error>(v)));
                Ok(n)
            },
            Err(e) => Err(e),
        }
    }

    /// All key-value pairs: the tree's own listing.
    pub fn entries(&self) -> (r: Result<Vec<(Vec<u8>, Vec<u8>)>, anyhow::Error>)
        ensures
            self.tree_view().entries_result(r),
    {
        self.tree.entries()
    }

    /// A write batch over this tree.
    pub fn batch(&self) -> (r: SimpleBatchWriter<T>)
        ensures
            r.puts_view() == Seq::<(Seq<u8>, Seq<u8>)>::empty(),
            r.deletes_view() == Seq::<Seq<u8>>::empty(),
    {
        let r = SimpleBatchWriter { tree: self.tree.clone(), puts: Vec::new(), deletes: Vec::new() };
        assert(r.puts_view() =~= Seq::<(Seq<u8>, Seq<u8>)>::empty());
        assert(r.deletes_view() =~= Seq::<Seq<u8>>::empty());
        r
    }
}

/// The pending writes of a batch as values.
pub open spec fn puts_of(v: Seq<(Vec<u8>, Vec<u8>)>) -> Seq<(Seq<u8>, Seq<u8>)> {
    v.map_values(|p: (Vec<u8>, Vec<u8>)| (p.0@, p.1@))
}

/// The pending deletions of a batch as values.
pub open spec fn deletes_of(v: Seq<Vec<u8>>) -> Seq<Seq<u8>> {
    v.map_values(|k: Vec<u8>| k@)
}

/// A write batch: deletions and writes recorded, then committed together,
/// the deletions first.
pub struct SimpleBatchWriter<T: ModuleTree> {
    tree: T,
    puts: Vec<(Vec<u8>, Vec<u8>)>,
    deletes: Vec<Vec<u8>>,
}

impl<T: ModuleTree> SimpleBatchWriter<T> {
    /// The tree that the batch writes to.
    pub closed spec fn tree_view(&self) -> T {
        self.tree
    }

    /// The pending writes, in order.
    pub closed spec fn puts_view(&self) -> Seq<(Seq<u8>, Seq<u8>)> {
        puts_of(self.puts@)
    }

    /// The pending deletions, in order.
    pub closed spec fn deletes_view(&self) -> Seq<Seq<u8>> {
        deletes_of(self.deletes@)
    }

    /// Record a write: pending deletions of the key are dropped and the
    /// write is added last.
    pub fn put(&mut self, key: &[u8], value: &[u8])
        ensures
            final(self).deletes_view() == old(self).deletes_view().filter(|k: Seq<u8>| k != key@),
            final(self).puts_view() == old(self).puts_view().push((key@, value@)),
    {
        let mut kept: Vec<Vec<u8>> = Vec::new();
        let ghost old_d = deletes_of(self.deletes@);
        let mut i: usize = 0;
        while i < self.deletes.len()
            invariant
                i <= self.deletes@.len(),
                old_d == deletes_of(self.deletes@),
                deletes_of(kept@) == old_d.take(i as int).filter(|k: Seq<u8>| k != key@),
            decreases self.deletes@.len() - i,
        {
            proof {
                assert(old_d.take(i + 1).drop_last() =~= old_d.take(i as int));
                assert(old_d.take(i + 1).last() == self.deletes@[i as int]@);
                reveal(Seq::filter);
            }
            if !bytes_eq(self.deletes[i].as_slice(), key) {
                let ghost before = kept@;
                kept.push(copy_bytes(self.deletes[i].as_slice()));
                assert(deletes_of(kept@) =~= deletes_of(before).push(self.deletes@[i as int]@));
            }
            i = i + 1;
        }
        proof {
            assert(old_d.take(i as int) =~= old_d);
        }
        self.deletes = kept;
        let ghost old_p = puts_of(self.puts@);
        self.puts.push((copy_bytes(key), copy_bytes(value)));
        assert(puts_of(self.puts@) =~= old_p.push((key@, value@)));
    }

    /// Record a deletion: pending writes of the key are dropped and the
    /// deletion is added last.
    pub fn delete(&mut self, key: &[u8])
        ensures
            final(self).puts_view() == old(self).puts_view().filter(
                |p: (Seq<u8>, Seq<u8>)| p.0 != key@,
            ),
            final(self).deletes_view() == old(self).deletes_view().push(key@),
    {
        let mut kept: Vec<(Vec<u8>, Vec<u8>)> = Vec::new();
        let ghost old_p = puts_of(self.puts@);
        let mut i: usize = 0;
        while i < self.puts.len()
            invariant
                i <= self.puts@.len(),
                old_p == puts_of(self.puts@),
                puts_of(kept@) == old_p.take(i as int).filter(|p: (Seq<u8>, Seq<u8>)| p.0 != key@),
            decreases self.puts@.len() - i,
        {
            proof {
                assert(old_p.take(i + 1).drop_last() =~= old_p.take(i as int));
                assert(old_p.take(i + 1).last() == (self.puts@[i as int].0@, self.puts@[i as int].1@));
                reveal(Seq::filter);
            }
            if !bytes_eq(self.puts[i].0.as_slice(), key) {
                let ghost before = kept@;
                let k = copy_bytes(self.puts[i].0.as_slice());
                let v = copy_bytes(self.puts[i].1.as_slice());
                kept.push((k, v));
                assert(puts_of(kept@) =~= puts_of(before).push((k@, v@)));
            }
            i = i + 1;
        }
        proof {
            assert(old_p.take(i as int) =~= old_p);
        }
        self.puts = kept;
        let ghost old_d = deletes_of(self.deletes@);
        self.deletes.push(copy_bytes(key));
        assert(deletes_of(self.deletes@) =~= old_d.push(key@));
    }

    /// Apply the batch: every pending deletion in order, then every
    /// pending write in order; the first failure stops it and is passed
    /// on.
    pub fn commit(self) -> (r: Result<(), anyhow::Error>)
        ensures
            r is Ok ==> (forall|i: int|
                0 <= i < self.deletes_view().len() ==> self.tree_view().remove_result(
                    #[trigger] self.deletes_view()[i],
                    Ok(()),
                )) && (forall|j: int|
                0 <= j < self.puts_view().len() ==> self.tree_view().insert_result(
                    (#[trigger] self.puts_view()[j]).0,
                    self.puts_view()[j].1,
                    Ok(()),
                )),
            r matches Err(e) ==> (exists|k: int|
                #![trigger self.tree_view().remove_result(self.deletes_view()[k], Err(e))]
                0 <= k < self.deletes_view().len() && (forall|i: int|
                    0 <= i < k ==> self.tree_view().remove_result(#[trigger] self.deletes_view()[i], Ok(())))
                    && self.tree_view().remove_result(self.deletes_view()[k], Err(e))) || ((forall|i: int|
                0 <= i < self.deletes_view().len() ==> self.tree_view().remove_result(
                    #[trigger] self.deletes_view()[i],
                    Ok(()),
                )) && exists|k: int|
                #![trigger self.tree_view().insert_result(self.puts_view()[k].0, self.puts_view()[k].1, Err(e))]
                0 <= k < self.puts_view().len() && (forall|j: int|
                    0 <= j < k ==> self.tree_view().insert_result(
                        (#[trigger] self.puts_view()[j]).0,
                        self.puts_view()[j].1,
                        Ok(()),
                    )) && self.tree_view().insert_result(self.puts_view()[k].0, self.puts_view()[k].1, Err(e))),
    {
        let ghost dv = self.deletes_view();
        let ghost pv = self.puts_view();
        let mut i: usize = 0;
        while i < self.deletes.len()
            invariant
                i <= self.deletes@.len(),
                dv == deletes_of(self.deletes@),
                forall|k: int| 0 <= k < i ==> self.tree.remove_result(#[trigger] dv[k], Ok(())),
            decreases self.deletes@.len() - i,
        {
            let removed = self.tree.remove(self.deletes[i].as_slice());
            assert(dv[i as int] == self.deletes@[i as int]@);
            match removed {
                Ok(u) => {
                    assert(u == ());
                    assert(self.tree.remove_result(dv[i as int], Ok::<(), anyhow::Error>(())));
                },
                Err(e) => {
                    assert(self.tree_view().remove_result(self.deletes_view()[i as int], Err(e)));
                    assert(forall|k: int|
                        0 <= k < i ==> self.tree_view().remove_result(#[trigger] self.deletes_view()[k], Ok(())));
                    return Err(e);
                },
            }
            i = i + 1;
        }
        let mut j: usize = 0;
        while j < self.puts.len()
            invariant
                j <= self.puts@.len(),
                dv == deletes_of(self.deletes@),
                pv == puts_of(self.puts@),
                forall|k: int| 0 <= k < dv.len() ==> self.tree.remove_result(#[trigger] dv[k], Ok(())),
                forall|k: int| 0 <= k < j ==> self.tree.insert_result((#[trigger] pv[k]).0, pv[k].1, Ok(())),
            decreases self.puts@.len() - j,
        {
            let inserted = self.tree.insert(self.puts[j].0.as_slice(), self.puts[j].1.as_slice());
            assert(pv[j as int] == (self.puts@[j as int].0@, self.puts@[j as int].1@));
            match inserted {
                Ok(u) => {
                    assert(u == ());
                    assert(self.tree.insert_result(pv[j as int].0, pv[j as int].1, Ok::<(), anyhow::Error>(())));
                },
                Err(e) => {
                    assert(self.tree_view().insert_result(self.puts_view()[j as int].0, self.puts_view()[j as int].1, Err(e)));
                    assert(forall|k: int|
                        0 <= k < j ==> self.tree_view().insert_result(
                            (#[trigger] self.puts_view()[k]).0,
                            self.puts_view()[k].1,
                            Ok(()),
                        ));
                    return Err(e);
                },
            }
            j = j + 1;
        }
        Ok(())
    }

    /// The number of pending operations.
    pub fn len(&self) -> (r: usize)
        requires
            self.puts_view().len() + self.deletes_view().len() <= usize::MAX,
        ensures
            r == self.puts_view().len() + self.deletes_view().len(),
    {
        self.puts.len() + self.deletes.len()
    }
}

} // verus!
