//! The key-value maps of a PSBT: byte-string keys, each present at most
//! once, kept in the order in which they were first inserted.

use vstd::prelude::*;
use vstd::std_specs::cmp::PartialEqSpecImpl;

verus! {

/// The entries of a map: (key, value) pairs.
pub type Entries = Seq<(Seq<u8>, Seq<u8>)>;

/// No key occurs twice.
pub open spec fn keys_distinct(es: Entries) -> bool {
    forall|i: int, j: int| 0 <= i < j < es.len() ==> #[trigger] es[i].0 != #[trigger] es[j].0
}

/// The position of the last entry with key `k`, or -1.
pub open spec fn key_index(es: Entries, k: Seq<u8>) -> int
    decreases es.len(),
{
    if es.len() == 0 {
        -1
    } else if es.last().0 == k {
        es.len() - 1
    } else {
        key_index(es.drop_last(), k)
    }
}

/// The entries after inserting `v` under `k`: a present key keeps its
/// position and takes the new value; a new key goes last.
pub open spec fn entries_insert(es: Entries, k: Seq<u8>, v: Seq<u8>) -> Entries {
    if key_index(es, k) >= 0 {
        es.update(key_index(es, k), (k, v))
    } else {
        es.push((k, v))
    }
}

/// The value stored under `k`, if any.
pub open spec fn entries_get(es: Entries, k: Seq<u8>) -> Option<Seq<u8>> {
    if key_index(es, k) >= 0 {
        Some(es[key_index(es, k)].1)
    } else {
        None
    }
}

/// The entries read as a finite map.
pub open spec fn entries_map(es: Entries) -> Map<Seq<u8>, Seq<u8>> {
    Map::new(|k: Seq<u8>| key_index(es, k) >= 0, |k: Seq<u8>| es[key_index(es, k)].1)
}

/// The view of a vector of owned entries.
pub open spec fn entries_view(v: Seq<(Vec<u8>, Vec<u8>)>) -> Entries {
    v.map_values(|e: (Vec<u8>, Vec<u8>)| (e.0@, e.1@))
}

/// `key_index` finds exactly the entries with key `k`.
pub proof fn lemma_key_index(es: Entries, k: Seq<u8>)
    ensures
        -1 <= key_index(es, k) < es.len(),
        key_index(es, k) >= 0 ==> es[key_index(es, k)].0 == k,
        key_index(es, k) < 0 ==> forall|i: int| 0 <= i < es.len() ==> #[trigger] es[i].0 != k,
        keys_distinct(es) ==> forall|i: int|
            0 <= i < es.len() && #[trigger] es[i].0 == k ==> key_index(es, k) == i,
    decreases es.len(),
{
    if es.len() > 0 {
        let d = es.drop_last();
        lemma_key_index(d, k);
        assert forall|i: int| 0 <= i < es.len() - 1 implies #[trigger] d[i] == es[i] by {}
        if key_index(es, k) < 0 {
            assert forall|i: int| 0 <= i < es.len() implies #[trigger] es[i].0 != k by {
                if i < es.len() - 1 {
                    assert(d[i] == es[i]);
                }
            }
        }
        if keys_distinct(es) {
            assert(keys_distinct(d)) by {
                assert forall|i: int, j: int| 0 <= i < j < d.len() implies #[trigger] d[i].0
                    != #[trigger] d[j].0 by {
                    assert(d[i] == es[i]);
                    assert(d[j] == es[j]);
                }
            }
            assert forall|i: int| 0 <= i < es.len() && #[trigger] es[i].0 == k implies key_index(
                es,
                k,
            ) == i by {
                if i < es.len() - 1 {
                    assert(es[i].0 != es[es.len() - 1].0);
                    assert(d[i] == es[i]);
                }
            }
        }
    }
}

/// Inserting keeps keys distinct and updates the map at `k` only.
pub proof fn lemma_entries_insert(es: Entries, k: Seq<u8>, v: Seq<u8>)
    requires
        keys_distinct(es),
    ensures
        keys_distinct(entries_insert(es, k, v)),
        entries_map(entries_insert(es, k, v)) == entries_map(es).insert(k, v),
{
    lemma_key_index(es, k);
    let r = entries_insert(es, k, v);
    let pos = if key_index(es, k) >= 0 {
        key_index(es, k)
    } else {
        es.len() as int
    };
    assert(r[pos] == (k, v));
    assert forall|i: int| 0 <= i < r.len() && i != pos implies #[trigger] r[i] == es[i] by {}
    assert(keys_distinct(r)) by {
        assert forall|i: int, j: int| 0 <= i < j < r.len() implies #[trigger] r[i].0
            != #[trigger] r[j].0 by {
            if i != pos && j != pos {
                assert(r[i] == es[i] && r[j] == es[j]);
            } else if i == pos {
                assert(r[j] == es[j]);
            } else {
                assert(r[i] == es[i]);
            }
        }
    }
    lemma_key_index(r, k);
    assert(r[pos].0 == k);
    assert(key_index(r, k) == pos);
    assert forall|k2: Seq<u8>| k2 != k implies #[trigger] key_index(r, k2) == key_index(es, k2)
        by {
        lemma_key_index(es, k2);
        lemma_key_index(r, k2);
        if key_index(es, k2) >= 0 {
            let i = key_index(es, k2);
            assert(i != pos);
            assert(r[i] == es[i]);
            assert(r[i].0 == k2);
        }
        if key_index(r, k2) >= 0 {
            let i = key_index(r, k2);
            assert(i != pos);
            assert(r[i] == es[i]);
            assert(es[i].0 == k2);
        }
    }
    assert forall|k2: Seq<u8>| #[trigger] entries_map(r).dom().contains(k2) implies entries_map(
        r,
    )[k2] == entries_map(es).insert(k, v)[k2] by {
        if k2 != k {
            lemma_key_index(es, k2);
            let i = key_index(es, k2);
            assert(i != pos);
            assert(r[i] == es[i]);
        }
    }
    assert(entries_map(r) =~= entries_map(es).insert(k, v));
}

/// Reading a key after storing a value under it gives that value, and
/// reading any other key gives what it gave before.
pub proof fn lemma_get_after_insert(es: Entries, k: Seq<u8>, v: Seq<u8>, k2: Seq<u8>)
    requires
        keys_distinct(es),
    ensures
        entries_get(entries_insert(es, k, v), k2) == if k2 == k {
            Some(v)
        } else {
            entries_get(es, k2)
        },
{
    lemma_entries_insert(es, k, v);
    let r = entries_insert(es, k, v);
    assert(entries_map(r).dom().contains(k2) == (key_index(r, k2) >= 0));
    assert(entries_map(es).dom().contains(k2) == (key_index(es, k2) >= 0));
    if k2 == k {
        assert(entries_map(r).dom().contains(k));
        assert(entries_map(r)[k] == v);
    } else {
        assert(entries_map(r).dom().contains(k2) == entries_map(es).dom().contains(k2));
        if key_index(es, k2) >= 0 {
            assert(entries_map(r)[k2] == entries_map(es)[k2]);
        }
    }
}

/// The bytes of `a` and `b` are equal.
pub fn bytes_eq(a: &[u8], b: &[u8]) -> (r: bool)
    ensures
        r == (a@ == b@),
{
    if a.len() != b.len() {
        return false;
    }
    let mut i: usize = 0;
    while i < a.len()
        invariant
            a@.len() == b@.len(),
            i <= a@.len(),
            forall|j: int| 0 <= j < i ==> a@[j] == b@[j],
        decreases a@.len() - i,
    {
        if a[i] != b[i] {
            return false;
        }
        i = i + 1;
    }
    proof {
        assert(a@ =~= b@);
    }
    true
}

/// A copy of the bytes of `a`.
pub fn copy_bytes(a: &[u8]) -> (r: Vec<u8>)
    ensures
        r@ == a@,
{
    let mut r: Vec<u8> = Vec::new();
    let mut i: usize = 0;
    while i < a.len()
        invariant
            i <= a@.len(),
            r@ == a@.take(i as int),
        decreases a@.len() - i,
    {
        r.push(a[i]);
        i = i + 1;
        proof {
            assert(a@.take(i as int) =~= a@.take(i - 1).push(a@[i - 1]));
        }
    }
    proof {
        assert(a@.take(i as int) =~= a@);
    }
    r
}

/// A key-value map of a PSBT section. Keys are distinct; entries keep the
/// order in which their keys were first inserted.
#[derive(Debug)]
pub struct PsbtMap {
    entries: Vec<(Vec<u8>, Vec<u8>)>,
}

impl View for PsbtMap {
    type V = Entries;

    closed spec fn view(&self) -> Entries {
        entries_view(self.entries@)
    }
}

impl PsbtMap {
    #[verifier::type_invariant]
    spec fn inv(self) -> bool {
        keys_distinct(entries_view(self.entries@))
    }

    /// The entries read as a finite map.
    pub open spec fn as_map(&self) -> Map<Seq<u8>, Seq<u8>> {
        entries_map(self@)
    }

    /// An empty map.
    pub fn new() -> (r: Self)
        ensures
            r@ == Seq::<(Seq<u8>, Seq<u8>)>::empty(),
    {
        let r = PsbtMap { entries: Vec::new() };
        proof {
            assert(entries_view(r.entries@) =~= Seq::<(Seq<u8>, Seq<u8>)>::empty());
        }
        r
    }

    /// The number of entries.
    pub fn len(&self) -> (r: usize)
        ensures
            r == self@.len(),
    {
        self.entries.len()
    }

    /// Whether the map has no entries.
    pub fn is_empty(&self) -> (r: bool)
        ensures
            r == (self@.len() == 0),
    {
        self.entries.len() == 0
    }

    /// The position of the entry with key `key`, if any.
    fn find(&self, key: &[u8]) -> (r: Option<usize>)
        ensures
            r matches Some(i) ==> i == key_index(self@, key@) && i < self@.len(),
            r is None ==> key_index(self@, key@) < 0,
            self@.len() == self.entries@.len(),
    {
        proof {
            use_type_invariant(self);
            lemma_key_index(self@, key@);
        }
        let mut i: usize = 0;
        while i < self.entries.len()
            invariant
                i <= self.entries@.len(),
                self@ == entries_view(self.entries@),
                keys_distinct(self@),
                forall|j: int| 0 <= j < i ==> #[trigger] self@[j].0 != key@,
                forall|j: int|
                    0 <= j < self@.len() && #[trigger] self@[j].0 == key@ ==> key_index(self@, key@)
                        == j,
                key_index(self@, key@) < 0 ==> forall|j: int|
                    0 <= j < self@.len() ==> #[trigger] self@[j].0 != key@,
            decreases self.entries@.len() - i,
        {
            proof {
                assert(self@[i as int] == (self.entries@[i as int].0@, self.entries@[i as int].1@));
            }
            if bytes_eq(self.entries[i].0.as_slice(), key) {
                proof {
                    assert(self@[i as int].0 == key@);
                }
                return Some(i);
            }
            i = i + 1;
        }
        proof {
            if key_index(self@, key@) >= 0 {
                assert(self@[key_index(self@, key@)].0 == key@);
            }
        }
        None
    }

    /// Whether some entry has key `key`.
    pub fn contains_key(&self, key: &[u8]) -> (r: bool)
        ensures
            r == (key_index(self@, key@) >= 0),
            r == self.as_map().dom().contains(key@),
    {
        self.find(key).is_some()
    }

    /// The value stored under `key`, if any.
    pub fn get(&self, key: &[u8]) -> (r: Option<&Vec<u8>>)
        ensures
            r matches Some(v) ==> entries_get(self@, key@) == Some(v@),
            r is None ==> entries_get(self@, key@) is None,
    {
        match self.find(key) {
            Some(i) => {
                proof {
                    assert(self@[i as int] == (self.entries@[i as int].0@, self.entries@[i as int].1@));
                }
                Some(&self.entries[i].1)
            },
            None => None,
        }
    }

    /// Store `value` under `key`, replacing any earlier value of that key.
    pub fn insert(&mut self, key: Vec<u8>, value: Vec<u8>)
        ensures
            final(self)@ == entries_insert(old(self)@, key@, value@),
            final(self).as_map() == old(self).as_map().insert(key@, value@),
    {
        proof {
            use_type_invariant(&*self);
            lemma_entries_insert(self@, key@, value@);
        }
        let ghost k = key@;
        let ghost v = value@;
        let found = self.find(key.as_slice());
        proof {
            lemma_key_index(self@, k);
        }
        let mut es: Vec<(Vec<u8>, Vec<u8>)> = Vec::new();
        std::mem::swap(&mut es, &mut self.entries);
        let ghost before = es@;
        match found {
            Some(i) => {
                es.set(i, (key, value));
                proof {
                    assert(entries_view(es@) =~= entries_view(before).update(i as int, (k, v)));
                }
            },
            None => {
                es.push((key, value));
                proof {
                    assert(entries_view(es@) =~= entries_view(before).push((k, v)));
                }
            },
        }
        self.entries = es;
    }

    /// The entries, in order.
    pub fn entries(&self) -> (r: &Vec<(Vec<u8>, Vec<u8>)>)
        ensures
            entries_view(r@) == self@,
            keys_distinct(self@),
    {
        proof {
            use_type_invariant(self);
        }
        &self.entries
    }
}

impl Clone for PsbtMap {
    fn clone(&self) -> (r: Self)
        ensures
            r@ == self@,
    {
        proof {
            use_type_invariant(self);
        }
        let mut es: Vec<(Vec<u8>, Vec<u8>)> = Vec::new();
        let mut i: usize = 0;
        while i < self.entries.len()
            invariant
                i <= self.entries@.len(),
                self@ == entries_view(self.entries@),
                keys_distinct(self@),
                entries_view(es@) == self@.take(i as int),
            decreases self.entries@.len() - i,
        {
            let k = copy_bytes(self.entries[i].0.as_slice());
            let v = copy_bytes(self.entries[i].1.as_slice());
            let ghost before = es@;
            es.push((k, v));
            proof {
                assert(entries_view(es@) =~= entries_view(before).push((k@, v@)));
                assert(self@.take(i + 1) =~= self@.take(i as int).push(self@[i as int]));
            }
            i = i + 1;
        }
        proof {
            assert(self@.take(i as int) =~= self@);
        }
        PsbtMap { entries: es }
    }
}

impl PartialEq for PsbtMap {
    fn eq(&self, other: &Self) -> (r: bool) {
        proof {
            use_type_invariant(self);
            use_type_invariant(other);
        }
        let mut i: usize = 0;
        while i < self.entries.len()
            invariant
                i <= self.entries@.len(),
                self@ == entries_view(self.entries@),
                keys_distinct(self@),
                keys_distinct(other@),
                forall|j: int|
                    0 <= j < i ==> #[trigger] entries_get(other@, self@[j].0) == Some(self@[j].1),
            decreases self.entries@.len() - i,
        {
            proof {
                assert(self@[i as int] == (self.entries@[i as int].0@, self.entries@[i as int].1@));
            }
            match other.get(self.entries[i].0.as_slice()) {
                Some(v) => {
                    if !bytes_eq(v.as_slice(), self.entries[i].1.as_slice()) {
                        proof {
                            let k = self@[i as int].0;
                            assert(self@[i as int] == (self.entries@[i as int].0@, self.entries@[i as int].1@));
                            lemma_key_index(self@, k);
                            lemma_key_index(other@, k);
                            assert(self.as_map()[k] == self@[i as int].1);
                            assert(other.as_map()[k] == v@);
                        }
                        return false;
                    }
                },
                None => {
                    proof {
                        let k = self@[i as int].0;
                        assert(self@[i as int] == (self.entries@[i as int].0@, self.entries@[i as int].1@));
                        lemma_key_index(self@, k);
                        assert(self.as_map().dom().contains(k));
                        assert(!other.as_map().dom().contains(k));
                    }
                    return false;
                },
            }
            i = i + 1;
        }
        let mut j: usize = 0;
        while j < other.entries.len()
            invariant
                j <= other.entries@.len(),
                other@ == entries_view(other.entries@),
                keys_distinct(self@),
                keys_distinct(other@),
                forall|m: int|
                    0 <= m < self@.len() ==> #[trigger] entries_get(other@, self@[m].0) == Some(
                        self@[m].1,
                    ),
                forall|m: int| 0 <= m < j ==> key_index(self@, #[trigger] other@[m].0) >= 0,
            decreases other.entries@.len() - j,
        {
            if !self.contains_key(other.entries[j].0.as_slice()) {
                proof {
                    let k = other@[j as int].0;
                    assert(other@[j as int] == (other.entries@[j as int].0@, other.entries@[j as int].1@));
                    lemma_key_index(other@, k);
                    assert(other.as_map().dom().contains(k));
                    assert(!self.as_map().dom().contains(k));
                }
                return false;
            }
            j = j + 1;
        }
        proof {
            assert forall|k: Seq<u8>| #![auto]
                self.as_map().dom().contains(k) == other.as_map().dom().contains(k) by {
                lemma_key_index(self@, k);
                lemma_key_index(other@, k);
                if key_index(self@, k) >= 0 {
                    let m = key_index(self@, k);
                    assert(entries_get(other@, self@[m].0) == Some(self@[m].1));
                }
                if key_index(other@, k) >= 0 {
                    let m = key_index(other@, k);
                    assert(key_index(self@, other@[m].0) >= 0);
                }
            }
            assert forall|k: Seq<u8>| #![auto] self.as_map().dom().contains(k) implies self.as_map()[k]
                == other.as_map()[k] by {
                lemma_key_index(self@, k);
                let m = key_index(self@, k);
                assert(entries_get(other@, self@[m].0) == Some(self@[m].1));
            }
            assert(self.as_map() =~= other.as_map());
        }
        true
    }
}

impl Eq for PsbtMap {

}

impl PartialEqSpecImpl for PsbtMap {
    open spec fn obeys_eq_spec() -> bool {
        true
    }

    open spec fn eq_spec(&self, other: &PsbtMap) -> bool {
        self.as_map() == other.as_map()
    }
}

} // verus!
