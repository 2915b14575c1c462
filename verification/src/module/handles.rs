//! Tables of values known by integer handles.

use vstd::prelude::*;

verus! {

/// No handle occurs twice.
pub open spec fn handles_distinct<T>(s: Seq<(i32, T)>) -> bool {
    forall|i: int, j: int| 0 <= i < j < s.len() ==> s[i].0 != s[j].0
}

/// The handles with their values.
pub open spec fn table_map<T>(s: Seq<(i32, T)>) -> Map<i32, T>
    decreases s.len(),
{
    if s.len() == 0 {
        Map::empty()
    } else {
        table_map(s.drop_last()).insert(s.last().0, s.last().1)
    }
}

/// With distinct handles, a handle is in the table exactly where some
/// entry has it, with that entry's value.
pub proof fn lemma_table_lookup<T>(s: Seq<(i32, T)>, id: i32)
    requires
        handles_distinct(s),
    ensures
        table_map(s).dom().contains(id) <==> exists|i: int| 0 <= i < s.len() && (#[trigger] s[i]).0 == id,
        forall|i: int| 0 <= i < s.len() && (#[trigger] s[i]).0 == id ==> table_map(s)[id] == s[i].1,
    decreases s.len(),
{
    if s.len() > 0 {
        let p = s.drop_last();
        assert(handles_distinct(p));
        lemma_table_lookup(p, id);
        if table_map(p).dom().contains(id) {
            let i = choose|i: int| 0 <= i < p.len() && (#[trigger] p[i]).0 == id;
            assert(s[i] == p[i]);
        }
        if exists|i: int| 0 <= i < s.len() && (#[trigger] s[i]).0 == id {
            let i = choose|i: int| 0 <= i < s.len() && (#[trigger] s[i]).0 == id;
            if i < s.len() - 1 {
                assert(p[i] == s[i]);
            }
        }
        assert forall|i: int| 0 <= i < s.len() && (#[trigger] s[i]).0 == id implies table_map(s)[id]
            == s[i].1 by {
            if i < s.len() - 1 {
                assert(s[i] == p[i]);
            }
        }
    }
}

/// Replacing the value of entry `k` replaces the value of its handle.
pub proof fn lemma_table_update<T>(s: Seq<(i32, T)>, k: int, v: T)
    requires
        handles_distinct(s),
        0 <= k < s.len(),
    ensures
        handles_distinct(s.update(k, (s[k].0, v))),
        table_map(s.update(k, (s[k].0, v))) == table_map(s).insert(s[k].0, v),
    decreases s.len(),
{
    let t = s.update(k, (s[k].0, v));
    assert forall|i: int, j: int| 0 <= i < j < t.len() implies t[i].0 != t[j].0 by {
        assert(t[i].0 == s[i].0 && t[j].0 == s[j].0);
    }
    if k == s.len() - 1 {
        assert(t.drop_last() =~= s.drop_last());
        assert(table_map(t) =~= table_map(s).insert(s[k].0, v));
    } else {
        let p = s.drop_last();
        lemma_table_update(p, k, v);
        assert(t.drop_last() =~= p.update(k, (p[k].0, v)));
        assert(s.last().0 != s[k].0);
        assert(table_map(t) =~= table_map(s).insert(s[k].0, v));
    }
}

/// Removing entry `k` removes its handle.
pub proof fn lemma_table_remove<T>(s: Seq<(i32, T)>, k: int)
    requires
        handles_distinct(s),
        0 <= k < s.len(),
    ensures
        handles_distinct(s.remove(k)),
        table_map(s.remove(k)) == table_map(s).remove(s[k].0),
    decreases s.len(),
{
    let t = s.remove(k);
    assert forall|i: int, j: int| 0 <= i < j < t.len() implies t[i].0 != t[j].0 by {
        let a = if i < k { i } else { i + 1 };
        let b = if j < k { j } else { j + 1 };
        assert(t[i] == s[a] && t[j] == s[b]);
    }
    let p = s.drop_last();
    if k == s.len() - 1 {
        assert(t =~= p);
        lemma_table_lookup(p, s[k].0);
        assert forall|i: int| 0 <= i < p.len() implies (#[trigger] p[i]).0 != s[k].0 by {
            assert(p[i] == s[i]);
        }
        assert(table_map(t) =~= table_map(s).remove(s[k].0));
    } else {
        lemma_table_remove(p, k);
        assert(t.drop_last() =~= p.remove(k));
        assert(t.last() == s.last());
        assert(s.last().0 != s[k].0);
        assert(table_map(t) =~= table_map(s).remove(s[k].0));
    }
}

/// Values known by integer handles.
pub struct HandleTable<T> {
    entries: Vec<(i32, T)>,
}

impl<T> View for HandleTable<T> {
    type V = Map<i32, T>;

    closed spec fn view(&self) -> Map<i32, T> {
        table_map(self.entries@)
    }
}

impl<T> HandleTable<T> {
    /// No handle occurs twice.
    pub closed spec fn wf(&self) -> bool {
        handles_distinct(self.entries@)
    }

    /// An empty table.
    pub fn new() -> (r: Self)
        ensures
            r.wf(),
            r@ == Map::<i32, T>::empty(),
    {
        HandleTable { entries: Vec::new() }
    }

    /// The position of a handle's entry.
    fn position(&self, id: i32) -> (r: Option<usize>)
        requires
            self.wf(),
        ensures
            r matches Some(k) ==> k < self.entries@.len() && self.entries@[k as int].0 == id
                && self@.dom().contains(id) && self@[id] == self.entries@[k as int].1,
            r is None ==> !self@.dom().contains(id),
    {
        let mut k: usize = 0;
        while k < self.entries.len()
            invariant
                k <= self.entries@.len(),
                handles_distinct(self.entries@),
                forall|j: int| 0 <= j < k ==> (#[trigger] self.entries@[j]).0 != id,
            decreases self.entries@.len() - k,
        {
            if self.entries[k].0 == id {
                proof {
                    lemma_table_lookup(self.entries@, id);
                }
                return Some(k);
            }
            k = k + 1;
        }
        proof {
            lemma_table_lookup(self.entries@, id);
        }
        None
    }

    /// Whether a handle is in the table.
    pub fn contains(&self, id: i32) -> (r: bool)
        requires
            self.wf(),
        ensures
            r == self@.dom().contains(id),
    {
        self.position(id).is_some()
    }

    /// The value of a handle.
    pub fn get(&self, id: i32) -> (r: Option<&T>)
        requires
            self.wf(),
        ensures
            self@.dom().contains(id) ==> r == Some(&self@[id]),
            !self@.dom().contains(id) ==> r is None,
    {
        match self.position(id) {
            Some(k) => Some(&self.entries[k].1),
            None => None,
        }
    }

    /// Add a handle that is not in the table yet.
    pub fn insert_fresh(&mut self, id: i32, value: T)
        requires
            old(self).wf(),
            !old(self)@.dom().contains(id),
        ensures
            final(self).wf(),
            final(self)@ == old(self)@.insert(id, value),
    {
        proof {
            lemma_table_lookup(self.entries@, id);
        }
        let ghost before = self.entries@;
        self.entries.push((id, value));
        proof {
            assert(self.entries@.drop_last() =~= before);
            assert forall|i: int, j: int| 0 <= i < j < self.entries@.len() implies self.entries@[i].0
                != self.entries@[j].0 by {
                if j == before.len() {
                    assert(self.entries@[i] == before[i]);
                }
            }
        }
    }

    /// Replace the value of a handle in the table.
    pub fn set(&mut self, id: i32, value: T)
        requires
            old(self).wf(),
            old(self)@.dom().contains(id),
        ensures
            final(self).wf(),
            final(self)@ == old(self)@.insert(id, value),
    {
        let k = self.position(id).unwrap();
        proof {
            lemma_table_update(self.entries@, k as int, value);
        }
        self.entries.set(k, (id, value));
    }

    /// Remove a handle, if it is in the table.
    pub fn remove(&mut self, id: i32)
        requires
            old(self).wf(),
        ensures
            final(self).wf(),
            final(self)@ == old(self)@.remove(id),
    {
        match self.position(id) {
            Some(k) => {
                proof {
                    lemma_table_remove(self.entries@, k as int);
                }
                self.entries.remove(k);
            },
            None => {
                assert(self@.remove(id) =~= self@);
            },
        }
    }
}

} // verus!
