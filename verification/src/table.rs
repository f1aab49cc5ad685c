//! The keyed store, modelled as explicit typed tables.
//!
//! The host runtime persists one row per key; within one operation all reads
//! and writes are transactionally scoped. Here each persisted key schema gets
//! one `Table`: an association list with unique keys whose view is the
//! mathematical map from key views to value models. `Registry` wraps a table
//! into a presence set for the uniqueness registries.

use vstd::prelude::*;

verus! {

/// A key of one of the contract's persisted tables. `key_eq` decides
/// equality of two keys and agrees with equality of their views.
pub trait TableKey: View + Sized {
    fn key_eq(&self, other: &Self) -> (r: bool)
        ensures
            r == (self@ == other@),
    ;
}

impl TableKey for String {
    fn key_eq(&self, other: &Self) -> (r: bool)
        ensures
            r == (self@ == other@),
    {
        *self == *other
    }
}

impl TableKey for u64 {
    fn key_eq(&self, other: &Self) -> (r: bool)
        ensures
            r == (self@ == other@),
    {
        *self == *other
    }
}

impl TableKey for (u64, String) {
    fn key_eq(&self, other: &Self) -> (r: bool)
        ensures
            r == (self@ == other@),
    {
        self.0 == other.0 && self.1 == other.1
    }
}

impl TableKey for (String, String) {
    fn key_eq(&self, other: &Self) -> (r: bool)
        ensures
            r == (self@ == other@),
    {
        self.0 == other.0 && self.1 == other.1
    }
}

/// The contents of an association list, as a map from key views to value
/// models; a later entry for the same key view overrides an earlier one.
pub open spec fn table_view<K: View, V: DeepView>(s: Seq<(K, V)>) -> Map<K::V, V::V>
    decreases s.len(),
{
    if s.len() == 0 {
        Map::empty()
    } else {
        table_view(s.drop_last()).insert(s.last().0@, s.last().1.deep_view())
    }
}

/// No two entries share a key view.
pub open spec fn keys_unique<K: View, V>(s: Seq<(K, V)>) -> bool {
    forall|i: int, j: int| 0 <= i < j < s.len() ==> s[i].0@ != s[j].0@
}

proof fn lemma_keys_unique_drop_last<K: View, V>(s: Seq<(K, V)>)
    requires
        keys_unique(s),
        s.len() > 0,
    ensures
        keys_unique(s.drop_last()),
{
    assert forall|i: int, j: int|
        0 <= i < j < s.drop_last().len() implies s.drop_last()[i].0@ != s.drop_last()[j].0@ by {
        assert(s.drop_last()[i] == s[i]);
        assert(s.drop_last()[j] == s[j]);
    }
}

proof fn lemma_table_view_contains<K: View, V: DeepView>(s: Seq<(K, V)>, k: K::V)
    ensures
        table_view(s).contains_key(k) <==> (exists|i: int| 0 <= i < s.len() && s[i].0@ == k),
    decreases s.len(),
{
    if s.len() > 0 {
        lemma_table_view_contains(s.drop_last(), k);
        if s.last().0@ == k {
            assert(s[s.len() - 1].0@ == k);
        } else {
            if table_view(s).contains_key(k) {
                let i = choose|i: int| 0 <= i < s.drop_last().len() && s.drop_last()[i].0@ == k;
                assert(s[i].0@ == k);
            }
            if exists|i: int| 0 <= i < s.len() && s[i].0@ == k {
                let i = choose|i: int| 0 <= i < s.len() && s[i].0@ == k;
                assert(s.drop_last()[i].0@ == k);
            }
        }
    }
}

proof fn lemma_table_view_at<K: View, V: DeepView>(s: Seq<(K, V)>, i: int)
    requires
        keys_unique(s),
        0 <= i < s.len(),
    ensures
        table_view(s).contains_key(s[i].0@),
        table_view(s)[s[i].0@] == s[i].1.deep_view(),
    decreases s.len(),
{
    if i < s.len() - 1 {
        lemma_keys_unique_drop_last(s);
        lemma_table_view_at(s.drop_last(), i);
        assert(s.drop_last()[i] == s[i]);
        assert(s[i].0@ != s[s.len() - 1].0@);
    }
}

proof fn lemma_table_view_update<K: View, V: DeepView>(s: Seq<(K, V)>, i: int, e: (K, V))
    requires
        keys_unique(s),
        0 <= i < s.len(),
        e.0@ == s[i].0@,
    ensures
        table_view(s.update(i, e)) =~= table_view(s).insert(e.0@, e.1.deep_view()),
    decreases s.len(),
{
    let t = s.update(i, e);
    if i == s.len() - 1 {
        assert(t.drop_last() =~= s.drop_last());
        assert(t.last() == e);
    } else {
        assert(t.drop_last() =~= s.drop_last().update(i, e));
        assert(t.last() == s.last());
        lemma_keys_unique_drop_last(s);
        lemma_table_view_update(s.drop_last(), i, e);
        assert(s[i].0@ != s[s.len() - 1].0@);
    }
}

proof fn lemma_table_view_remove<K: View, V: DeepView>(s: Seq<(K, V)>, i: int)
    requires
        keys_unique(s),
        0 <= i < s.len(),
    ensures
        table_view(s.remove(i)) =~= table_view(s).remove(s[i].0@),
    decreases s.len(),
{
    let t = s.remove(i);
    if i == s.len() - 1 {
        assert(t =~= s.drop_last());
        lemma_table_view_contains(s.drop_last(), s[i].0@);
        assert forall|j: int| 0 <= j < s.drop_last().len() implies s.drop_last()[j].0@ != s[i].0@ by {
            assert(s.drop_last()[j] == s[j]);
        }
    } else {
        assert(t.drop_last() =~= s.drop_last().remove(i));
        assert(t.last() == s.last());
        lemma_keys_unique_drop_last(s);
        lemma_table_view_remove(s.drop_last(), i);
        assert(s[i].0@ != s[s.len() - 1].0@);
    }
}

/// One table of the persisted state: an association list with unique keys.
pub struct Table<K, V> {
    pub entries: Vec<(K, V)>,
}

impl<K: TableKey, V: DeepView> View for Table<K, V> {
    type V = Map<<K as View>::V, <V as DeepView>::V>;

    open spec fn view(&self) -> Self::V {
        table_view(self.entries@)
    }
}

impl<K: TableKey, V: DeepView> Table<K, V> {
    pub open spec fn wf(self) -> bool {
        keys_unique(self.entries@)
    }

    pub fn new() -> (r: Self)
        ensures
            r.wf(),
            r@ == Map::<<K as View>::V, <V as DeepView>::V>::empty(),
    {
        Table { entries: Vec::new() }
    }

    fn index_of(&self, k: &K) -> (r: Option<usize>)
        ensures
            match r {
                Some(i) => i < self.entries@.len() && self.entries@[i as int].0@ == k@,
                None => forall|i: int| 0 <= i < self.entries@.len() ==> self.entries@[i].0@ != k@,
            },
    {
        let n = self.entries.len();
        let mut i: usize = 0;
        while i < n
            invariant
                n == self.entries@.len(),
                i <= n,
                forall|j: int| 0 <= j < i ==> self.entries@[j].0@ != k@,
            decreases n - i,
        {
            if self.entries[i].0.key_eq(k) {
                return Some(i);
            }
            i = i + 1;
        }
        None
    }

    /// Loads the row for `k`, or reports that no such row exists.
    pub fn get(&self, k: &K) -> (r: Option<&V>)
        requires
            self.wf(),
        ensures
            match r {
                Some(v) => self@.contains_key(k@) && v.deep_view() == self@[k@],
                None => !self@.contains_key(k@),
            },
    {
        proof {
            lemma_table_view_contains(self.entries@, k@);
        }
        match self.index_of(k) {
            Some(i) => {
                proof {
                    lemma_table_view_at(self.entries@, i as int);
                }
                Some(&self.entries[i].1)
            },
            None => None,
        }
    }

    pub fn contains_key(&self, k: &K) -> (r: bool)
        requires
            self.wf(),
        ensures
            r == self@.contains_key(k@),
    {
        self.get(k).is_some()
    }

    /// Writes the row for `k`, replacing any existing row with that key.
    pub fn save(&mut self, k: K, v: V)
        requires
            old(self).wf(),
        ensures
            final(self).wf(),
            final(self)@ == old(self)@.insert(k@, v.deep_view()),
    {
        match self.index_of(&k) {
            Some(i) => {
                proof {
                    lemma_table_view_update(self.entries@, i as int, (k, v));
                }
                let ghost s0 = self.entries@;
                let ghost kv = k@;
                self.entries[i] = (k, v);
                assert forall|a: int, b: int|
                    0 <= a < b < self.entries@.len() implies self.entries@[a].0@
                    != self.entries@[b].0@ by {
                    assert(s0[a].0@ != s0[b].0@);
                    if a != i as int {
                        assert(self.entries@[a] == s0[a]);
                    }
                    if b != i as int {
                        assert(self.entries@[b] == s0[b]);
                    }
                }
            },
            None => {
                let ghost s0 = self.entries@;
                self.entries.push((k, v));
                proof {
                    assert(self.entries@.drop_last() =~= s0);
                    assert forall|a: int, b: int|
                        0 <= a < b < self.entries@.len() implies self.entries@[a].0@
                        != self.entries@[b].0@ by {
                        if b < s0.len() {
                            assert(self.entries@[a] == s0[a]);
                            assert(self.entries@[b] == s0[b]);
                        } else {
                            assert(self.entries@[a] == s0[a]);
                        }
                    }
                }
            },
        }
    }

    /// Deletes the row for `k` and hands its value out; a miss leaves the
    /// table unchanged.
    pub fn take(&mut self, k: &K) -> (r: Option<V>)
        requires
            old(self).wf(),
        ensures
            final(self).wf(),
            match r {
                Some(v) => old(self)@.contains_key(k@) && v.deep_view() == old(self)@[k@]
                    && final(self)@ == old(self)@.remove(k@),
                None => !old(self)@.contains_key(k@) && *final(self) == *old(self),
            },
    {
        proof {
            lemma_table_view_contains(self.entries@, k@);
        }
        match self.index_of(k) {
            Some(i) => {
                proof {
                    lemma_table_view_at(self.entries@, i as int);
                    lemma_table_view_remove(self.entries@, i as int);
                }
                let ghost s0 = self.entries@;
                let e = self.entries.remove(i);
                proof {
                    assert(self.entries@ =~= s0.remove(i as int));
                    assert forall|a: int, b: int|
                        0 <= a < b < self.entries@.len() implies self.entries@[a].0@
                        != self.entries@[b].0@ by {
                        let a0 = if a < i as int { a } else { a + 1 };
                        let b0 = if b < i as int { b } else { b + 1 };
                        assert(self.entries@[a] == s0[a0]);
                        assert(self.entries@[b] == s0[b0]);
                        assert(s0[a0].0@ != s0[b0].0@);
                    }
                }
                Some(e.1)
            },
            None => None,
        }
    }

    /// Deletes the row for `k`; a miss leaves the table unchanged.
    pub fn remove(&mut self, k: &K)
        requires
            old(self).wf(),
        ensures
            final(self).wf(),
            final(self)@ == old(self)@.remove(k@),
    {
        match self.index_of(k) {
            Some(i) => {
                proof {
                    lemma_table_view_remove(self.entries@, i as int);
                }
                let ghost s0 = self.entries@;
                self.entries.remove(i);
                proof {
                    assert(self.entries@ =~= s0.remove(i as int));
                    assert forall|a: int, b: int|
                        0 <= a < b < self.entries@.len() implies self.entries@[a].0@
                        != self.entries@[b].0@ by {
                        let a0 = if a < i as int { a } else { a + 1 };
                        let b0 = if b < i as int { b } else { b + 1 };
                        assert(self.entries@[a] == s0[a0]);
                        assert(self.entries@[b] == s0[b0]);
                        assert(s0[a0].0@ != s0[b0].0@);
                    }
                }
            },
            None => {
                proof {
                    lemma_table_view_contains(self.entries@, k@);
                    assert(self@.remove(k@) =~= self@);
                }
            },
        }
    }
}

/// A uniqueness registry: the presence set of reserved names or URIs.
///
/// Reservation is a precondition gate, not the source of truth for
/// existence; releasing a key unconditionally frees it for reuse.
pub struct Registry {
    pub table: Table<String, bool>,
}

impl View for Registry {
    type V = Set<Seq<char>>;

    open spec fn view(&self) -> Set<Seq<char>> {
        self.table@.dom()
    }
}

impl Registry {
    pub open spec fn wf(self) -> bool {
        self.table.wf()
    }

    pub fn new() -> (r: Self)
        ensures
            r.wf(),
            r@ == Set::<Seq<char>>::empty(),
    {
        let r = Registry { table: Table::new() };
        proof {
            assert(r@ =~= Set::<Seq<char>>::empty());
        }
        r
    }

    /// `true` iff `k` is not reserved.
    pub fn is_free(&self, k: &String) -> (r: bool)
        requires
            self.wf(),
        ensures
            r == !self@.contains(k@),
    {
        !self.table.contains_key(k)
    }

    /// Reserves `k`; when `k` is already present nothing changes and the
    /// reservation is refused.
    pub fn reserve(&mut self, k: String) -> (ok: bool)
        requires
            old(self).wf(),
        ensures
            final(self).wf(),
            ok == !old(self)@.contains(k@),
            ok ==> final(self)@ == old(self)@.insert(k@),
            !ok ==> *final(self) == *old(self),
    {
        if self.table.contains_key(&k) {
            false
        } else {
            let ghost kv = k@;
            self.table.save(k, true);
            proof {
                assert(self@ =~= old(self)@.insert(kv));
            }
            true
        }
    }

    /// Releases `k` unconditionally.
    pub fn release(&mut self, k: &String)
        requires
            old(self).wf(),
        ensures
            final(self).wf(),
            final(self)@ == old(self)@.remove(k@),
    {
        self.table.remove(k);
        proof {
            assert(self@ =~= old(self)@.remove(k@));
        }
    }
}

} // verus!
