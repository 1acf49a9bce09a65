//! A keyed record store: an association list from [`Id`] to records,
//! with unique keys. It stands in for the persistent maps that hold
//! projects, assets, issue and burn requests, and orders.
//!
//! The abstraction is [`table_get`] over the sequence of pairs; the
//! structural clauses of [`Table::insert`] and [`Table::take`] let a
//! caller track weighted sums over the records as well.

use vstd::prelude::*;

use crate::ids::Id;

verus! {

/// No two pairs share a key.
pub open spec fn keys_unique<V>(s: Seq<(Id, V)>) -> bool {
    forall|i: int, j: int| 0 <= i < j < s.len() ==> (#[trigger] s[i]).0 != (#[trigger] s[j]).0
}

/// The value stored under `k`, if any.
pub open spec fn table_get<V>(s: Seq<(Id, V)>, k: Id) -> Option<V>
    decreases s.len(),
{
    if s.len() == 0 {
        None
    } else if s.last().0 == k {
        Some(s.last().1)
    } else {
        table_get(s.drop_last(), k)
    }
}

/// A pair present in a table with unique keys is the one `table_get` finds.
pub proof fn lemma_get_present<V>(s: Seq<(Id, V)>, i: int)
    requires
        keys_unique(s),
        0 <= i < s.len(),
    ensures
        table_get(s, s[i].0) == Some(s[i].1),
    decreases s.len(),
{
    if i < s.len() - 1 {
        assert(s.last().0 != s[i].0);
        assert(s.drop_last()[i] == s[i]);
        lemma_get_present(s.drop_last(), i);
    }
}

/// A key no pair carries is absent.
pub proof fn lemma_get_absent<V>(s: Seq<(Id, V)>, k: Id)
    requires
        forall|i: int| 0 <= i < s.len() ==> (#[trigger] s[i]).0 != k,
    ensures
        table_get(s, k) is None,
    decreases s.len(),
{
    if s.len() > 0 {
        assert(forall|i: int| 0 <= i < s.len() - 1 ==> (#[trigger] s.drop_last()[i]).0 != k);
        lemma_get_absent(s.drop_last(), k);
    }
}

/// Overwriting the pair at `i` in place changes only its key's binding.
pub proof fn lemma_get_update<V>(s: Seq<(Id, V)>, i: int, v: V)
    requires
        keys_unique(s),
        0 <= i < s.len(),
    ensures
        keys_unique(s.update(i, (s[i].0, v))),
        forall|k2: Id| #[trigger] table_get(s.update(i, (s[i].0, v)), k2) == if k2 == s[i].0 {
            Some(v)
        } else {
            table_get(s, k2)
        },
    decreases s.len(),
{
    let k = s[i].0;
    let t = s.update(i, (k, v));
    assert(forall|j: int| 0 <= j < s.len() ==> (#[trigger] t[j]).0 == s[j].0);
    if i == s.len() - 1 {
        assert(t.drop_last() =~= s.drop_last());
        assert forall|k2: Id| #[trigger] table_get(t, k2) == if k2 == k {
            Some(v)
        } else {
            table_get(s, k2)
        } by {
            if k2 != k {
                assert(table_get(t, k2) == table_get(t.drop_last(), k2));
            }
        }
    } else {
        assert(t.drop_last() =~= s.drop_last().update(i, (s.drop_last()[i].0, v)));
        assert(s.last().0 != k);
        lemma_get_update(s.drop_last(), i, v);
        assert forall|k2: Id| #[trigger] table_get(t, k2) == if k2 == k {
            Some(v)
        } else {
            table_get(s, k2)
        } by {
            assert(t.last() == s.last());
            if k2 != s.last().0 {
                assert(table_get(t, k2) == table_get(t.drop_last(), k2));
                assert(table_get(s, k2) == table_get(s.drop_last(), k2));
            }
        }
    }
}

/// Appending a pair with a fresh key adds only that binding.
pub proof fn lemma_get_push<V>(s: Seq<(Id, V)>, k: Id, v: V)
    requires
        keys_unique(s),
        forall|i: int| 0 <= i < s.len() ==> (#[trigger] s[i]).0 != k,
    ensures
        keys_unique(s.push((k, v))),
        forall|k2: Id| #[trigger] table_get(s.push((k, v)), k2) == if k2 == k {
            Some(v)
        } else {
            table_get(s, k2)
        },
{
    let t = s.push((k, v));
    assert(forall|i: int| 0 <= i < s.len() ==> t[i] == s[i]);
    assert(t.drop_last() =~= s);
}

/// Removing the pair at `i` drops only its key's binding.
pub proof fn lemma_get_remove<V>(s: Seq<(Id, V)>, i: int)
    requires
        keys_unique(s),
        0 <= i < s.len(),
    ensures
        keys_unique(s.remove(i)),
        forall|k2: Id| #[trigger] table_get(s.remove(i), k2) == if k2 == s[i].0 {
            None
        } else {
            table_get(s, k2)
        },
    decreases s.len(),
{
    let k = s[i].0;
    let t = s.remove(i);
    assert(forall|j: int| 0 <= j < t.len() ==> t[j] == if j < i {
        s[j]
    } else {
        s[j + 1]
    });
    if i == s.len() - 1 {
        assert(t =~= s.drop_last());
        assert forall|k2: Id| #[trigger] table_get(t, k2) == if k2 == k {
            None
        } else {
            table_get(s, k2)
        } by {
            if k2 == k {
                assert(forall|j: int| 0 <= j < t.len() ==> (#[trigger] t[j]).0 != k);
                lemma_get_absent(t, k);
            }
        }
    } else {
        assert(t.drop_last() =~= s.drop_last().remove(i));
        assert(t.last() == s.last());
        lemma_get_remove(s.drop_last(), i);
        assert forall|k2: Id| #[trigger] table_get(t, k2) == if k2 == k {
            None
        } else {
            table_get(s, k2)
        } by {
            if k2 != s.last().0 {
                assert(table_get(t, k2) == table_get(t.drop_last(), k2));
                assert(table_get(s, k2) == table_get(s.drop_last(), k2));
            }
        }
    }
}

/// A stored binding is held by some pair.
pub proof fn lemma_get_index<V>(s: Seq<(Id, V)>, k: Id)
    requires
        table_get(s, k) is Some,
    ensures
        exists|i: int|
            0 <= i < s.len() && (#[trigger] s[i]).0 == k && table_get(s, k) == Some(s[i].1),
    decreases s.len(),
{
    if s.last().0 == k {
        assert((#[trigger] s[s.len() - 1]).0 == k && table_get(s, k) == Some(s[s.len() - 1].1));
    } else {
        lemma_get_index(s.drop_last(), k);
        let i = choose|i: int|
            0 <= i < s.drop_last().len() && (#[trigger] s.drop_last()[i]).0 == k && table_get(
                s.drop_last(),
                k,
            ) == Some(s.drop_last()[i].1);
        assert((#[trigger] s[i]).0 == k && table_get(s, k) == Some(s[i].1));
    }
}

/// A record store keyed by identifier.
pub struct Table<V> {
    entries: Vec<(Id, V)>,
}

impl<V> View for Table<V> {
    type V = Seq<(Id, V)>;

    closed spec fn view(&self) -> Seq<(Id, V)> {
        self.entries@
    }
}

impl<V> Table<V> {
    /// Keys are unique, so bindings are well defined.
    pub open spec fn wf(&self) -> bool {
        keys_unique(self@)
    }

    /// The record stored under `k`, if any.
    pub open spec fn spec_get(&self, k: Id) -> Option<V> {
        table_get(self@, k)
    }

    /// Whether a record is stored under `k`.
    pub open spec fn spec_contains(&self, k: Id) -> bool {
        self.spec_get(k) is Some
    }

    /// An empty store.
    pub fn new() -> (r: Self)
        ensures
            r@.len() == 0,
            r.wf(),
    {
        Table { entries: Vec::new() }
    }

    /// The index holding `k`, if any.
    fn find(&self, k: Id) -> (r: Option<usize>)
        ensures
            match r {
                Some(i) => i < self@.len() && self@[i as int].0 == k,
                None => forall|i: int| 0 <= i < self@.len() ==> (#[trigger] self@[i]).0 != k,
            },
    {
        let mut i: usize = 0;
        while i < self.entries.len()
            invariant
                i <= self.entries.len(),
                forall|j: int| 0 <= j < i ==> (#[trigger] self.entries@[j]).0 != k,
            decreases self.entries.len() - i,
        {
            if self.entries[i].0 == k {
                return Some(i);
            }
            i += 1;
        }
        None
    }

    /// Borrow the record stored under `k`.
    pub fn get(&self, k: Id) -> (r: Option<&V>)
        requires
            self.wf(),
        ensures
            match r {
                Some(v) => self.spec_get(k) == Some(*v),
                None => self.spec_get(k) is None,
            },
    {
        match self.find(k) {
            Some(i) => {
                proof {
                    lemma_get_present(self@, i as int);
                }
                Some(&self.entries[i].1)
            },
            None => {
                proof {
                    lemma_get_absent(self@, k);
                }
                None
            },
        }
    }

    /// Whether a record is stored under `k`.
    pub fn contains_key(&self, k: Id) -> (r: bool)
        requires
            self.wf(),
        ensures
            r == self.spec_contains(k),
    {
        self.get(k).is_some()
    }

    /// Bind `k` to `v`, overwriting any previous binding.
    pub fn insert(&mut self, k: Id, v: V)
        requires
            old(self).wf(),
        ensures
            final(self).wf(),
            final(self).spec_get(k) == Some(v),
            forall|k2: Id| k2 != k ==> #[trigger] final(self).spec_get(k2) == old(self).spec_get(k2),
            if old(self).spec_contains(k) {
                exists|i: int|
                    0 <= i < old(self)@.len() && (#[trigger] old(self)@[i]).0 == k && final(self)@ == old(self)@.update(i, (k, v))
            } else {
                final(self)@ == old(self)@.push((k, v))
            },
    {
        let ghost s0 = self@;
        match self.find(k) {
            Some(i) => {
                proof {
                    lemma_get_present(s0, i as int);
                    lemma_get_update(s0, i as int, v);
                }
                self.entries[i] = (k, v);
                proof {
                    assert(self@ =~= s0.update(i as int, (k, v)));
                }
            },
            None => {
                proof {
                    lemma_get_absent(s0, k);
                    lemma_get_push(s0, k, v);
                }
                self.entries.push((k, v));
            },
        }
    }

    /// Remove and return the record stored under `k`.
    pub fn take(&mut self, k: Id) -> (r: Option<V>)
        requires
            old(self).wf(),
        ensures
            final(self).wf(),
            r == old(self).spec_get(k),
            final(self).spec_get(k) is None,
            forall|k2: Id| k2 != k ==> #[trigger] final(self).spec_get(k2) == old(self).spec_get(k2),
            match r {
                Some(_) => exists|i: int|
                    0 <= i < old(self)@.len() && (#[trigger] old(self)@[i]).0 == k && final(self)@ == old(self)@.remove(i),
                None => *final(self) == *old(self),
            },
    {
        let ghost s0 = self@;
        match self.find(k) {
            Some(i) => {
                proof {
                    lemma_get_present(s0, i as int);
                    lemma_get_remove(s0, i as int);
                }
                let (_, v) = self.entries.remove(i);
                Some(v)
            },
            None => {
                proof {
                    lemma_get_absent(s0, k);
                }
                None
            },
        }
    }
}

} // verus!
