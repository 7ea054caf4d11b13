//! A mapping keyed by strings, stored as a list of entries.
//!
//! The list keeps the order in which keys first arrived, so it can be walked by
//! index; what it stands for is the mathematical mapping `table_of`.

use vstd::prelude::*;

verus! {

/// Whether some entry of `entries` is stored under `key`.
pub open spec fn has_key<V>(entries: Seq<(Seq<char>, V)>, key: Seq<char>) -> bool {
    exists|i: int| 0 <= i < entries.len() && (#[trigger] entries[i]).0 == key
}

/// An index at which `key` is stored, if there is one.
pub open spec fn position<V>(entries: Seq<(Seq<char>, V)>, key: Seq<char>) -> int {
    choose|i: int| 0 <= i < entries.len() && (#[trigger] entries[i]).0 == key
}

/// No key is stored twice.
pub open spec fn distinct_keys<V>(entries: Seq<(Seq<char>, V)>) -> bool {
    forall|i: int, j: int|
        0 <= i < j < entries.len() ==> (#[trigger] entries[i]).0 != (#[trigger] entries[j]).0
}

/// The mapping that a list of entries stands for.
pub open spec fn table_of<V>(entries: Seq<(Seq<char>, V)>) -> Map<Seq<char>, V> {
    Map::new(
        |key: Seq<char>| has_key(entries, key),
        |key: Seq<char>| entries[position(entries, key)].1,
    )
}

/// With distinct keys, the entry at index `i` is the one found under its key.
pub proof fn lemma_entry_lookup<V>(entries: Seq<(Seq<char>, V)>, i: int)
    requires
        distinct_keys(entries),
        0 <= i < entries.len(),
    ensures
        has_key(entries, entries[i].0),
        position(entries, entries[i].0) == i,
        table_of(entries).contains_key(entries[i].0),
        table_of(entries)[entries[i].0] == entries[i].1,
{
    let key = entries[i].0;
    let p = position(entries, key);
    assert(0 <= p < entries.len() && entries[p].0 == key);
    if p < i {
        assert(entries[p].0 != entries[i].0);
    } else if i < p {
        assert(entries[i].0 != entries[p].0);
    }
}

/// Appending an entry under a new key inserts it into the mapping.
pub proof fn lemma_table_push<V>(entries: Seq<(Seq<char>, V)>, key: Seq<char>, value: V)
    requires
        distinct_keys(entries),
        !has_key(entries, key),
    ensures
        distinct_keys(entries.push((key, value))),
        table_of(entries.push((key, value))) == table_of(entries).insert(key, value),
{
    let longer = entries.push((key, value));
    let n = entries.len() as int;
    assert forall|i: int, j: int| 0 <= i < j < longer.len() implies (#[trigger] longer[i]).0
        != (#[trigger] longer[j]).0 by {
        if j < n {
            assert(entries[i].0 != entries[j].0);
        } else {
            assert(entries[i].0 != key);
        }
    }
    assert forall|k: Seq<char>| has_key(longer, k) <==> (k == key || has_key(entries, k)) by {
        if has_key(longer, k) {
            let i = position(longer, k);
            if i < n {
                assert(entries[i].0 == k);
            }
        }
        if k == key {
            assert(longer[n].0 == k);
        }
        if has_key(entries, k) {
            let i = position(entries, k);
            assert(longer[i].0 == k);
        }
    }
    assert forall|k: Seq<char>| has_key(longer, k) implies #[trigger] table_of(longer)[k]
        == table_of(entries).insert(key, value)[k] by {
        if k == key {
            lemma_entry_lookup(longer, n);
        } else {
            let i = position(entries, k);
            assert(longer[i] == entries[i]);
            lemma_entry_lookup(longer, i);
        }
    }
    assert(table_of(longer) =~= table_of(entries).insert(key, value));
}

/// Replacing the value of the entry at index `i` updates the mapping at its key.
pub proof fn lemma_table_update<V>(entries: Seq<(Seq<char>, V)>, i: int, value: V)
    requires
        distinct_keys(entries),
        0 <= i < entries.len(),
    ensures
        distinct_keys(entries.update(i, (entries[i].0, value))),
        table_of(entries.update(i, (entries[i].0, value))) == table_of(entries).insert(
            entries[i].0,
            value,
        ),
{
    let key = entries[i].0;
    let changed = entries.update(i, (key, value));
    assert forall|a: int, b: int| 0 <= a < b < changed.len() implies (#[trigger] changed[a]).0
        != (#[trigger] changed[b]).0 by {
        assert(changed[a].0 == entries[a].0);
        assert(changed[b].0 == entries[b].0);
    }
    assert forall|k: Seq<char>| has_key(changed, k) <==> (k == key || has_key(entries, k)) by {
        if has_key(changed, k) {
            let j = position(changed, k);
            assert(entries[j].0 == k);
        }
        if k == key {
            assert(changed[i].0 == k);
        }
        if has_key(entries, k) {
            let j = position(entries, k);
            assert(changed[j].0 == k);
        }
    }
    assert forall|k: Seq<char>| has_key(changed, k) implies #[trigger] table_of(changed)[k]
        == table_of(entries).insert(key, value)[k] by {
        if k == key {
            lemma_entry_lookup(changed, i);
        } else {
            let j = position(entries, k);
            assert(changed[j] == entries[j]);
            lemma_entry_lookup(changed, j);
        }
    }
    assert(table_of(changed) =~= table_of(entries).insert(key, value));
}

/// Taking the entry at index `i` out removes its key from the mapping.
pub proof fn lemma_table_remove<V>(entries: Seq<(Seq<char>, V)>, i: int)
    requires
        distinct_keys(entries),
        0 <= i < entries.len(),
    ensures
        distinct_keys(entries.remove(i)),
        table_of(entries.remove(i)) == table_of(entries).remove(entries[i].0),
{
    let key = entries[i].0;
    let shorter = entries.remove(i);
    assert forall|a: int, b: int| 0 <= a < b < shorter.len() implies (#[trigger] shorter[a]).0
        != (#[trigger] shorter[b]).0 by {
        let a0 = if a < i {
            a
        } else {
            a + 1
        };
        let b0 = if b < i {
            b
        } else {
            b + 1
        };
        assert(shorter[a] == entries[a0]);
        assert(shorter[b] == entries[b0]);
        assert(entries[a0].0 != entries[b0].0);
    }
    assert forall|k: Seq<char>| has_key(shorter, k) <==> (k != key && has_key(entries, k)) by {
        if has_key(shorter, k) {
            let j = position(shorter, k);
            let j0 = if j < i {
                j
            } else {
                j + 1
            };
            assert(shorter[j] == entries[j0]);
            assert(entries[j0].0 == k);
            if j0 < i {
                assert(entries[j0].0 != entries[i].0);
            } else {
                assert(entries[i].0 != entries[j0].0);
            }
        }
        if k != key && has_key(entries, k) {
            let j0 = position(entries, k);
            let j = if j0 < i {
                j0
            } else {
                j0 - 1
            };
            assert(shorter[j] == entries[j0]);
            assert(shorter[j].0 == k);
        }
    }
    assert forall|k: Seq<char>| has_key(shorter, k) implies #[trigger] table_of(shorter)[k]
        == table_of(entries)[k] by {
        let j = position(shorter, k);
        let j0 = if j < i {
            j
        } else {
            j + 1
        };
        assert(shorter[j] == entries[j0]);
        lemma_entry_lookup(shorter, j);
        lemma_entry_lookup(entries, j0);
    }
    assert(table_of(shorter) =~= table_of(entries).remove(key));
}

/// A mapping from strings to values, kept as a list of entries with distinct keys.
pub struct StringMap<V> {
    items: Vec<(String, V)>,
}

impl<V> View for StringMap<V> {
    type V = Map<Seq<char>, V>;

    open spec fn view(&self) -> Map<Seq<char>, V> {
        table_of(self.entries())
    }
}

impl<V> StringMap<V> {
    /// The entries in the order in which they are walked.
    pub closed spec fn entries(&self) -> Seq<(Seq<char>, V)> {
        self.items@.map_values(|e: (String, V)| (e.0@, e.1))
    }

    #[verifier::type_invariant]
    spec fn well_formed(&self) -> bool {
        distinct_keys(self.entries())
    }

    /// An empty mapping.
    pub fn new() -> (m: Self)
        ensures
            m.entries() == Seq::<(Seq<char>, V)>::empty(),
            m@ == Map::<Seq<char>, V>::empty(),
    {
        let m = StringMap { items: Vec::new() };
        assert(m.entries() =~= Seq::<(Seq<char>, V)>::empty());
        assert(m@ =~= Map::<Seq<char>, V>::empty());
        m
    }

    /// The number of entries. Their keys are distinct.
    pub fn len(&self) -> (n: usize)
        ensures
            n == self.entries().len(),
            distinct_keys(self.entries()),
    {
        proof {
            use_type_invariant(self);
        }
        self.items.len()
    }

    /// The value of the entry at index `i`.
    pub fn value_at(&self, i: usize) -> (v: &V)
        requires
            i < self.entries().len(),
        ensures
            *v == self.entries()[i as int].1,
    {
        &self.items[i].1
    }

    fn find(&self, key: &str) -> (r: Option<usize>)
        ensures
            match r {
                Some(i) => i < self.entries().len() && self.entries()[i as int].0 == key@,
                None => !has_key(self.entries(), key@),
            },
    {
        let needle = key.to_owned();
        let mut i: usize = 0;
        while i < self.items.len()
            invariant
                i <= self.items.len(),
                needle@ == key@,
                forall|j: int| 0 <= j < i ==> (#[trigger] self.entries()[j]).0 != key@,
            decreases self.items.len() - i,
        {
            if self.items[i].0 == needle {
                return Some(i);
            }
            i += 1;
        }
        None
    }

    /// Whether `key` has a value.
    pub fn contains_key(&self, key: &str) -> (r: bool)
        ensures
            r == self@.contains_key(key@),
    {
        self.find(key).is_some()
    }

    /// The value stored under `key`, if any.
    pub fn get(&self, key: &str) -> (r: Option<&V>)
        ensures
            match r {
                Some(v) => self@.contains_key(key@) && *v == self@[key@],
                None => !self@.contains_key(key@),
            },
    {
        proof {
            use_type_invariant(self);
        }
        match self.find(key) {
            Some(i) => {
                proof {
                    lemma_entry_lookup(self.entries(), i as int);
                }
                Some(&self.items[i].1)
            },
            None => None,
        }
    }

    /// Stores `value` under `key`, in place of the value that `key` had, if any.
    /// A new key goes to the end of the entries; a known key keeps its place.
    pub fn insert(&mut self, key: String, value: V)
        ensures
            final(self)@ == old(self)@.insert(key@, value),
            final(self).entries() == if has_key(old(self).entries(), key@) {
                old(self).entries().update(
                    position(old(self).entries(), key@),
                    (key@, value),
                )
            } else {
                old(self).entries().push((key@, value))
            },
    {
        proof {
            use_type_invariant(&*self);
        }
        let found = self.find(key.as_str());
        let ghost before = self.entries();
        let mut items: Vec<(String, V)> = Vec::new();
        std::mem::swap(&mut items, &mut self.items);
        match found {
            Some(i) => {
                proof {
                    lemma_entry_lookup(before, i as int);
                    lemma_table_update(before, i as int, value);
                }
                items.set(i, (key, value));
                assert(items@.map_values(|e: (String, V)| (e.0@, e.1)) =~= before.update(
                    i as int,
                    (key@, value),
                ));
            },
            None => {
                proof {
                    lemma_table_push(before, key@, value);
                }
                items.push((key, value));
                assert(items@.map_values(|e: (String, V)| (e.0@, e.1)) =~= before.push(
                    (key@, value),
                ));
            },
        }
        self.items = items;
    }

    /// Takes `key` and its value out of the mapping and returns the value, if
    /// there was one.
    pub fn remove(&mut self, key: &str) -> (r: Option<V>)
        ensures
            final(self)@ == old(self)@.remove(key@),
            match r {
                Some(v) => old(self)@.contains_key(key@) && v == old(self)@[key@],
                None => !old(self)@.contains_key(key@),
            },
    {
        proof {
            use_type_invariant(&*self);
        }
        let found = self.find(key);
        let ghost before = self.entries();
        match found {
            Some(i) => {
                let mut items: Vec<(String, V)> = Vec::new();
                std::mem::swap(&mut items, &mut self.items);
                proof {
                    lemma_entry_lookup(before, i as int);
                    lemma_table_remove(before, i as int);
                }
                let entry = items.remove(i);
                assert(items@.map_values(|e: (String, V)| (e.0@, e.1)) =~= before.remove(i as int));
                self.items = items;
                Some(entry.1)
            },
            None => {
                assert(self@.remove(key@) =~= self@);
                None
            },
        }
    }
}

} // verus!
