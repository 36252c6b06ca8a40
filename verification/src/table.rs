//! A small keyed table: entries found by an identifier's name.
//!
//! The table is an association list. Its view is a `Map` from names to
//! values; of several entries under one name the first is the one that counts,
//! so every list of entries has a view and `put` needs no invariant.

use vstd::prelude::*;
use crate::names::Name;

verus! {

/// Entries keyed by identifier.
pub struct Table<V> {
    entries: Vec<(String, V)>,
}

/// `i` is the first position of `entries` whose key is named `key`.
spec fn first_at<V>(entries: Seq<(String, V)>, key: Name, i: int) -> bool {
    &&& 0 <= i < entries.len()
    &&& entries[i].0@ == key
    &&& forall|j: int| 0 <= j < i ==> (#[trigger] entries[j]).0@ != key
}

/// Some position of `entries` holds the key `key`.
spec fn has_key<V>(entries: Seq<(String, V)>, key: Name) -> bool {
    exists|i: int| 0 <= i < entries.len() && (#[trigger] entries[i]).0@ == key
}

/// The position that counts for `key`.
spec fn slot<V>(entries: Seq<(String, V)>, key: Name) -> int {
    choose|i: int| first_at(entries, key, i)
}

/// The first position of a key is the one that counts for it.
proof fn lemma_slot<V>(entries: Seq<(String, V)>, key: Name, i: int)
    requires
        first_at(entries, key, i),
    ensures
        slot(entries, key) == i,
        has_key(entries, key),
{
    let k = slot(entries, key);
    assert(first_at(entries, key, k));
    if k < i {
        assert(entries[k].0@ != key);
    } else if i < k {
        assert(entries[i].0@ != key);
    }
}

/// A key that occurs has a position that counts.
proof fn lemma_has_first<V>(entries: Seq<(String, V)>, key: Name)
    requires
        has_key(entries, key),
    ensures
        first_at(entries, key, slot(entries, key)),
{
    let i = choose|i: int| 0 <= i < entries.len() && (#[trigger] entries[i]).0@ == key;
    lemma_first_before(entries, key, i);
}

/// A key that occurs at `i` has a first position, at `i` or before it.
proof fn lemma_first_before<V>(entries: Seq<(String, V)>, key: Name, i: int)
    requires
        0 <= i < entries.len(),
        entries[i].0@ == key,
    ensures
        exists|k: int| first_at(entries, key, k),
    decreases i,
{
    if forall|j: int| 0 <= j < i ==> (#[trigger] entries[j]).0@ != key {
        assert(first_at(entries, key, i));
    } else {
        let j = choose|j: int| 0 <= j < i && (#[trigger] entries[j]).0@ == key;
        lemma_first_before(entries, key, j);
    }
}

/// The map that a list of entries stands for.
spec fn entries_map<V>(entries: Seq<(String, V)>) -> Map<Name, V> {
    Map::new(|k: Name| has_key(entries, k), |k: Name| entries[slot(entries, k)].1)
}

/// `after` is `before` with `value` under `key` at position `i`: in place of
/// the first entry of that key, or as a new last entry where there was none.
proof fn lemma_put<V>(
    before: Seq<(String, V)>,
    after: Seq<(String, V)>,
    key: Name,
    value: V,
    i: int,
)
    requires
        0 <= i <= before.len(),
        forall|j: int| 0 <= j < i ==> (#[trigger] before[j]).0@ != key,
        i < before.len() ==> before[i].0@ == key,
        after.len() == if i < before.len() { before.len() } else { before.len() + 1 },
        after[i].0@ == key,
        after[i].1 == value,
        forall|j: int| 0 <= j < before.len() && j != i ==> #[trigger] after[j] == before[j],
    ensures
        entries_map(after) == entries_map(before).insert(key, value),
{
    let lhs = entries_map(after);
    let rhs = entries_map(before).insert(key, value);
    assert(first_at(after, key, i));
    lemma_slot(after, key, i);
    assert forall|k: Name|
        #![trigger lhs.dom().contains(k)]
        #![trigger rhs.dom().contains(k)]
        lhs.dom().contains(k) == rhs.dom().contains(k) && (lhs.dom().contains(k) ==> lhs[k]
            == rhs[k]) by {
        if k == key {
        } else if has_key(before, k) {
            lemma_has_first(before, k);
            let j = slot(before, k);
            assert(after[j] == before[j]);
            assert forall|m: int| 0 <= m < j implies (#[trigger] after[m]).0@ != k by {
                if m != i {
                    assert(after[m] == before[m]);
                }
            }
            assert(first_at(after, k, j));
            lemma_slot(after, k, j);
        } else if has_key(after, k) {
            let m = choose|m: int| 0 <= m < after.len() && (#[trigger] after[m]).0@ == k;
            assert(after[m] == before[m]);
        }
    }
    assert(lhs =~= rhs);
}

impl<V> View for Table<V> {
    type V = Map<Name, V>;

    closed spec fn view(&self) -> Map<Name, V> {
        entries_map(self.entries@)
    }
}

impl<V> Table<V> {
    /// A table without entries.
    pub fn new() -> (table: Table<V>)
        ensures
            table@ == Map::<Name, V>::empty(),
    {
        let table = Table { entries: Vec::new() };
        assert(table@ =~= Map::<Name, V>::empty());
        table
    }

    /// The value stored under `key`, if there is one.
    pub fn get(&self, key: &String) -> (found: Option<&V>)
        ensures
            match found {
                Some(value) => self@.contains_key(key@) && self@[key@] == *value,
                None => !self@.contains_key(key@),
            },
    {
        let mut i: usize = 0;
        while i < self.entries.len()
            invariant
                i <= self.entries.len(),
                forall|j: int| 0 <= j < i ==> (#[trigger] self.entries@[j]).0@ != key@,
            decreases self.entries.len() - i,
        {
            if self.entries[i].0 == *key {
                proof {
                    lemma_slot(self.entries@, key@, i as int);
                }
                return Some(&self.entries[i].1);
            }
            i += 1;
        }
        None
    }

    /// Stores `value` under `key`, in place of what was stored there.
    pub fn put(&mut self, key: String, value: V)
        ensures
            final(self)@ == old(self)@.insert(key@, value),
    {
        let ghost before = self.entries@;
        let mut i: usize = 0;
        while i < self.entries.len()
            invariant
                self.entries@ == before,
                before == old(self).entries@,
                i <= self.entries.len(),
                forall|j: int| 0 <= j < i ==> (#[trigger] before[j]).0@ != key@,
            decreases self.entries.len() - i,
        {
            if self.entries[i].0 == key {
                self.entries.set(i, (key, value));
                proof {
                    lemma_put(before, self.entries@, key@, value, i as int);
                }
                return ;
            }
            i += 1;
        }
        self.entries.push((key, value));
        proof {
            lemma_put(before, self.entries@, key@, value, before.len() as int);
        }
    }
}

} // verus!
