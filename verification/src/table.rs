//! Small tables: lists of keys and values in which no key occurs twice.
use vstd::prelude::*;

verus! {

/// A key that can be compared.
pub trait Key: View + Sized {
    fn same_key(&self, other: &Self) -> (result: bool)
        ensures
            result == (self@ == other@),
    ;
}

impl Key for u64 {
    fn same_key(&self, other: &Self) -> (result: bool) {
        *self == *other
    }
}

/// The index of the entry with a key, or the number of entries.
pub open spec fn find<K, V>(entries: Seq<(K, V)>, key: K) -> int
    decreases entries.len(),
{
    if entries.len() == 0 || entries[0].0 == key {
        0
    } else {
        1 + find(entries.drop_first(), key)
    }
}

/// Whether a key has a value.
pub open spec fn has<K, V>(entries: Seq<(K, V)>, key: K) -> bool {
    find(entries, key) < entries.len()
}

/// The value of a key.
pub open spec fn lookup<K, V>(entries: Seq<(K, V)>, key: K) -> Option<V> {
    if has(entries, key) {
        Some(entries[find(entries, key)].1)
    } else {
        None
    }
}

/// The table with a value for a key.
pub open spec fn put<K, V>(entries: Seq<(K, V)>, key: K, value: V) -> Seq<(K, V)> {
    if has(entries, key) {
        entries.update(find(entries, key), (key, value))
    } else {
        entries.push((key, value))
    }
}

/// The table without a key.
pub open spec fn without<K, V>(entries: Seq<(K, V)>, key: K) -> Seq<(K, V)> {
    if has(entries, key) {
        entries.remove(find(entries, key))
    } else {
        entries
    }
}

/// Whether no key occurs twice.
pub open spec fn distinct<K, V>(entries: Seq<(K, V)>) -> bool {
    forall|i: int, j: int|
        0 <= i < j < entries.len() ==> (#[trigger] entries[i]).0 != (#[trigger] entries[j]).0
}

/// `find` is the first entry with the key.
pub proof fn lemma_find<K, V>(entries: Seq<(K, V)>, key: K)
    ensures
        0 <= find(entries, key) <= entries.len(),
        has(entries, key) ==> entries[find(entries, key)].0 == key,
        forall|i: int| 0 <= i < find(entries, key) ==> (#[trigger] entries[i]).0 != key,
    decreases entries.len(),
{
    if entries.len() > 0 && entries[0].0 != key {
        let rest = entries.drop_first();
        lemma_find(rest, key);
        assert forall|i: int| 0 <= i < find(entries, key) implies (#[trigger] entries[i]).0
            != key by {
            if i > 0 {
                assert(rest[i - 1] == entries[i]);
            }
        }
    }
}

/// A key that stands at an index has a value.
pub proof fn lemma_has<K, V>(entries: Seq<(K, V)>, i: int)
    requires
        0 <= i < entries.len(),
    ensures
        has(entries, entries[i].0),
{
    lemma_find(entries, entries[i].0);
}

/// In a table without double keys, an entry is what its key finds.
pub proof fn lemma_find_entry<K, V>(entries: Seq<(K, V)>, i: int)
    requires
        0 <= i < entries.len(),
        distinct(entries),
    ensures
        find(entries, entries[i].0) == i,
{
    lemma_find(entries, entries[i].0);
}

/// Writing a value: it is read back, other keys keep theirs, no key doubles.
pub proof fn law_put<K, V>(entries: Seq<(K, V)>, key: K, value: V, other: K)
    ensures
        lookup(put(entries, key, value), key) == Some(value),
        other != key ==> lookup(put(entries, key, value), other) == lookup(entries, other),
        distinct(entries) ==> distinct(put(entries, key, value)),
        put(entries, key, value).len() == entries.len() + if has(entries, key) {
            0int
        } else {
            1int
        },
{
    let after = put(entries, key, value);
    lemma_find(entries, key);
    lemma_find(after, key);
    lemma_find(entries, other);
    lemma_find(after, other);
    let k = find(entries, key);
    if has(entries, key) {
        assert(after[k].0 == key);
    } else {
        assert(after[entries.len() as int].0 == key);
    }
    if other != key {
        let i = find(entries, other);
        let j = find(after, other);
        if i < entries.len() {
            assert(after[i].0 == other);
            assert(j <= i);
            assert(entries[j].0 == after[j].0 || j == k);
        }
        if j < after.len() {
            assert(after[j].0 == other);
            assert(j < entries.len());
            assert(entries[j].0 == other);
        }
    }
    if distinct(entries) {
        assert forall|i: int, j: int| 0 <= i < j < after.len() implies (#[trigger] after[i]).0 != (
        #[trigger] after[j]).0 by {
            if j < entries.len() {
                assert(after[i].0 == entries[i].0);
                assert(after[j].0 == entries[j].0);
            } else {
                assert(after[i] == entries[i]);
            }
        }
    }
}

/// Removing a key: it is gone, other keys keep their values.
pub proof fn law_without<K, V>(entries: Seq<(K, V)>, key: K, other: K)
    requires
        distinct(entries),
    ensures
        lookup(without(entries, key), key) is None,
        other != key ==> lookup(without(entries, key), other) == lookup(entries, other),
        distinct(without(entries, key)),
        without(entries, key).len() <= entries.len(),
{
    let after = without(entries, key);
    lemma_find(entries, key);
    lemma_find(after, key);
    lemma_find(entries, other);
    lemma_find(after, other);
    if has(entries, key) {
        let k = find(entries, key);
        assert forall|i: int| 0 <= i < after.len() implies (#[trigger] after[i]) == entries[if i
            < k {
            i
        } else {
            i + 1
        }] by {}
        if has(after, key) {
            let j = find(after, key);
            assert(after[j].0 == key);
        }
        if other != key {
            let i = find(entries, other);
            let j = find(after, other);
            if i < entries.len() {
                let moved = if i < k {
                    i
                } else {
                    i - 1
                };
                assert(after[moved] == entries[i]);
                if j < moved {
                    assert(after[j].0 == other);
                }
                assert(j == moved);
            }
            if j < after.len() {
                assert(after[j].0 == other);
                lemma_has(entries, if j < k {
                    j
                } else {
                    j + 1
                });
            }
        }
        assert forall|i: int, j: int| 0 <= i < j < after.len() implies (#[trigger] after[i]).0 != (
        #[trigger] after[j]).0 by {}
    }
}

/// A table of keys and values.
#[derive(Debug)]
pub struct Table<K, V> {
    pub entries: Vec<(K, V)>,
}

impl<K: Key, V: View> View for Table<K, V> {
    type V = Seq<(K::V, V::V)>;

    open spec fn view(&self) -> Seq<(K::V, V::V)> {
        Seq::new(self.entries@.len(), |i: int| (self.entries@[i].0@, self.entries@[i].1@))
    }
}

impl<K: Key, V: View> Table<K, V> {
    /// An empty table.
    pub fn new() -> (result: Self)
        ensures
            result@ == Seq::<(K::V, V::V)>::empty(),
    {
        let result = Table { entries: Vec::new() };
        assert(result@ =~= Seq::<(K::V, V::V)>::empty());
        result
    }

    /// The number of entries.
    pub fn len(&self) -> (result: usize)
        ensures
            result == self@.len(),
    {
        self.entries.len()
    }

    /// Whether there is no entry.
    pub fn is_empty(&self) -> (result: bool)
        ensures
            result == (self@.len() == 0),
    {
        self.entries.len() == 0
    }

    fn position(&self, key: &K) -> (result: usize)
        ensures
            result == find(self@, key@),
            result <= self@.len(),
    {
        let mut i: usize = 0;
        assert(self@.skip(0) =~= self@);
        while i < self.entries.len()
            invariant
                i <= self.entries@.len(),
                find(self@, key@) == i + find(self@.skip(i as int), key@),
            decreases self.entries@.len() - i,
        {
            if self.entries[i].0.same_key(key) {
                return i;
            }
            assert(self@.skip(i as int).drop_first() =~= self@.skip(i + 1));
            i += 1;
        }
        i
    }

    /// Whether a key has a value.
    pub fn contains_key(&self, key: &K) -> (result: bool)
        ensures
            result == has(self@, key@),
    {
        self.position(key) < self.entries.len()
    }

    /// The value of a key.
    pub fn get(&self, key: &K) -> (result: Option<&V>)
        ensures
            match result {
                Some(value) => lookup(self@, key@) == Some(value@),
                None => lookup(self@, key@) is None,
            },
    {
        let i = self.position(key);
        if i < self.entries.len() {
            Some(&self.entries[i].1)
        } else {
            None
        }
    }

    /// Gives a key a value.
    pub fn insert(&mut self, key: K, value: V)
        ensures
            final(self)@ == put(old(self)@, key@, value@),
    {
        let i = self.position(&key);
        proof {
            lemma_find(self@, key@);
        }
        if i < self.entries.len() {
            self.entries[i] = (key, value);
            assert(self@ =~= old(self)@.update(i as int, (key@, value@)));
        } else {
            self.entries.push((key, value));
            assert(self@ =~= old(self)@.push((key@, value@)));
        }
    }

    /// Takes a key out.
    pub fn remove(&mut self, key: &K) -> (result: Option<V>)
        ensures
            final(self)@ == without(old(self)@, key@),
            match result {
                Some(value) => lookup(old(self)@, key@) == Some(value@),
                None => lookup(old(self)@, key@) is None,
            },
    {
        let i = self.position(key);
        if i < self.entries.len() {
            let entry = self.entries.remove(i);
            assert(self@ =~= old(self)@.remove(i as int));
            Some(entry.1)
        } else {
            None
        }
    }

    /// Empties the table.
    pub fn clear(&mut self)
        ensures
            final(self)@ == Seq::<(K::V, V::V)>::empty(),
    {
        self.entries.clear();
        assert(self@ =~= Seq::<(K::V, V::V)>::empty());
    }
}

} // verus!
