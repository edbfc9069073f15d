//! Lookup tables that hold each key once.

use vstd::map::*;
use vstd::prelude::*;

verus! {

/// What a table can be looked up by: two keys are the same where their views are.
pub trait Key: View + Sized {
    /// Whether both are the same key.
    fn same(&self, other: &Self) -> (same: bool)
        ensures
            same == (self@ == other@),
    ;
}

impl Key for u64 {
    fn same(&self, other: &Self) -> (same: bool) {
        *self == *other
    }
}

/// Where `key` first stands among `entries`; their number, if it is not there.
pub open spec fn index_of<K: View, V>(entries: Seq<(K, V)>, key: K::V) -> int
    decreases entries.len(),
{
    if entries.len() == 0 {
        0
    } else if index_of(entries.drop_last(), key) < entries.len() - 1 {
        index_of(entries.drop_last(), key)
    } else if entries.last().0@ == key {
        entries.len() - 1
    } else {
        entries.len() as int
    }
}

/// A position of `key` is found, and is the first.
proof fn lemma_index_of<K: View, V>(entries: Seq<(K, V)>, key: K::V)
    ensures
        0 <= index_of(entries, key) <= entries.len(),
        index_of(entries, key) < entries.len() ==> entries[index_of(entries, key)].0@ == key,
        forall|i: int|
            0 <= i < index_of(entries, key) ==> (#[trigger] entries[i]).0@ != key,
    decreases entries.len(),
{
    if entries.len() > 0 {
        let rest = entries.drop_last();
        lemma_index_of(rest, key);
        assert forall|i: int| 0 <= i < index_of(entries, key) implies (#[trigger] entries[i]).0@
            != key by {
            if i < rest.len() {
                assert(rest[i] == entries[i]);
            }
        }
    }
}

/// Whether each key occurs once.
pub open spec fn distinct<K: View, V>(entries: Seq<(K, V)>) -> bool {
    forall|i: int, j: int|
        0 <= i < j < entries.len() ==> (#[trigger] entries[i]).0@ != (#[trigger] entries[j]).0@
}

/// What the entries say of each key.
pub open spec fn contents<K: View, V>(entries: Seq<(K, V)>) -> Map<K::V, V> {
    Map::new(
        |key: K::V| index_of(entries, key) < entries.len(),
        |key: K::V| entries[index_of(entries, key)].1,
    )
}

/// The entry of a table at a position is the one that its key stands for.
proof fn lemma_entry<K: View, V>(entries: Seq<(K, V)>, i: int)
    requires
        distinct(entries),
        0 <= i < entries.len(),
    ensures
        index_of(entries, entries[i].0@) == i,
        contents(entries).contains_key(entries[i].0@),
        contents(entries)[entries[i].0@] == entries[i].1,
{
    let key = entries[i].0@;
    lemma_index_of(entries, key);
    let found = index_of(entries, key);
    if found < i {
        assert(entries[found].0@ != entries[i].0@);
    }
}

/// A key of a table stands at some position.
proof fn lemma_key<K: View, V>(entries: Seq<(K, V)>, key: K::V)
    ensures
        contents(entries).contains_key(key) <==> exists|i: int|
            0 <= i < entries.len() && (#[trigger] entries[i]).0@ == key,
{
    lemma_index_of(entries, key);
    if contents(entries).contains_key(key) {
        assert(entries[index_of(entries, key)].0@ == key);
    }
}

/// A table from keys to values.
#[derive(Debug)]
pub struct Table<K: Key, V> {
    entries: Vec<(K, V)>,
}

impl<K: Key, V> View for Table<K, V> {
    type V = Map<K::V, V>;

    closed spec fn view(&self) -> Map<K::V, V> {
        contents(self.entries@)
    }
}

impl<K: Key, V> Table<K, V> {
    #[verifier::type_invariant]
    spec fn holds_keys_once(self) -> bool {
        distinct(self.entries@)
    }

    /// An empty table.
    pub fn new() -> (table: Self)
        ensures
            table@ == Map::<K::V, V>::empty(),
    {
        let table = Table { entries: Vec::new() };
        assert(table@ =~= Map::<K::V, V>::empty());
        table
    }

    /// The entries, in some order.
    pub closed spec fn entries(self) -> Seq<(K, V)> {
        self.entries@
    }

    /// The number of entries. Each key of the table has one, and each holds what the table
    /// says of its key.
    pub fn len(&self) -> (len: usize)
        ensures
            len == self.entries().len(),
            forall|key: K::V| #[trigger]
                self@.contains_key(key) ==> exists|i: int|
                    0 <= i < self.entries().len() && (#[trigger] self.entries()[i]).0@ == key,
            forall|i: int|
                0 <= i < self.entries().len() ==> self@.contains_pair(
                    (#[trigger] self.entries()[i]).0@,
                    self.entries()[i].1,
                ),
            distinct(self.entries()),
    {
        proof {
            use_type_invariant(self);
            assert forall|key: K::V| #[trigger] self@.contains_key(key) implies exists|i: int|
                0 <= i < self.entries().len() && (#[trigger] self.entries()[i]).0@ == key by {
                lemma_key(self.entries@, key);
                let i = choose|i: int|
                    0 <= i < self.entries@.len() && (#[trigger] self.entries@[i]).0@ == key;
                assert(self.entries()[i].0@ == key);
            }
            assert forall|i: int| 0 <= i < self.entries().len() implies self@.contains_pair(
                (#[trigger] self.entries()[i]).0@,
                self.entries()[i].1,
            ) by {
                lemma_entry(self.entries@, i);
            }
        }
        self.entries.len()
    }

    /// The value of an entry.
    pub fn value_at(&self, index: usize) -> (value: &V)
        requires
            index < self.entries().len(),
        ensures
            *value == self.entries()[index as int].1,
            self@.contains_pair(self.entries()[index as int].0@, *value),
    {
        proof {
            use_type_invariant(self);
            lemma_entry(self.entries@, index as int);
        }
        &self.entries[index].1
    }

    /// Where a key stands, if it does.
    fn find(&self, key: &K) -> (found: Option<usize>)
        ensures
            match found {
                Some(i) => i < self.entries@.len() && i == index_of(self.entries@, key@)
                    && self.entries@[i as int].0@ == key@,
                None => index_of(self.entries@, key@) == self.entries@.len(),
            },
    {
        proof {
            lemma_index_of(self.entries@, key@);
        }
        let mut i: usize = 0;
        while i < self.entries.len()
            invariant
                i <= self.entries@.len(),
                i <= index_of(self.entries@, key@) <= self.entries@.len(),
                forall|j: int|
                    0 <= j < index_of(self.entries@, key@) ==> (#[trigger] self.entries@[j]).0@
                        != key@,
                index_of(self.entries@, key@) < self.entries@.len() ==> self.entries@[index_of(
                    self.entries@,
                    key@,
                )].0@ == key@,
            decreases self.entries@.len() - i,
        {
            if self.entries[i].0.same(key) {
                return Some(i);
            }
            i += 1;
        }
        None
    }

    /// Whether the table has the key.
    pub fn contains_key(&self, key: &K) -> (contained: bool)
        ensures
            contained == self@.contains_key(key@),
    {
        self.find(key).is_some()
    }

    /// The value of a key.
    pub fn get(&self, key: &K) -> (value: Option<&V>)
        ensures
            match value {
                Some(value) => self@.contains_pair(key@, *value),
                None => !self@.contains_key(key@),
            },
    {
        match self.find(key) {
            Some(i) => Some(&self.entries[i].1),
            None => None,
        }
    }

    /// Takes a key out of the table.
    pub fn remove(&mut self, key: &K) -> (value: Option<V>)
        ensures
            final(self)@ == old(self)@.remove(key@),
            match value {
                Some(value) => old(self)@.contains_pair(key@, value),
                None => !old(self)@.contains_key(key@),
            },
    {
        proof {
            use_type_invariant(&*self);
        }
        match self.find(key) {
            Some(i) => {
                let ghost before = self.entries@;
                let mut entries: Vec<(K, V)> = Vec::new();
                std::mem::swap(&mut entries, &mut self.entries);
                let (_, value) = entries.remove(i);
                proof {
                    lemma_without(before, i as int);
                }
                self.entries = entries;
                Some(value)
            },
            None => {
                assert(self@ =~= old(self)@.remove(key@));
                None
            },
        }
    }

    /// Gives a key a value, and hands out the one that it had.
    pub fn insert(&mut self, key: K, value: V) -> (previous: Option<V>)
        ensures
            final(self)@ == old(self)@.insert(key@, value),
            match previous {
                Some(previous) => old(self)@.contains_pair(key@, previous),
                None => !old(self)@.contains_key(key@),
            },
    {
        proof {
            use_type_invariant(&*self);
        }
        let previous = self.remove(&key);
        let ghost before = self.entries@;
        proof {
            use_type_invariant(&*self);
            assert(!self@.contains_key(key@));
            lemma_with(before, (key, value));
        }
        let mut entries: Vec<(K, V)> = Vec::new();
        std::mem::swap(&mut entries, &mut self.entries);
        entries.push((key, value));
        self.entries = entries;
        assert(self@ =~= old(self)@.insert(key@, value));
        previous
    }
}

/// Taking out an entry takes out its key.
proof fn lemma_without<K: View, V>(entries: Seq<(K, V)>, index: int)
    requires
        distinct(entries),
        0 <= index < entries.len(),
    ensures
        distinct(entries.remove(index)),
        contents(entries.remove(index)) == contents(entries).remove(entries[index].0@),
{
    let rest = entries.remove(index);
    let gone = entries[index].0@;
    assert(distinct(rest)) by {
        assert forall|i: int, j: int| 0 <= i < j < rest.len() implies (#[trigger] rest[i]).0@ != (
        #[trigger] rest[j]).0@ by {
            let a = if i < index {
                i
            } else {
                i + 1
            };
            let b = if j < index {
                j
            } else {
                j + 1
            };
            assert(rest[i] == entries[a] && rest[j] == entries[b]);
        }
    }
    assert_maps_equal!(contents(rest), contents(entries).remove(gone), key => {
        lemma_key(entries, key);
        lemma_key(rest, key);
        if contents(rest).contains_key(key) {
            let i = choose|i: int| 0 <= i < rest.len() && (#[trigger] rest[i]).0@ == key;
            let a = if i < index {
                i
            } else {
                i + 1
            };
            assert(rest[i] == entries[a]);
            lemma_entry(rest, i);
            lemma_entry(entries, a);
            assert(entries[a].0@ != gone) by {
                if a < index {
                    assert(entries[a].0@ != entries[index].0@);
                } else {
                    assert(entries[index].0@ != entries[a].0@);
                }
            }
        }
        if contents(entries).contains_key(key) && key != gone {
            let a = choose|i: int| 0 <= i < entries.len() && (#[trigger] entries[i]).0@ == key;
            let i = if a < index {
                a
            } else {
                a - 1
            };
            assert(rest[i] == entries[a]);
        }
    });
}

/// Appending an entry with a new key adds just that.
proof fn lemma_with<K: View, V>(entries: Seq<(K, V)>, entry: (K, V))
    requires
        distinct(entries),
        !contents(entries).contains_key(entry.0@),
    ensures
        distinct(entries.push(entry)),
        contents(entries.push(entry)) == contents(entries).insert(entry.0@, entry.1),
{
    let more = entries.push(entry);
    lemma_key(entries, entry.0@);
    assert(distinct(more)) by {
        assert forall|i: int, j: int| 0 <= i < j < more.len() implies (#[trigger] more[i]).0@ != (
        #[trigger] more[j]).0@ by {
            assert(more[i] == entries[i]);
        }
    }
    assert_maps_equal!(contents(more), contents(entries).insert(entry.0@, entry.1), key => {
        assert(more.drop_last() =~= entries);
        lemma_index_of(more, key);
        lemma_index_of(entries, key);
        if index_of(entries, key) < entries.len() {
            assert(more[index_of(entries, key)] == entries[index_of(entries, key)]);
        }
    });
}

} // verus!
