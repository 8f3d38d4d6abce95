//! A table of values keyed by channel name, in insertion order, with no key twice.

use vstd::prelude::*;

verus! {

/// Specifies `<str as PartialEq>::eq`: two string slices are equal exactly when
/// they hold the same characters.
pub assume_specification[ <str as PartialEq>::eq ](a: &str, b: &str) -> (equal: bool)
    ensures
        equal == (a@ == b@),
;

/// No key occurs twice among the entries.
pub open spec fn distinct_keys<T>(entries: Seq<(Seq<char>, T)>) -> bool {
    forall|i: int, j: int|
        #![trigger entries[i], entries[j]]
        0 <= i < entries.len() && 0 <= j < entries.len() && i != j ==> entries[i].0 != entries[j].0
}

/// Some entry has the key `key`.
pub open spec fn has_key<T>(entries: Seq<(Seq<char>, T)>, key: Seq<char>) -> bool {
    exists|i: int| #![trigger entries[i]] 0 <= i < entries.len() && entries[i].0 == key
}

/// The place of the entry with key `key` (meaningful where `has_key` holds).
pub open spec fn key_position<T>(entries: Seq<(Seq<char>, T)>, key: Seq<char>) -> int {
    choose|i: int| #![trigger entries[i]] 0 <= i < entries.len() && entries[i].0 == key
}

/// The value stored under `key`, if any.
pub open spec fn lookup<T>(entries: Seq<(Seq<char>, T)>, key: Seq<char>) -> Option<T> {
    if has_key(entries, key) {
        Some(entries[key_position(entries, key)].1)
    } else {
        None
    }
}

/// The entries after storing `value` under `key`: an entry with that key keeps
/// its place and takes the new value; otherwise the entry is added at the end.
pub open spec fn inserted<T>(entries: Seq<(Seq<char>, T)>, key: Seq<char>, value: T) -> Seq<(Seq<char>, T)> {
    if has_key(entries, key) {
        entries.update(key_position(entries, key), (key, value))
    } else {
        entries.push((key, value))
    }
}

/// The entries without the one whose key is `key`, if there is one.
pub open spec fn removed<T>(entries: Seq<(Seq<char>, T)>, key: Seq<char>) -> Seq<(Seq<char>, T)> {
    if has_key(entries, key) {
        entries.remove(key_position(entries, key))
    } else {
        entries
    }
}

/// With distinct keys, an entry with key `key` stands at `key_position`.
pub proof fn lemma_key_position<T>(entries: Seq<(Seq<char>, T)>, i: int)
    requires
        distinct_keys(entries),
        0 <= i < entries.len(),
    ensures
        has_key(entries, entries[i].0),
        key_position(entries, entries[i].0) == i,
{
    let k = entries[i].0;
    assert(has_key(entries, k));
    let j = key_position(entries, k);
    assert(entries[j].0 == k);
}

/// Values keyed by channel name, in the order their keys were first stored.
pub struct ChannelTable<T> {
    entries: Vec<(String, T)>,
}

impl<T> View for ChannelTable<T> {
    type V = Seq<(Seq<char>, T)>;

    closed spec fn view(&self) -> Seq<(Seq<char>, T)> {
        self.entries@.map_values(|e: (String, T)| (e.0@, e.1))
    }
}

impl<T> ChannelTable<T> {
    #[verifier::type_invariant]
    closed spec fn keys_are_distinct(self) -> bool {
        distinct_keys(self@)
    }

    /// An empty table.
    pub fn new() -> (table: Self)
        ensures
            table@ == Seq::<(Seq<char>, T)>::empty(),
    {
        let table = ChannelTable { entries: Vec::new() };
        assert(table@ =~= Seq::<(Seq<char>, T)>::empty());
        table
    }

    /// The number of entries.
    pub fn len(&self) -> (n: usize)
        ensures
            n == self@.len(),
    {
        self.entries.len()
    }

    /// The key of the entry at place `i`.
    pub fn key_at(&self, i: usize) -> (key: &String)
        requires
            i < self@.len(),
        ensures
            key@ == self@[i as int].0,
    {
        &self.entries[i].0
    }

    /// The value of the entry at place `i`.
    pub fn value_at(&self, i: usize) -> (value: &T)
        requires
            i < self@.len(),
        ensures
            *value == self@[i as int].1,
    {
        &self.entries[i].1
    }

    /// The place of the entry whose key is `key`, if there is one.
    pub fn position(&self, key: &str) -> (pos: Option<usize>)
        ensures
            pos matches Some(i) ==> i < self@.len() && i == key_position(self@, key@) && has_key(self@, key@),
            pos is None <==> !has_key(self@, key@),
            distinct_keys(self@),
    {
        proof {
            use_type_invariant(self);
        }
        let n = self.entries.len();
        let mut i: usize = 0;
        while i < n
            invariant
                n == self@.len(),
                i <= n,
                distinct_keys(self@),
                forall|j: int| 0 <= j < i ==> self@[j].0 != key@,
            decreases n - i,
        {
            assert(self@[i as int].0 == self.entries@[i as int].0@);
            if <str as PartialEq>::eq(self.entries[i].0.as_str(), key) {
                proof {
                    lemma_key_position(self@, i as int);
                }
                return Some(i);
            }
            i = i + 1;
        }
        None
    }
    /// The value stored under `key`, if any.
    pub fn get(&self, key: &str) -> (value: Option<&T>)
        ensures
            value matches Some(v) ==> lookup(self@, key@) == Some(*v),
            value is None <==> lookup(self@, key@) is None,
    {
        match self.position(key) {
            Some(i) => Some(&self.entries[i].1),
            None => None,
        }
    }

    /// Stores `value` under `key`: it replaces the value of an entry with that
    /// key, which keeps its place, or else it is added at the end.
    pub fn insert(&mut self, key: String, value: T)
        ensures
            final(self)@ == inserted(old(self)@, key@, value),
            distinct_keys(old(self)@),
            distinct_keys(final(self)@),
    {
        match self.position(key.as_str()) {
            Some(i) => {
                let ghost k = key@;
                let mut entries = Vec::new();
                std::mem::swap(&mut entries, &mut self.entries);
                entries.set(i, (key, value));
                proof {
                    let now = entries@.map_values(|e: (String, T)| (e.0@, e.1));
                    assert(now =~= old(self)@.update(i as int, (k, value)));
                }
                self.entries = entries;
            }
            None => {
                let ghost k = key@;
                let mut entries = Vec::new();
                std::mem::swap(&mut entries, &mut self.entries);
                entries.push((key, value));
                proof {
                    let now = entries@.map_values(|e: (String, T)| (e.0@, e.1));
                    assert(now =~= old(self)@.push((k, value)));
                }
                self.entries = entries;
            }
        }
    }

    /// Stores `value` under `key`, a key that no entry has, at place `i`.
    pub fn insert_at(&mut self, i: usize, key: String, value: T)
        requires
            i <= old(self)@.len(),
            !has_key(old(self)@, key@),
        ensures
            final(self)@ == old(self)@.insert(i as int, (key@, value)),
            distinct_keys(final(self)@),
    {
        proof {
            use_type_invariant(&*self);
        }
        let ghost k = key@;
        let mut entries = Vec::new();
        std::mem::swap(&mut entries, &mut self.entries);
        entries.insert(i, (key, value));
        proof {
            let now = entries@.map_values(|e: (String, T)| (e.0@, e.1));
            assert(now =~= old(self)@.insert(i as int, (k, value)));
            assert forall|a: int, b: int|
                0 <= a < now.len() && 0 <= b < now.len() && a != b
                implies #[trigger] now[a].0 != #[trigger] now[b].0 by {
                if a == i {
                    let b0 = if b < i { b } else { b - 1 };
                    assert(now[b] == old(self)@[b0]);
                } else if b == i {
                    let a0 = if a < i { a } else { a - 1 };
                    assert(now[a] == old(self)@[a0]);
                } else {
                    let a0 = if a < i { a } else { a - 1 };
                    let b0 = if b < i { b } else { b - 1 };
                    assert(now[a] == old(self)@[a0]);
                    assert(now[b] == old(self)@[b0]);
                }
            }
        }
        self.entries = entries;
    }

    /// Takes out the entry at place `i`.
    pub fn remove_at(&mut self, i: usize) -> (entry: (String, T))
        requires
            i < old(self)@.len(),
        ensures
            entry.0@ == old(self)@[i as int].0,
            entry.1 == old(self)@[i as int].1,
            final(self)@ == old(self)@.remove(i as int),
            distinct_keys(final(self)@),
    {
        proof {
            use_type_invariant(&*self);
        }
        let mut entries = Vec::new();
        std::mem::swap(&mut entries, &mut self.entries);
        let entry = entries.remove(i);
        proof {
            let now = entries@.map_values(|e: (String, T)| (e.0@, e.1));
            assert(now =~= old(self)@.remove(i as int));
            assert forall|a: int, b: int|
                0 <= a < now.len() && 0 <= b < now.len() && a != b
                implies #[trigger] now[a].0 != #[trigger] now[b].0 by {
                let a0 = if a < i { a } else { a + 1 };
                let b0 = if b < i { b } else { b + 1 };
                assert(now[a] == old(self)@[a0]);
                assert(now[b] == old(self)@[b0]);
            }
        }
        self.entries = entries;
        entry
    }

    /// Takes out the entry whose key is `key`, if there is one, and gives back its value.
    pub fn remove(&mut self, key: &str) -> (value: Option<T>)
        ensures
            final(self)@ == removed(old(self)@, key@),
            value == lookup(old(self)@, key@),
            distinct_keys(final(self)@),
    {
        match self.position(key) {
            Some(i) => {
                let (_key, value) = self.remove_at(i);
                Some(value)
            }
            None => None,
        }
    }
}

/// A read gives back the last write: after storing `value` under `key`, looking
/// `key` up gives `value`, every other key gives what it gave before, and the
/// keys stay distinct.
pub proof fn lemma_lookup_inserted<T>(entries: Seq<(Seq<char>, T)>, key: Seq<char>, value: T, other: Seq<char>)
    requires
        distinct_keys(entries),
    ensures
        distinct_keys(inserted(entries, key, value)),
        lookup(inserted(entries, key, value), key) == Some(value),
        other != key ==> lookup(inserted(entries, key, value), other) == lookup(entries, other),
{
    let after = inserted(entries, key, value);
    if has_key(entries, key) {
        let p = key_position(entries, key);
        assert(entries[p].0 == key);
        assert forall|i: int, j: int|
            0 <= i < after.len() && 0 <= j < after.len() && i != j implies #[trigger] after[i].0 != #[trigger] after[j].0 by {
            assert(after[i].0 == entries[i].0);
            assert(after[j].0 == entries[j].0);
        }
    } else {
        assert forall|i: int, j: int|
            0 <= i < after.len() && 0 <= j < after.len() && i != j implies #[trigger] after[i].0 != #[trigger] after[j].0 by {
            if i < entries.len() && j < entries.len() {
                assert(after[i] == entries[i]);
                assert(after[j] == entries[j]);
            } else if i < entries.len() {
                assert(after[i] == entries[i]);
            } else {
                assert(after[j] == entries[j]);
            }
        }
    }
    let n = entries.len();
    let q = if has_key(entries, key) { key_position(entries, key) } else { n as int };
    assert(after[q].0 == key);
    lemma_key_position(after, q);
    if other != key {
        if has_key(entries, other) {
            let r = key_position(entries, other);
            assert(entries[r].0 == other);
            assert(after[r] == entries[r]);
            lemma_key_position(after, r);
        } else {
            assert(!has_key(after, other)) by {
                if has_key(after, other) {
                    let r = key_position(after, other);
                    assert(after[r].0 == other);
                    assert(r != q);
                    assert(after[r] == entries[r]);
                }
            }
        }
    }
}

/// After taking out `key`, looking it up gives nothing, every other key gives
/// what it gave before, and the keys stay distinct.
pub proof fn lemma_lookup_removed<T>(entries: Seq<(Seq<char>, T)>, key: Seq<char>, other: Seq<char>)
    requires
        distinct_keys(entries),
    ensures
        distinct_keys(removed(entries, key)),
        lookup(removed(entries, key), key) is None,
        other != key ==> lookup(removed(entries, key), other) == lookup(entries, other),
{
    let after = removed(entries, key);
    if has_key(entries, key) {
        let p = key_position(entries, key);
        assert(entries[p].0 == key);
        assert forall|i: int| 0 <= i < after.len() implies #[trigger] after[i] == entries[if i < p { i } else { i + 1 }] by {}
        assert forall|i: int, j: int|
            0 <= i < after.len() && 0 <= j < after.len() && i != j implies #[trigger] after[i].0 != #[trigger] after[j].0 by {
            assert(after[i] == entries[if i < p { i } else { i + 1 }]);
            assert(after[j] == entries[if j < p { j } else { j + 1 }]);
        }
        assert(!has_key(after, key)) by {
            if has_key(after, key) {
                let r = key_position(after, key);
                assert(after[r] == entries[if r < p { r } else { r + 1 }]);
            }
        }
        if other != key {
            if has_key(entries, other) {
                let r = key_position(entries, other);
                assert(entries[r].0 == other);
                let r2 = if r < p { r } else { r - 1 };
                assert(after[r2] == entries[r]);
                lemma_key_position(after, r2);
            } else {
                assert(!has_key(after, other)) by {
                    if has_key(after, other) {
                        let r = key_position(after, other);
                        assert(after[r] == entries[if r < p { r } else { r + 1 }]);
                    }
                }
            }
        }
    }
}

} // verus!
