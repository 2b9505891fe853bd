//! A table with at most one entry for each key.
use crate::bytes::same_bytes;
use crate::net::SocketAddr;
use crate::peer_id::PeerId;
use crate::text::same_text;
use vstd::prelude::*;

verus! {

/// What entries can be found by.
pub trait Key: Sized {
    /// Whether two keys are the same.
    fn same(&self, other: &Self) -> (r: bool)
        ensures
            r == (*self == *other),
    ;
}

impl Key for PeerId {
    fn same(&self, other: &PeerId) -> (r: bool) {
        proof {
            self.lemma_view(*other);
        }
        *self == *other
    }
}

impl Key for SocketAddr {
    fn same(&self, other: &SocketAddr) -> (r: bool) {
        *self == *other
    }
}

/// Entries found by a key, at most one for each key.
pub struct Table<K, V> {
    entries: Vec<(K, V)>,
}

/// Whether some entry has this key.
pub open spec fn has_key<K, V>(entries: Seq<(K, V)>, key: K) -> bool {
    exists|i: int| 0 <= i < entries.len() && (#[trigger] entries[i]).0 == key
}

/// The position of the entry with a key.
pub open spec fn key_index<K, V>(entries: Seq<(K, V)>, key: K) -> int {
    choose|i: int| 0 <= i < entries.len() && (#[trigger] entries[i]).0 == key
}

/// Entries as a map.
pub open spec fn entries_map<K, V>(entries: Seq<(K, V)>) -> Map<K, V> {
    Map::new(|key: K| has_key(entries, key), |key: K| entries[key_index(entries, key)].1)
}

/// Whether no key occurs twice.
pub open spec fn keys_distinct<K, V>(entries: Seq<(K, V)>) -> bool {
    forall|i: int, j: int|
        0 <= i < j < entries.len() ==> (#[trigger] entries[i]).0 != (#[trigger] entries[j]).0
}

proof fn lemma_key_index<K, V>(entries: Seq<(K, V)>, i: int)
    requires
        keys_distinct(entries),
        0 <= i < entries.len(),
    ensures
        has_key(entries, entries[i].0),
        key_index(entries, entries[i].0) == i,
{
    let key = entries[i].0;
    assert(entries[i].0 == key);
    let j = key_index(entries, key);
    assert(0 <= j < entries.len() && entries[j].0 == key);
}

/// An entry with a new key is added to the map.
pub proof fn lemma_entry_added<K, V>(entries: Seq<(K, V)>, key: K, value: V)
    requires
        keys_distinct(entries),
        !entries_map(entries).dom().contains(key),
    ensures
        keys_distinct(entries.push((key, value))),
        entries_map(entries.push((key, value))) == entries_map(entries).insert(key, value),
{
    let before = entries;
    let after = entries.push((key, value));
    assert forall|a: int| 0 <= a < before.len() implies (#[trigger] before[a]).0 != key by {
        lemma_key_index(before, a);
        assert(entries_map(before).dom().contains(before[a].0));
    }
    assert(keys_distinct(after)) by {
        assert forall|a: int, b: int| 0 <= a < b < after.len() implies (#[trigger] after[a]).0 != (
        #[trigger] after[b]).0 by {
            assert(after[a] == before[a]);
        }
    }
    assert forall|k: K| has_key(after, k) == (has_key(before, k) || k == key) by {
        if has_key(after, k) && k != key {
            let a = key_index(after, k);
            assert(after[a] == before[a]);
        }
        if has_key(before, k) {
            let a = key_index(before, k);
            assert(after[a] == before[a]);
        }
        assert(after[before.len() as int].0 == key);
    }
    assert forall|k: K| #[trigger] has_key(after, k) implies entries_map(after)[k] == entries_map(
        before,
    ).insert(key, value)[k] by {
        let a = key_index(after, k);
        if a < before.len() {
            assert(after[a] == before[a]);
            lemma_key_index(before, a);
        }
    }
    assert(entries_map(after) =~= entries_map(before).insert(key, value));
}

/// An entry that is taken out is taken out of the map.
pub proof fn lemma_entry_removed<K, V>(entries: Seq<(K, V)>, i: int)
    requires
        keys_distinct(entries),
        0 <= i < entries.len(),
    ensures
        keys_distinct(entries.remove(i)),
        entries_map(entries.remove(i)) == entries_map(entries).remove(entries[i].0),
        entries_map(entries).dom().contains(entries[i].0),
        entries_map(entries)[entries[i].0] == entries[i].1,
{
    let before = entries;
    let after = entries.remove(i);
    let key = entries[i].0;
    lemma_key_index(before, i);
    assert forall|a: int, b: int| 0 <= a < b < after.len() implies (#[trigger] after[a]).0 != (
    #[trigger] after[b]).0 by {
        let a2 = if a < i { a } else { a + 1 };
        let b2 = if b < i { b } else { b + 1 };
        assert(after[a] == before[a2]);
        assert(after[b] == before[b2]);
    }
    assert forall|k: K| has_key(after, k) == (has_key(before, k) && k != key) by {
        if has_key(after, k) {
            let a = key_index(after, k);
            let a2 = if a < i { a } else { a + 1 };
            assert(after[a] == before[a2]);
            lemma_key_index(before, a2);
        }
        if has_key(before, k) && k != key {
            let a2 = key_index(before, k);
            let a = if a2 < i { a2 } else { a2 - 1 };
            assert(after[a] == before[a2]);
        }
    }
    assert forall|k: K| #[trigger] has_key(after, k) implies entries_map(after)[k] == entries_map(
        before,
    )[k] by {
        let a = key_index(after, k);
        let a2 = if a < i { a } else { a + 1 };
        assert(after[a] == before[a2]);
        lemma_key_index(before, a2);
    }
    assert(entries_map(after) =~= entries_map(before).remove(key));
}

impl<K, V> View for Table<K, V> {
    type V = Map<K, V>;

    closed spec fn view(&self) -> Map<K, V> {
        entries_map(self.entries@)
    }
}

impl<K, V> Table<K, V> {
    #[verifier::type_invariant]
    spec fn inv(self) -> bool {
        keys_distinct(self.entries@)
    }
}

impl<K: Key, V> Table<K, V> {
    /// The entries in the order in which they are walked.
    pub closed spec fn listed(self) -> Seq<(K, V)> {
        self.entries@
    }

    pub fn new() -> (r: Table<K, V>)
        ensures
            r@ == Map::<K, V>::empty(),
            r.listed().len() == 0,
    {
        let r = Table { entries: Vec::new() };
        assert(r@ =~= Map::<K, V>::empty());
        r
    }

    /// The position of an entry.
    fn find(&self, key: &K) -> (r: Option<usize>)
        ensures
            match r {
                Some(i) => i < self.entries@.len() && self.entries@[i as int].0 == *key,
                None => !has_key(self.entries@, *key),
            },
    {
        let mut i: usize = 0;
        while i < self.entries.len()
            invariant
                i <= self.entries@.len(),
                forall|k: int| 0 <= k < i ==> (#[trigger] self.entries@[k]).0 != *key,
            decreases self.entries@.len() - i,
        {
            if self.entries[i].0.same(key) {
                return Some(i);
            }
            i += 1;
        }
        None
    }

    pub fn contains_key(&self, key: &K) -> (r: bool)
        ensures
            r == self@.dom().contains(*key),
    {
        match self.find(key) {
            Some(i) => {
                assert(self.entries@[i as int].0 == *key);
                true
            },
            None => false,
        }
    }

    pub fn get(&self, key: &K) -> (r: Option<&V>)
        ensures
            match r {
                Some(value) => self@.dom().contains(*key) && *value == self@[*key],
                None => !self@.dom().contains(*key),
            },
    {
        proof {
            use_type_invariant(self);
        }
        match self.find(key) {
            Some(i) => {
                proof {
                    lemma_key_index(self.entries@, i as int);
                }
                Some(&self.entries[i].1)
            },
            None => None,
        }
    }

    /// Takes an entry out.
    pub fn remove(&mut self, key: &K) -> (r: Option<V>)
        ensures
            final(self)@ == old(self)@.remove(*key),
            match r {
                Some(value) => old(self)@.dom().contains(*key) && value == old(self)@[*key],
                None => !old(self)@.dom().contains(*key),
            },
    {
        proof {
            use_type_invariant(&*self);
        }
        match self.find(key) {
            Some(i) => {
                let mut entries: Vec<(K, V)> = Vec::new();
                std::mem::swap(&mut entries, &mut self.entries);
                let ghost before = entries@;
                let (_, value) = entries.remove(i);
                proof {
                    lemma_entry_removed(before, i as int);
                }
                std::mem::swap(&mut entries, &mut self.entries);
                Some(value)
            },
            None => {
                assert(self@.remove(*key) =~= self@);
                None
            },
        }
    }

    /// Puts an entry in, in place of the one it had.
    pub fn insert(&mut self, key: K, value: V) -> (r: Option<V>)
        ensures
            final(self)@ == old(self)@.insert(key, value),
            match r {
                Some(value) => old(self)@.dom().contains(key) && value == old(self)@[key],
                None => !old(self)@.dom().contains(key),
            },
    {
        let previous = self.remove(&key);
        proof {
            use_type_invariant(&*self);
        }
        let ghost before = self.entries@;
        let mut entries: Vec<(K, V)> = Vec::new();
        std::mem::swap(&mut entries, &mut self.entries);
        entries.push((key, value));
        proof {
            lemma_entry_added(before, key, value);
        }
        std::mem::swap(&mut entries, &mut self.entries);
        assert(self@ =~= old(self)@.insert(key, value));
        previous
    }

    /// The number of entries. What is walked is what the table holds, each entry once.
    pub fn len(&self) -> (r: usize)
        ensures
            r == self.listed().len(),
            keys_distinct(self.listed()),
            self@ == entries_map(self.listed()),
            forall|i: int|
                #![trigger self.listed()[i]]
                0 <= i < self.listed().len() ==> self@.dom().contains(self.listed()[i].0)
                    && self@[self.listed()[i].0] == self.listed()[i].1,
    {
        proof {
            use_type_invariant(self);
            assert forall|i: int|
                #![trigger self.listed()[i]]
                0 <= i < self.listed().len() implies self@.dom().contains(self.listed()[i].0)
                && self@[self.listed()[i].0] == self.listed()[i].1 by {
                lemma_key_index(self.entries@, i);
            }
        }
        self.entries.len()
    }

    /// One of the entries, by its place in the order in which they are walked.
    pub fn entry(&self, i: usize) -> (r: (&K, &V))
        requires
            i < self.listed().len(),
        ensures
            *r.0 == self.listed()[i as int].0,
            *r.1 == self.listed()[i as int].1,
    {
        (&self.entries[i].0, &self.entries[i].1)
    }
}

/// Entries found by a text, at most one for each text.
pub struct NameTable<V> {
    entries: Vec<(String, V)>,
}

/// Entries by the texts that they are found by.
pub open spec fn by_text<V>(entries: Seq<(String, V)>) -> Seq<(Seq<char>, V)> {
    entries.map_values(|entry: (String, V)| (entry.0@, entry.1))
}

impl<V> View for NameTable<V> {
    type V = Map<Seq<char>, V>;

    closed spec fn view(&self) -> Map<Seq<char>, V> {
        entries_map(by_text(self.entries@))
    }
}

impl<V> NameTable<V> {
    #[verifier::type_invariant]
    spec fn inv(self) -> bool {
        keys_distinct(by_text(self.entries@))
    }

    /// The entries in the order in which they are walked.
    pub closed spec fn listed(self) -> Seq<(Seq<char>, V)> {
        by_text(self.entries@)
    }

    pub fn new() -> (r: NameTable<V>)
        ensures
            r@ == Map::<Seq<char>, V>::empty(),
            r.listed().len() == 0,
    {
        let r = NameTable { entries: Vec::new() };
        assert(r@ =~= Map::<Seq<char>, V>::empty());
        r
    }

    /// The position of an entry.
    fn find(&self, name: &str) -> (r: Option<usize>)
        ensures
            match r {
                Some(i) => i < self.entries@.len() && self.entries@[i as int].0@ == name@,
                None => !has_key(by_text(self.entries@), name@),
            },
    {
        let mut i: usize = 0;
        while i < self.entries.len()
            invariant
                i <= self.entries@.len(),
                forall|k: int| 0 <= k < i ==> (#[trigger] self.entries@[k]).0@ != name@,
            decreases self.entries@.len() - i,
        {
            if same_text(self.entries[i].0.as_str(), name) {
                return Some(i);
            }
            i += 1;
        }
        proof {
            let texts = by_text(self.entries@);
            assert forall|k: int| 0 <= k < texts.len() implies (#[trigger] texts[k]).0 != name@ by {
                assert(texts[k].0 == self.entries@[k].0@);
            }
        }
        None
    }

    pub fn contains_name(&self, name: &str) -> (r: bool)
        ensures
            r == self@.dom().contains(name@),
    {
        match self.find(name) {
            Some(i) => {
                assert(by_text(self.entries@)[i as int].0 == name@);
                true
            },
            None => false,
        }
    }

    pub fn get(&self, name: &str) -> (r: Option<&V>)
        ensures
            match r {
                Some(value) => self@.dom().contains(name@) && *value == self@[name@],
                None => !self@.dom().contains(name@),
            },
    {
        proof {
            use_type_invariant(self);
        }
        match self.find(name) {
            Some(i) => {
                proof {
                    lemma_key_index(by_text(self.entries@), i as int);
                }
                Some(&self.entries[i].1)
            },
            None => None,
        }
    }

    /// Takes an entry out.
    pub fn remove(&mut self, name: &str) -> (r: Option<V>)
        ensures
            final(self)@ == old(self)@.remove(name@),
            match r {
                Some(value) => old(self)@.dom().contains(name@) && value == old(self)@[name@],
                None => !old(self)@.dom().contains(name@),
            },
    {
        proof {
            use_type_invariant(&*self);
        }
        match self.find(name) {
            Some(i) => {
                let mut entries: Vec<(String, V)> = Vec::new();
                std::mem::swap(&mut entries, &mut self.entries);
                let ghost before = entries@;
                let (_, value) = entries.remove(i);
                proof {
                    lemma_entry_removed(by_text(before), i as int);
                    assert(by_text(entries@) =~= by_text(before).remove(i as int));
                }
                std::mem::swap(&mut entries, &mut self.entries);
                Some(value)
            },
            None => {
                assert(self@.remove(name@) =~= self@);
                None
            },
        }
    }

    /// Puts an entry in, in place of the one it had.
    pub fn insert(&mut self, name: String, value: V) -> (r: Option<V>)
        ensures
            final(self)@ == old(self)@.insert(name@, value),
            match r {
                Some(value) => old(self)@.dom().contains(name@) && value == old(self)@[name@],
                None => !old(self)@.dom().contains(name@),
            },
    {
        let previous = self.remove(name.as_str());
        proof {
            use_type_invariant(&*self);
        }
        let mut entries: Vec<(String, V)> = Vec::new();
        std::mem::swap(&mut entries, &mut self.entries);
        let ghost before = entries@;
        let ghost text = name@;
        entries.push((name, value));
        proof {
            lemma_entry_added(by_text(before), text, value);
            assert(by_text(entries@) =~= by_text(before).push((text, value)));
        }
        std::mem::swap(&mut entries, &mut self.entries);
        assert(self@ =~= old(self)@.insert(text, value));
        previous
    }

    /// The number of entries. What is walked is what the table holds, each entry once.
    pub fn len(&self) -> (r: usize)
        ensures
            r == self.listed().len(),
            keys_distinct(self.listed()),
            self@ == entries_map(self.listed()),
            forall|i: int|
                #![trigger self.listed()[i]]
                0 <= i < self.listed().len() ==> self@.dom().contains(self.listed()[i].0)
                    && self@[self.listed()[i].0] == self.listed()[i].1,
    {
        proof {
            use_type_invariant(self);
            assert forall|i: int|
                #![trigger self.listed()[i]]
                0 <= i < self.listed().len() implies self@.dom().contains(self.listed()[i].0)
                && self@[self.listed()[i].0] == self.listed()[i].1 by {
                lemma_key_index(by_text(self.entries@), i);
            }
        }
        self.entries.len()
    }

    /// One of the entries, by its place in the order in which they are walked.
    pub fn entry(&self, i: usize) -> (r: (&str, &V))
        requires
            i < self.listed().len(),
        ensures
            r.0@ == self.listed()[i as int].0,
            *r.1 == self.listed()[i as int].1,
    {
        (self.entries[i].0.as_str(), &self.entries[i].1)
    }
}

/// Byte strings, each at most once.
pub struct ByteSet {
    items: Vec<Vec<u8>>,
}

impl View for ByteSet {
    type V = Set<Seq<u8>>;

    closed spec fn view(&self) -> Set<Seq<u8>> {
        Set::new(|item: Seq<u8>| exists|i: int| 0 <= i < self.items@.len() && self.items@[i]@ == item)
    }
}

impl ByteSet {
    pub fn new() -> (r: ByteSet)
        ensures
            r@ == Set::<Seq<u8>>::empty(),
    {
        let r = ByteSet { items: Vec::new() };
        assert(r@ =~= Set::<Seq<u8>>::empty());
        r
    }

    /// Puts a byte string in. Says whether it is new.
    pub fn insert(&mut self, item: Vec<u8>) -> (r: bool)
        ensures
            r == !old(self)@.contains(item@),
            final(self)@ == old(self)@.insert(item@),
    {
        let ghost value = item@;
        let mut i: usize = 0;
        while i < self.items.len()
            invariant
                i <= self.items@.len(),
                value == item@,
                self.items@ == old(self).items@,
                forall|k: int| 0 <= k < i ==> (#[trigger] self.items@[k])@ != value,
            decreases self.items@.len() - i,
        {
            if same_bytes(self.items[i].as_slice(), item.as_slice()) {
                proof {
                    assert(old(self)@.contains(value));
                    assert(self@ =~= old(self)@.insert(value));
                }
                return false;
            }
            i += 1;
        }
        self.items.push(item);
        proof {
            let before = old(self).items@;
            let after = self.items@;
            assert forall|x: Seq<u8>| self@.contains(x) == old(self)@.insert(value).contains(x) by {
                if old(self)@.contains(x) {
                    let k = choose|k: int| 0 <= k < before.len() && before[k]@ == x;
                    assert(after[k]@ == x);
                }
                if x == value {
                    assert(after[before.len() as int]@ == x);
                }
                if self@.contains(x) && x != value {
                    let k = choose|k: int| 0 <= k < after.len() && after[k]@ == x;
                    assert(before[k]@ == x);
                }
            }
            assert(self@ =~= old(self)@.insert(value));
        }
        true
    }
}

} // verus!
