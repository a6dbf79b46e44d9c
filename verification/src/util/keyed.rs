//! An ordered map from composite keys to values, kept as a sorted vector.
//!
//! A key is a number and a byte string; keys are ordered by the number first
//! and by the bytes in lexicographic order second. Lookups are binary
//! searches, so no operation walks the whole store to find one key.
use crate::util::bytes::{
    bytes_lt, compare_bytes, lemma_bytes_lt_irreflexive, lemma_bytes_lt_total,
    lemma_bytes_lt_transitive, Rank,
};
use vstd::prelude::*;

verus! {

/// A key as contracts see it.
pub type KeyModel = (u128, Seq<u8>);

/// The strict order of the keys.
pub open spec fn key_lt(a: KeyModel, b: KeyModel) -> bool {
    a.0 < b.0 || (a.0 == b.0 && bytes_lt(a.1, b.1))
}

/// The key order is transitive.
pub proof fn lemma_key_lt_transitive(a: KeyModel, b: KeyModel, c: KeyModel)
    requires
        key_lt(a, b),
        key_lt(b, c),
    ensures
        key_lt(a, c),
{
    if a.0 == b.0 && b.0 == c.0 {
        lemma_bytes_lt_transitive(a.1, b.1, c.1);
    }
}

/// No key comes before itself.
pub proof fn lemma_key_lt_irreflexive(a: KeyModel)
    ensures
        !key_lt(a, a),
{
    lemma_bytes_lt_irreflexive(a.1);
}

/// One key with the value stored under it.
pub struct KeyedEntry<V> {
    pub major: u128,
    pub minor: Vec<u8>,
    pub value: V,
}

impl<V> KeyedEntry<V> {
    /// The key of the entry.
    pub open spec fn key(&self) -> KeyModel {
        (self.major, self.minor@)
    }
}

/// An ordered map with composite keys.
pub struct KeyedMap<V> {
    entries: Vec<KeyedEntry<V>>,
}

impl<V> View for KeyedMap<V> {
    type V = Map<KeyModel, V>;

    closed spec fn view(&self) -> Map<KeyModel, V> {
        Map::new(
            |k: KeyModel| exists|i: int| 0 <= i < self.entries.len() && self.entries[i].key() == k,
            |k: KeyModel|
                self.entries[choose|i: int|
                    0 <= i < self.entries.len() && self.entries[i].key() == k].value,
        )
    }
}

/// Where a key is, or where it would have to go.
pub enum Place {
    At(usize),
    Before(usize),
}

impl<V> KeyedMap<V> {
    /// The keys in the order in which they are stored.
    pub closed spec fn keys(&self) -> Seq<KeyModel> {
        Seq::new(self.entries.len() as nat, |i: int| self.entries[i].key())
    }

    /// The values in the order of their keys.
    pub closed spec fn values(&self) -> Seq<V> {
        Seq::new(self.entries.len() as nat, |i: int| self.entries[i].value)
    }

    /// The keys are stored in strictly increasing order.
    pub closed spec fn wf(&self) -> bool {
        forall|i: int, j: int|
            0 <= i < j < self.entries.len() ==> key_lt(
                #[trigger] self.entries[i].key(),
                #[trigger] self.entries[j].key(),
            )
    }

    proof fn lemma_distinct(&self)
        requires
            self.wf(),
        ensures
            forall|i: int, j: int|
                0 <= i < self.entries.len() && 0 <= j < self.entries.len()
                    && #[trigger] self.entries[i].key() == #[trigger] self.entries[j].key() ==> i
                    == j,
    {
        assert forall|i: int, j: int|
            0 <= i < self.entries.len() && 0 <= j < self.entries.len()
                && #[trigger] self.entries[i].key() == #[trigger] self.entries[j].key() implies i
            == j by {
            lemma_key_lt_irreflexive(self.entries[i].key());
        }
    }

    proof fn lemma_at(&self, i: int)
        requires
            self.wf(),
            0 <= i < self.entries.len(),
        ensures
            self@.contains_key(self.entries[i].key()),
            self@[self.entries[i].key()] == self.entries[i].value,
    {
        self.lemma_distinct();
    }

    /// What the stored order says of the map: the keys increase strictly, each
    /// is a key of the map with its value at the same place, and the map has
    /// no other key.
    pub proof fn lemma_order(&self)
        requires
            self.wf(),
        ensures
            self.keys().len() == self.values().len(),
            forall|i: int, j: int|
                0 <= i < j < self.keys().len() ==> key_lt(
                    #[trigger] self.keys()[i],
                    #[trigger] self.keys()[j],
                ),
            forall|i: int|
                0 <= i < self.keys().len() ==> self@.contains_key(#[trigger] self.keys()[i])
                    && self@[self.keys()[i]] == self.values()[i],
            forall|k: KeyModel| self@.contains_key(k) ==> self.keys().contains(k),
            self.keys().no_duplicates(),
    {
        self.lemma_distinct();
        assert forall|i: int| 0 <= i < self.keys().len() implies self@.contains_key(
            #[trigger] self.keys()[i],
        ) && self@[self.keys()[i]] == self.values()[i] by {
            self.lemma_at(i);
        }
        assert forall|k: KeyModel| self@.contains_key(k) implies self.keys().contains(k) by {
            let i = choose|i: int| 0 <= i < self.entries.len() && self.entries[i].key() == k;
            assert(self.keys()[i] == k);
        }
    }

    /// An empty map.
    pub fn new() -> (map: Self)
        ensures
            map.wf(),
            map@ == Map::<KeyModel, V>::empty(),
    {
        let map = KeyedMap { entries: Vec::new() };
        proof {
            assert(map@ =~= Map::<KeyModel, V>::empty());
        }
        map
    }

    /// How many keys the map holds.
    pub fn len(&self) -> (n: usize)
        ensures
            n == self.keys().len(),
    {
        self.entries.len()
    }

    /// The entry at a place in the key order.
    pub fn entry_at(&self, i: usize) -> (entry: &KeyedEntry<V>)
        requires
            i < self.keys().len(),
        ensures
            entry.key() == self.keys()[i as int],
            entry.value == self.values()[i as int],
    {
        &self.entries[i]
    }

    fn locate(&self, major: u128, minor: &[u8]) -> (place: Place)
        requires
            self.wf(),
        ensures
            match place {
                Place::At(i) => i < self.entries.len() && self.entries[i as int].key() == (
                    major,
                    minor@,
                ),
                Place::Before(i) => {
                    &&& i <= self.entries.len()
                    &&& !self@.contains_key((major, minor@))
                    &&& forall|j: int|
                        0 <= j < i ==> key_lt(#[trigger] self.entries[j].key(), (major, minor@))
                    &&& forall|j: int|
                        i <= j < self.entries.len() ==> key_lt(
                            (major, minor@),
                            #[trigger] self.entries[j].key(),
                        )
                },
            },
    {
        let ghost key: KeyModel = (major, minor@);
        let mut lo: usize = 0;
        let mut hi: usize = self.entries.len();
        while lo < hi
            invariant
                self.wf(),
                key == (major, minor@),
                lo <= hi <= self.entries.len(),
                forall|j: int| 0 <= j < lo ==> key_lt(#[trigger] self.entries[j].key(), key),
                forall|j: int|
                    hi <= j < self.entries.len() ==> key_lt(key, #[trigger] self.entries[j].key()),
            decreases hi - lo,
        {
            let mid = lo + (hi - lo) / 2;
            let e = &self.entries[mid];
            let rank = if e.major < major {
                Rank::Before
            } else if e.major > major {
                Rank::After
            } else {
                compare_bytes(e.minor.as_slice(), minor)
            };
            match rank {
                Rank::Same => {
                    return Place::At(mid);
                },
                Rank::Before => {
                    proof {
                        assert(key_lt(self.entries[mid as int].key(), key));
                        assert forall|j: int| 0 <= j < mid + 1 implies key_lt(
                            #[trigger] self.entries[j].key(),
                            key,
                        ) by {
                            if j < mid {
                                lemma_key_lt_transitive(
                                    self.entries[j].key(),
                                    self.entries[mid as int].key(),
                                    key,
                                );
                            }
                        }
                    }
                    lo = mid + 1;
                },
                Rank::After => {
                    proof {
                        if e.major == major && !bytes_lt(minor@, e.minor@) {
                            lemma_bytes_lt_total(e.minor@, minor@);
                        }
                        assert(key_lt(key, self.entries[mid as int].key()));
                        assert forall|j: int| mid <= j < self.entries.len() implies key_lt(
                            key,
                            #[trigger] self.entries[j].key(),
                        ) by {
                            if j > mid {
                                lemma_key_lt_transitive(
                                    key,
                                    self.entries[mid as int].key(),
                                    self.entries[j].key(),
                                );
                            }
                        }
                    }
                    hi = mid;
                },
            }
        }
        proof {
            assert forall|j: int| 0 <= j < self.entries.len() implies self.entries[j].key()
                != key by {
                lemma_key_lt_irreflexive(key);
            }
        }
        Place::Before(lo)
    }

    /// Whether a key is in the map.
    pub fn contains_key(&self, major: u128, minor: &[u8]) -> (found: bool)
        requires
            self.wf(),
        ensures
            found == self@.contains_key((major, minor@)),
    {
        match self.locate(major, minor) {
            Place::At(i) => {
                proof {
                    self.lemma_at(i as int);
                }
                true
            },
            Place::Before(_) => false,
        }
    }

    /// The value under a key.
    pub fn get(&self, major: u128, minor: &[u8]) -> (value: Option<&V>)
        requires
            self.wf(),
        ensures
            value is Some == self@.contains_key((major, minor@)),
            value matches Some(v) ==> *v == self@[(major, minor@)],
    {
        match self.locate(major, minor) {
            Place::At(i) => {
                proof {
                    self.lemma_at(i as int);
                }
                Some(&self.entries[i].value)
            },
            Place::Before(_) => None,
        }
    }

    /// Puts a value under a key and returns the value that was there.
    pub fn insert(&mut self, major: u128, minor: Vec<u8>, value: V) -> (previous: Option<V>)
        requires
            old(self).wf(),
        ensures
            final(self).wf(),
            final(self)@ == old(self)@.insert((major, minor@), value),
            previous is Some == old(self)@.contains_key((major, minor@)),
            previous matches Some(v) ==> v == old(self)@[(major, minor@)],
    {
        let ghost key: KeyModel = (major, minor@);
        let ghost before = self.entries@;
        match self.locate(major, minor.as_slice()) {
            Place::At(i) => {
                proof {
                    self.lemma_at(i as int);
                }
                let taken = self.entries.remove(i);
                self.entries.insert(i, KeyedEntry { major, minor, value });
                proof {
                    assert forall|a: int, b: int| 0 <= a < b < self.entries.len() implies key_lt(
                        #[trigger] self.entries[a].key(),
                        #[trigger] self.entries[b].key(),
                    ) by {
                        assert(self.entries[a].key() == before[a].key());
                        assert(self.entries[b].key() == before[b].key());
                    }
                    self.lemma_distinct();
                    assert forall|k: KeyModel|
                        #[trigger] self@.contains_key(k) == old(self)@.insert(
                            key,
                            value,
                        ).contains_key(k) by {
                        if old(self)@.insert(key, value).contains_key(k) {
                            if k == key {
                                assert(self.entries[i as int].key() == k);
                            } else {
                                let j = choose|j: int|
                                    0 <= j < before.len() && before[j].key() == k;
                                assert(self.entries[j].key() == k);
                            }
                        }
                        if self@.contains_key(k) {
                            let j = choose|j: int|
                                0 <= j < self.entries.len() && self.entries[j].key() == k;
                            assert(before[j].key() == k);
                        }
                    }
                    assert forall|k: KeyModel| self@.contains_key(k) implies self@[k] == old(
                        self,
                    )@.insert(key, value)[k] by {
                        let j = choose|j: int|
                            0 <= j < self.entries.len() && self.entries[j].key() == k;
                        assert(self@[k] == self.entries[j].value);
                        if j != i {
                            assert(before[j].key() == k);
                            assert(self.entries[j].value == before[j].value);
                            old(self).lemma_at(j);
                            old(self).lemma_distinct();
                            assert(k != key);
                        } else {
                            assert(self.entries[j].value == value);
                        }
                    }
                    assert(self@ =~= old(self)@.insert(key, value));
                }
                Some(taken.value)
            },
            Place::Before(i) => {
                self.entries.insert(i, KeyedEntry { major, minor, value });
                proof {
                    assert forall|a: int, b: int| 0 <= a < b < self.entries.len() implies key_lt(
                        #[trigger] self.entries[a].key(),
                        #[trigger] self.entries[b].key(),
                    ) by {
                        let ka = if a < i {
                            before[a].key()
                        } else if a == i {
                            key
                        } else {
                            before[a - 1].key()
                        };
                        let kb = if b < i {
                            before[b].key()
                        } else if b == i {
                            key
                        } else {
                            before[b - 1].key()
                        };
                        assert(self.entries[a].key() == ka);
                        assert(self.entries[b].key() == kb);
                    }
                    self.lemma_distinct();
                    assert forall|k: KeyModel|
                        #[trigger] self@.contains_key(k) == old(self)@.insert(
                            key,
                            value,
                        ).contains_key(k) by {
                        if old(self)@.insert(key, value).contains_key(k) {
                            if k == key {
                                assert(self.entries[i as int].key() == k);
                            } else {
                                let j = choose|j: int|
                                    0 <= j < before.len() && before[j].key() == k;
                                if j < i {
                                    assert(self.entries[j].key() == k);
                                } else {
                                    assert(self.entries[j + 1].key() == k);
                                }
                            }
                        }
                        if self@.contains_key(k) {
                            let j = choose|j: int|
                                0 <= j < self.entries.len() && self.entries[j].key() == k;
                            if j < i {
                                assert(before[j].key() == k);
                            } else if j > i {
                                assert(before[j - 1].key() == k);
                            }
                        }
                    }
                    assert forall|k: KeyModel| self@.contains_key(k) implies self@[k] == old(
                        self,
                    )@.insert(key, value)[k] by {
                        let j = choose|j: int|
                            0 <= j < self.entries.len() && self.entries[j].key() == k;
                        assert(self@[k] == self.entries[j].value);
                        if j < i {
                            assert(before[j].key() == k);
                            assert(self.entries[j].value == before[j].value);
                            old(self).lemma_at(j);
                        } else if j > i {
                            assert(before[j - 1].key() == k);
                            assert(self.entries[j].value == before[j - 1].value);
                            old(self).lemma_at(j - 1);
                        } else {
                            assert(self.entries[j].value == value);
                        }
                    }
                    assert(self@ =~= old(self)@.insert(key, value));
                }
                None
            },
        }
    }

    /// Takes a key and its value out of the map.
    pub fn remove(&mut self, major: u128, minor: &[u8]) -> (previous: Option<V>)
        requires
            old(self).wf(),
        ensures
            final(self).wf(),
            final(self)@ == old(self)@.remove((major, minor@)),
            previous is Some == old(self)@.contains_key((major, minor@)),
            previous matches Some(v) ==> v == old(self)@[(major, minor@)],
    {
        let ghost key: KeyModel = (major, minor@);
        let ghost before = self.entries@;
        match self.locate(major, minor) {
            Place::At(i) => {
                proof {
                    self.lemma_at(i as int);
                    self.lemma_distinct();
                }
                let taken = self.entries.remove(i);
                proof {
                    assert forall|a: int, b: int| 0 <= a < b < self.entries.len() implies key_lt(
                        #[trigger] self.entries[a].key(),
                        #[trigger] self.entries[b].key(),
                    ) by {
                        let ka = if a < i {
                            before[a].key()
                        } else {
                            before[a + 1].key()
                        };
                        let kb = if b < i {
                            before[b].key()
                        } else {
                            before[b + 1].key()
                        };
                        assert(self.entries[a].key() == ka);
                        assert(self.entries[b].key() == kb);
                    }
                    self.lemma_distinct();
                    assert forall|k: KeyModel|
                        #[trigger] self@.contains_key(k) == old(self)@.remove(key).contains_key(
                            k,
                        ) by {
                        if old(self)@.remove(key).contains_key(k) {
                            let j = choose|j: int|
                                0 <= j < before.len() && before[j].key() == k;
                            if j < i {
                                assert(self.entries[j].key() == k);
                            } else {
                                assert(self.entries[j - 1].key() == k);
                            }
                        }
                        if self@.contains_key(k) {
                            let j = choose|j: int|
                                0 <= j < self.entries.len() && self.entries[j].key() == k;
                            if j < i {
                                assert(before[j].key() == k);
                            } else {
                                assert(before[j + 1].key() == k);
                            }
                        }
                    }
                    assert forall|k: KeyModel| self@.contains_key(k) implies self@[k] == old(
                        self,
                    )@.remove(key)[k] by {
                        let j = choose|j: int|
                            0 <= j < self.entries.len() && self.entries[j].key() == k;
                        if j < i {
                            assert(before[j].key() == k);
                            old(self).lemma_at(j);
                        } else {
                            assert(before[j + 1].key() == k);
                            old(self).lemma_at(j + 1);
                        }
                    }
                    assert(self@ =~= old(self)@.remove(key));
                }
                Some(taken.value)
            },
            Place::Before(_) => {
                proof {
                    assert(self@ =~= old(self)@.remove(key));
                }
                None
            },
        }
    }
}

} // verus!
