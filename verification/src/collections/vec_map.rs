//! A map for a handful of entries: a vector that is searched from the
//! front, with the hash of each key beside it, so that most keys are told
//! apart without being compared.

use vstd::prelude::*;
use vstd::std_specs::cmp::PartialEqSpec;
use crate::collections::hash::{BorrowHashed, Hashed, SmallHashResult};

verus! {

/// The most entries that a `VecMap` takes.
pub const THRESHOLD: usize = 12;

/// A map of at most `THRESHOLD` entries, kept in the order of insertion.
#[derive(Clone, Debug, PartialEq, Eq)]
pub struct VecMap<K, V> {
    hashes: [SmallHashResult; THRESHOLD],
    values: Vec<(K, V)>,
}

impl<K, V> View for VecMap<K, V> {
    type V = Seq<(Hashed<K>, V)>;

    /// The entries, in the order they were put in, each key with its hash.
    closed spec fn view(&self) -> Seq<(Hashed<K>, V)> {
        Seq::new(self.values@.len(), |i: int| (Hashed { hash: self.hashes@[i], key: self.values@[i].0 }, self.values@[i].1))
    }
}

/// The entry at `i` has the hash `hash` and a key that `key` equals.
pub open spec fn hit<K: PartialEq, V>(entries: Seq<(Hashed<K>, V)>, hash: SmallHashResult, key: K, i: int) -> bool {
    &&& 0 <= i < entries.len()
    &&& entries[i].0.hash == hash
    &&& key.eq_spec(&entries[i].0.key)
}

/// The entry at `i` is the first that `hit` holds of.
pub open spec fn first_hit<K: PartialEq, V>(
    entries: Seq<(Hashed<K>, V)>,
    hash: SmallHashResult,
    key: K,
    i: int,
) -> bool {
    &&& hit(entries, hash, key, i)
    &&& forall|j: int| 0 <= j < i ==> !hit(entries, hash, key, j)
}

/// No entry has the hash `hash` and a key that `key` equals.
pub open spec fn no_hit<K: PartialEq, V>(entries: Seq<(Hashed<K>, V)>, hash: SmallHashResult, key: K) -> bool {
    forall|j: int| 0 <= j < entries.len() ==> !hit(entries, hash, key, j)
}

impl<K, V> Default for VecMap<K, V> {
    fn default() -> (map: Self)
        ensures
            map@ == Seq::<(Hashed<K>, V)>::empty(),
            map.wf(),
    {
        VecMap::with_capacity(0)
    }
}

impl<K, V> VecMap<K, V> {
    /// The map holds no more than it takes.
    pub open spec fn wf(&self) -> bool {
        self@.len() <= THRESHOLD
    }

    /// An empty map, with room for `n` entries set aside.
    pub fn with_capacity(n: usize) -> (map: Self)
        ensures
            map@ == Seq::<(Hashed<K>, V)>::empty(),
            map.wf(),
    {
        let map = VecMap { hashes: [SmallHashResult::default();THRESHOLD], values: Vec::with_capacity(n) };
        assert(map@ =~= Seq::<(Hashed<K>, V)>::empty());
        map
    }

    /// Sets room for `additional` more entries aside.
    pub fn reserve(&mut self, additional: usize)
        ensures
            final(self)@ == old(self)@,
            final(self).wf() == old(self).wf(),
    {
        self.values.reserve(additional);
        assert(self@ =~= old(self)@);
    }

    /// The number of entries.
    pub fn len(&self) -> (n: usize)
        ensures
            n == self@.len(),
    {
        self.values.len()
    }

    /// Whether the map holds no entry.
    pub fn is_empty(&self) -> (empty: bool)
        ensures
            empty == (self@.len() == 0),
    {
        self.values.is_empty()
    }

    /// The entry at `index`, in the order of insertion.
    pub fn get_index(&self, index: usize) -> (entry: Option<(&K, &V)>)
        ensures
            match entry {
                Some((k, v)) => index < self@.len() && *k == self@[index as int].0.key && *v == self@[index as int].1,
                None => index >= self@.len(),
            },
    {
        if index < self.values.len() {
            let pair = &self.values[index];
            Some((&pair.0, &pair.1))
        } else {
            None
        }
    }
}

impl<K: PartialEq, V> VecMap<K, V> {
    /// The first entry whose hash is that of `key` and whose key `key`
    /// equals: its index, its key and its value.
    pub fn get_full(&self, key: BorrowHashed<K>) -> (found: Option<(usize, &K, &V)>)
        requires
            K::obeys_eq_spec(),
            self.wf(),
        ensures
            match found {
                Some((i, k, v)) => first_hit(self@, key.hash, *key.key, i as int) && *k == self@[i as int].0.key && *v
                    == self@[i as int].1,
                None => no_hit(self@, key.hash, *key.key),
            },
    {
        let mut i: usize = 0;
        while i < self.values.len()
            invariant
                K::obeys_eq_spec(),
                self.wf(),
                i <= self@.len(),
                forall|j: int| 0 <= j < i ==> !hit(self@, key.hash, *key.key, j),
            decreases self@.len() - i,
        {
            if self.hashes[i] == key.hash() {
                let v = &self.values[i];
                if *key.key() == v.0 {
                    return Some((i, &v.0, &v.1));
                }
            }
            i += 1;
        }
        None
    }

    /// The value of the first entry that `key` hits.
    pub fn get_hashed(&self, key: BorrowHashed<K>) -> (found: Option<&V>)
        requires
            K::obeys_eq_spec(),
            self.wf(),
        ensures
            match found {
                Some(v) => exists|i: int| first_hit(self@, key.hash, *key.key, i) && *v == self@[i].1,
                None => no_hit(self@, key.hash, *key.key),
            },
    {
        match self.get_full(key) {
            Some((_, _, v)) => Some(v),
            None => None,
        }
    }

    /// The index of the first entry that `key` hits.
    pub fn get_index_of_hashed(&self, key: BorrowHashed<K>) -> (found: Option<usize>)
        requires
            K::obeys_eq_spec(),
            self.wf(),
        ensures
            match found {
                Some(i) => first_hit(self@, key.hash, *key.key, i as int),
                None => no_hit(self@, key.hash, *key.key),
            },
    {
        match self.get_full(key) {
            Some((i, _, _)) => Some(i),
            None => None,
        }
    }

    /// Whether `key` hits an entry.
    pub fn contains_key_hashed(&self, key: BorrowHashed<K>) -> (found: bool)
        requires
            K::obeys_eq_spec(),
            self.wf(),
        ensures
            found == !no_hit(self@, key.hash, *key.key),
    {
        let mut i: usize = 0;
        while i < self.values.len()
            invariant
                K::obeys_eq_spec(),
                self.wf(),
                i <= self@.len(),
                forall|j: int| 0 <= j < i ==> !hit(self@, key.hash, *key.key, j),
            decreases self@.len() - i,
        {
            if self.hashes[i] == key.hash() && *key.key() == self.values[i].0 {
                assert(hit(self@, key.hash, *key.key, i as int));
                return true;
            }
            i += 1;
        }
        false
    }

    /// The value of the first entry that `key` hits, to be written through.
    pub fn get_mut_hashed(&mut self, key: BorrowHashed<K>) -> (found: Option<&mut V>)
        requires
            K::obeys_eq_spec(),
            old(self).wf(),
        ensures
            final(self).wf(),
            match found {
                Some(v) => exists|i: int|
                    first_hit(old(self)@, key.hash, *key.key, i) && *v == old(self)@[i].1 && final(self)@ == old(self)@.update(i, (old(self)@[i].0, *final(v))),
                None => no_hit(old(self)@, key.hash, *key.key) && final(self)@ == old(self)@,
            },
    {
        let found = self.get_index_of_hashed(key);
        match found {
            Some(i) => {
                let slot = &mut self.values[i];
                Some(&mut slot.1)
            },
            None => None,
        }
    }

    /// Puts `value` under `key`. Where an entry has the key already, the
    /// entry keeps its place and its key, and the value it had is returned;
    /// else the entry goes to the end. A full map takes no new key.
    pub fn insert_hashed(&mut self, key: Hashed<K>, value: V) -> (previous: Option<V>)
        requires
            K::obeys_eq_spec(),
            old(self).wf(),
            old(self)@.len() < THRESHOLD || !no_hit(old(self)@, key.hash, key.key),
        ensures
            final(self).wf(),
            match previous {
                Some(v) => exists|i: int|
                    first_hit(old(self)@, key.hash, key.key, i) && v == old(self)@[i].1 && final(self)@ == old(self)@.update(i, (old(self)@[i].0, value)),
                None => no_hit(old(self)@, key.hash, key.key) && final(self)@ == old(self)@.push((key, value)),
            },
    {
        let found = self.get_index_of_hashed(key.borrow());
        match found {
            Some(i) => {
                let mut value = value;
                core::mem::swap(&mut self.values[i].1, &mut value);
                proof {
                    assert(first_hit(old(self)@, key.hash, key.key, i as int));
                    assert(self@ =~= old(self)@.update(i as int, (old(self)@[i as int].0, self@[i as int].1)));
                }
                Some(value)
            },
            None => {
                let i = self.values.len();
                self.hashes[i] = key.hash();
                self.values.push((key.into_key(), value));
                proof {
                    assert(self@ =~= old(self)@.push((key, value)));
                }
                None
            },
        }
    }

    /// Takes the first entry that `key` hits out of the map, and returns
    /// its value. The entries behind it move up by one.
    pub fn remove_hashed(&mut self, key: BorrowHashed<K>) -> (removed: Option<V>)
        requires
            K::obeys_eq_spec(),
            old(self).wf(),
        ensures
            final(self).wf(),
            match removed {
                Some(v) => exists|i: int|
                    first_hit(old(self)@, key.hash, *key.key, i) && v == old(self)@[i].1 && final(self)@ == old(self)@.remove(i),
                None => no_hit(old(self)@, key.hash, *key.key) && final(self)@ == old(self)@,
            },
    {
        let len = self.values.len();
        if len == 0 {
            return None;
        }
        let found = self.get_index_of_hashed(key);
        match found {
            Some(i) => {
                let mut j: usize = i;
                while j < len - 1
                    invariant
                        len == self.values@.len(),
                        len <= THRESHOLD,
                        self.values@ == old(self).values@,
                        i <= j < len,
                        forall|h: int| 0 <= h < i ==> self.hashes@[h] == old(self).hashes@[h],
                        forall|h: int| i <= h < j ==> self.hashes@[h] == old(self).hashes@[h + 1],
                        forall|h: int| j <= h < len ==> self.hashes@[h] == old(self).hashes@[h],
                    decreases len - j,
                {
                    self.hashes[j] = self.hashes[j + 1];
                    j += 1;
                }
                let pair = self.values.remove(i);
                proof {
                    assert(first_hit(old(self)@, key.hash, *key.key, i as int));
                    assert(self@ =~= old(self)@.remove(i as int));
                }
                Some(pair.1)
            },
            None => None,
        }
    }
}

impl<K, V> VecMap<K, V> {
    /// Takes all the entries out of the map, in their order, each key with
    /// its hash.
    pub fn take_entries(&mut self) -> (entries: Vec<(Hashed<K>, V)>)
        requires
            old(self).wf(),
        ensures
            final(self).wf(),
            final(self)@ == Seq::<(Hashed<K>, V)>::empty(),
            entries@ == old(self)@,
    {
        let mut entries: Vec<(Hashed<K>, V)> = Vec::new();
        let mut taken: Vec<(K, V)> = Vec::new();
        core::mem::swap(&mut self.values, &mut taken);
        assert(self@ =~= Seq::<(Hashed<K>, V)>::empty());
        let ghost given = old(self)@;
        let ghost total = taken@.len();
        // The pairs leave `taken` from its end, so `entries` is filled from the end too.
        while taken.len() > 0
            invariant
                total <= THRESHOLD,
                self.hashes == old(self).hashes,
                given == old(self)@,
                given.len() == total,
                taken@.len() + entries@.len() == total,
                forall|h: int| 0 <= h < taken@.len() ==> taken@[h] == old(self).values@[h],
                forall|h: int| 0 <= h < entries@.len() ==> entries@[h] == given[total - 1 - h],
            decreases taken@.len(),
        {
            let at = taken.len() - 1;
            let hash = self.hashes[at];
            match taken.pop() {
                Some(pair) => {
                    entries.push((Hashed::new_unchecked(hash, pair.0), pair.1));
                },
                None => {},
            }
        }
        reverse(&mut entries);
        assert(entries@ =~= given);
        entries
    }
}

#[verifier::external_type_specification]
#[verifier::external_body]
#[verifier::reject_recursive_types(K)]
#[verifier::reject_recursive_types(V)]
#[verifier::reject_recursive_types(S)]
pub struct ExIndexMap<K, V, S>(indexmap::IndexMap<K, V, S>);

/// Puts `entries` into `map`, in their order.
///
/// Calls `IndexMap::extend`, which inserts the pairs one after another: a
/// key that the map holds keeps its place and gets the new value, a new key
/// goes to the end. Nothing is stated of the map here.
#[verifier::external_body]
fn extend_index_map<K: core::hash::Hash + Eq, V, S: core::hash::BuildHasher>(
    map: &mut indexmap::IndexMap<Hashed<K>, V, S>,
    entries: Vec<(Hashed<K>, V)>,
) {
    map.extend(entries)
}

impl<K: core::hash::Hash + Eq, V> VecMap<K, V> {
    /// Moves all the entries into `map`, in their order, and leaves this
    /// map empty.
    pub fn drain_to<S: core::hash::BuildHasher>(&mut self, map: &mut indexmap::IndexMap<Hashed<K>, V, S>)
        requires
            old(self).wf(),
        ensures
            final(self).wf(),
            final(self)@ == Seq::<(Hashed<K>, V)>::empty(),
    {
        let entries = self.take_entries();
        extend_index_map(map, entries);
    }
}

/// Turns `items` round: the last comes first.
fn reverse<T>(items: &mut Vec<T>)
    ensures
        final(items)@.len() == old(items)@.len(),
        forall|i: int| 0 <= i < old(items)@.len() ==> final(items)@[i] == old(items)@[old(items)@.len() - 1 - i],
{
    let mut turned: Vec<T> = Vec::new();
    let ghost given = items@;
    while items.len() > 0
        invariant
            items@.len() + turned@.len() == given.len(),
            forall|h: int| 0 <= h < items@.len() ==> items@[h] == given[h],
            forall|h: int| 0 <= h < turned@.len() ==> turned@[h] == given[given.len() - 1 - h],
        decreases items@.len(),
    {
        match items.pop() {
            Some(item) => {
                turned.push(item);
            },
            None => {},
        }
    }
    core::mem::swap(items, &mut turned);
}

/// The keys of a map, one after another in the order of insertion.
pub struct VMKeys<'a, K, V> {
    entries: &'a Vec<(K, V)>,
    position: usize,
}

/// The values of a map, one after another in the order of insertion.
pub struct VMValues<'a, K, V> {
    entries: &'a Vec<(K, V)>,
    position: usize,
}

/// The entries of a map, one after another in the order of insertion.
pub struct VMIter<'a, K, V> {
    entries: &'a Vec<(K, V)>,
    position: usize,
}

/// The entries of a map, each key with its hash, one after another in the
/// order of insertion.
pub struct VMIterHash<'a, K, V> {
    hashes: &'a [SmallHashResult; THRESHOLD],
    entries: &'a Vec<(K, V)>,
    position: usize,
}

/// The entries of a map that was given up, one after another in the order
/// of insertion.
pub struct VMIntoIter<K, V> {
    // Last first, so that the next entry is the one to pop.
    rest: Vec<(K, V)>,
}

/// The entries of a map that was given up, each key with its hash, one
/// after another in the order of insertion.
pub struct VMIntoIterHash<K, V> {
    // Last first, so that the next entry is the one to pop.
    rest: Vec<(Hashed<K>, V)>,
}

impl<'a, K, V> VMKeys<'a, K, V> {
    /// The keys still to come.
    pub closed spec fn remaining(&self) -> Seq<K> {
        Seq::new((self.entries@.len() - self.position) as nat, |i: int| self.entries@[self.position + i].0)
    }

    /// The cursor stands within the entries.
    pub closed spec fn wf(&self) -> bool {
        self.position <= self.entries@.len()
    }

    /// The next item, if there is one.
    pub fn next(&mut self) -> (item: Option<&'a K>)
        requires
            old(self).wf(),
        ensures
            final(self).wf(),
            match item {
                Some(k) => old(self).remaining().len() > 0 && *k == old(self).remaining()[0] && final(self).remaining() == old(self).remaining().drop_first(),
                None => old(self).remaining().len() == 0 && final(self).remaining() == old(self).remaining(),
            },
    {
        if self.position < self.entries.len() {
            let pair = &self.entries[self.position];
            self.position += 1;
            assert(self.remaining() =~= old(self).remaining().drop_first());
            Some(&pair.0)
        } else {
            None
        }
    }

    /// The number of keys still to come.
    pub fn count(&self) -> (n: usize)
        requires
            self.wf(),
        ensures
            n == self.remaining().len(),
    {
        self.entries.len() - self.position
    }
}

impl<'a, K, V> VMValues<'a, K, V> {
    /// The values still to come.
    pub closed spec fn remaining(&self) -> Seq<V> {
        Seq::new((self.entries@.len() - self.position) as nat, |i: int| self.entries@[self.position + i].1)
    }

    /// The cursor stands within the entries.
    pub closed spec fn wf(&self) -> bool {
        self.position <= self.entries@.len()
    }

    /// The next item, if there is one.
    pub fn next(&mut self) -> (item: Option<&'a V>)
        requires
            old(self).wf(),
        ensures
            final(self).wf(),
            match item {
                Some(v) => old(self).remaining().len() > 0 && *v == old(self).remaining()[0] && final(self).remaining() == old(self).remaining().drop_first(),
                None => old(self).remaining().len() == 0 && final(self).remaining() == old(self).remaining(),
            },
    {
        if self.position < self.entries.len() {
            let pair = &self.entries[self.position];
            self.position += 1;
            assert(self.remaining() =~= old(self).remaining().drop_first());
            Some(&pair.1)
        } else {
            None
        }
    }

    /// The number of values still to come.
    pub fn count(&self) -> (n: usize)
        requires
            self.wf(),
        ensures
            n == self.remaining().len(),
    {
        self.entries.len() - self.position
    }
}

impl<'a, K, V> VMIter<'a, K, V> {
    /// The entries still to come.
    pub closed spec fn remaining(&self) -> Seq<(K, V)> {
        Seq::new((self.entries@.len() - self.position) as nat, |i: int| self.entries@[self.position + i])
    }

    /// The cursor stands within the entries.
    pub closed spec fn wf(&self) -> bool {
        self.position <= self.entries@.len()
    }

    /// The next item, if there is one.
    pub fn next(&mut self) -> (item: Option<(&'a K, &'a V)>)
        requires
            old(self).wf(),
        ensures
            final(self).wf(),
            match item {
                Some((k, v)) => old(self).remaining().len() > 0 && (*k, *v) == old(self).remaining()[0] && final(self).remaining() == old(self).remaining().drop_first(),
                None => old(self).remaining().len() == 0 && final(self).remaining() == old(self).remaining(),
            },
    {
        if self.position < self.entries.len() {
            let pair = &self.entries[self.position];
            self.position += 1;
            assert(self.remaining() =~= old(self).remaining().drop_first());
            Some((&pair.0, &pair.1))
        } else {
            None
        }
    }

    /// The number of entries still to come.
    pub fn count(&self) -> (n: usize)
        requires
            self.wf(),
        ensures
            n == self.remaining().len(),
    {
        self.entries.len() - self.position
    }
}

impl<'a, K, V> VMIterHash<'a, K, V> {
    /// The entries still to come, each key with its hash.
    pub closed spec fn remaining(&self) -> Seq<(Hashed<K>, V)> {
        Seq::new(
            (self.entries@.len() - self.position) as nat,
            |i: int|
                (
                    Hashed { hash: self.hashes@[self.position + i], key: self.entries@[self.position + i].0 },
                    self.entries@[self.position + i].1,
                ),
        )
    }

    /// The cursor stands within the entries.
    pub closed spec fn wf(&self) -> bool {
        self.position <= self.entries@.len() <= THRESHOLD
    }

    /// The next item, if there is one.
    pub fn next(&mut self) -> (item: Option<(BorrowHashed<'a, K>, &'a V)>)
        requires
            old(self).wf(),
        ensures
            final(self).wf(),
            match item {
                Some((k, v)) => {
                    &&& old(self).remaining().len() > 0
                    &&& k.hash == old(self).remaining()[0].0.hash
                    &&& *k.key == old(self).remaining()[0].0.key
                    &&& *v == old(self).remaining()[0].1
                    &&& final(self).remaining() == old(self).remaining().drop_first()
                },
                None => old(self).remaining().len() == 0 && final(self).remaining() == old(self).remaining(),
            },
    {
        if self.position < self.entries.len() {
            let pair = &self.entries[self.position];
            let hash = self.hashes[self.position];
            self.position += 1;
            assert(self.remaining() =~= old(self).remaining().drop_first());
            Some((BorrowHashed::new_unchecked(hash, &pair.0), &pair.1))
        } else {
            None
        }
    }

    /// The number of entries still to come.
    pub fn count(&self) -> (n: usize)
        requires
            self.wf(),
        ensures
            n == self.remaining().len(),
    {
        self.entries.len() - self.position
    }
}

impl<K, V> VMIntoIter<K, V> {
    /// The entries still to come.
    pub closed spec fn remaining(&self) -> Seq<(K, V)> {
        self.rest@.reverse()
    }

    /// The next item, if there is one.
    pub fn next(&mut self) -> (item: Option<(K, V)>)
        ensures
            match item {
                Some(pair) => old(self).remaining().len() > 0 && pair == old(self).remaining()[0] && final(self).remaining() == old(self).remaining().drop_first(),
                None => old(self).remaining().len() == 0 && final(self).remaining() == old(self).remaining(),
            },
    {
        let item = self.rest.pop();
        assert(item is Some ==> self.remaining() =~= old(self).remaining().drop_first());
        item
    }

    /// The number of entries still to come.
    pub fn count(&self) -> (n: usize)
        ensures
            n == self.remaining().len(),
    {
        self.rest.len()
    }
}

impl<K, V> VMIntoIterHash<K, V> {
    /// The entries still to come, each key with its hash.
    pub closed spec fn remaining(&self) -> Seq<(Hashed<K>, V)> {
        self.rest@.reverse()
    }

    /// The next item, if there is one.
    pub fn next(&mut self) -> (item: Option<(Hashed<K>, V)>)
        ensures
            match item {
                Some(pair) => old(self).remaining().len() > 0 && pair == old(self).remaining()[0] && final(self).remaining() == old(self).remaining().drop_first(),
                None => old(self).remaining().len() == 0 && final(self).remaining() == old(self).remaining(),
            },
    {
        let item = self.rest.pop();
        assert(item is Some ==> self.remaining() =~= old(self).remaining().drop_first());
        item
    }

    /// The number of entries still to come.
    pub fn count(&self) -> (n: usize)
        ensures
            n == self.remaining().len(),
    {
        self.rest.len()
    }
}

/// The keys of `entries`.
pub open spec fn keys_of<K, V>(entries: Seq<(Hashed<K>, V)>) -> Seq<K> {
    Seq::new(entries.len(), |i: int| entries[i].0.key)
}

/// The values of `entries`.
pub open spec fn values_of<K, V>(entries: Seq<(Hashed<K>, V)>) -> Seq<V> {
    Seq::new(entries.len(), |i: int| entries[i].1)
}

/// The entries `entries` without the hashes.
pub open spec fn pairs_of<K, V>(entries: Seq<(Hashed<K>, V)>) -> Seq<(K, V)> {
    Seq::new(entries.len(), |i: int| (entries[i].0.key, entries[i].1))
}

impl<K, V> VecMap<K, V> {
    /// The keys, in the order of insertion.
    pub fn keys(&self) -> (iter: VMKeys<'_, K, V>)
        ensures
            iter.wf(),
            iter.remaining() == keys_of(self@),
    {
        let iter = VMKeys { entries: &self.values, position: 0 };
        assert(iter.remaining() =~= keys_of(self@));
        iter
    }

    /// The values, in the order of insertion.
    pub fn values(&self) -> (iter: VMValues<'_, K, V>)
        ensures
            iter.wf(),
            iter.remaining() == values_of(self@),
    {
        let iter = VMValues { entries: &self.values, position: 0 };
        assert(iter.remaining() =~= values_of(self@));
        iter
    }

    /// The entries, in the order of insertion.
    pub fn iter(&self) -> (iter: VMIter<'_, K, V>)
        ensures
            iter.wf(),
            iter.remaining() == pairs_of(self@),
    {
        let iter = VMIter { entries: &self.values, position: 0 };
        assert(iter.remaining() =~= pairs_of(self@));
        iter
    }

    /// The entries, each key with its hash, in the order of insertion.
    pub fn iter_hashed(&self) -> (iter: VMIterHash<'_, K, V>)
        requires
            self.wf(),
        ensures
            iter.wf(),
            iter.remaining() == self@,
    {
        let iter = VMIterHash { hashes: &self.hashes, entries: &self.values, position: 0 };
        assert(iter.remaining() =~= self@);
        iter
    }

    /// The entries, in the order of insertion; the map is given up.
    pub fn into_iter(self) -> (iter: VMIntoIter<K, V>)
        ensures
            iter.remaining() == pairs_of(self@),
    {
        let mut rest = self.values;
        reverse(&mut rest);
        let iter = VMIntoIter { rest };
        assert(iter.remaining() =~= pairs_of(self@));
        iter
    }

    /// The entries, each key with its hash, in the order of insertion;
    /// the map is given up.
    pub fn into_iter_hashed(self) -> (iter: VMIntoIterHash<K, V>)
        requires
            self.wf(),
        ensures
            iter.remaining() == self@,
    {
        let mut map = self;
        let mut rest = map.take_entries();
        reverse(&mut rest);
        let iter = VMIntoIterHash { rest };
        assert(iter.remaining() =~= self@);
        iter
    }
}

/// The values of a map, one after another in the order of insertion, each
/// to be written through.
pub struct VMValuesMut<'a, K, V> {
    entries: &'a mut Vec<(K, V)>,
    position: usize,
}

impl<'a, K, V> VMValuesMut<'a, K, V> {
    /// The cursor stands within the entries.
    pub closed spec fn wf(&self) -> bool {
        self.position <= self.entries@.len()
    }

    /// The values still to come.
    pub closed spec fn remaining(&self) -> Seq<V> {
        Seq::new((self.entries@.len() - self.position) as nat, |i: int| self.entries@[self.position + i].1)
    }

    /// The next item, if there is one.
    pub fn next(&mut self) -> (item: Option<&mut V>)
        requires
            old(self).wf(),
        ensures
            final(self).wf(),
            match item {
                Some(v) => old(self).remaining().len() > 0 && *v == old(self).remaining()[0] && final(self).remaining()
                    == old(self).remaining().drop_first(),
                None => old(self).remaining().len() == 0 && final(self).remaining() == old(self).remaining(),
            },
    {
        if self.position < self.entries.len() {
            let at = self.position;
            self.position += 1;
            let pair = &mut self.entries[at];
            Some(&mut pair.1)
        } else {
            None
        }
    }
}

/// The entries of a map, one after another in the order of insertion, each
/// value to be written through.
pub struct VMIterMut<'a, K, V> {
    entries: &'a mut Vec<(K, V)>,
    position: usize,
}

impl<'a, K, V> VMIterMut<'a, K, V> {
    /// The cursor stands within the entries.
    pub closed spec fn wf(&self) -> bool {
        self.position <= self.entries@.len()
    }

    /// The entries still to come.
    pub closed spec fn remaining(&self) -> Seq<(K, V)> {
        Seq::new((self.entries@.len() - self.position) as nat, |i: int| self.entries@[self.position + i])
    }

    /// The next item, if there is one.
    pub fn next(&mut self) -> (item: Option<(&K, &mut V)>)
        requires
            old(self).wf(),
        ensures
            final(self).wf(),
            match item {
                Some((k, v)) => old(self).remaining().len() > 0 && (*k, *v) == old(self).remaining()[0] && final(self).remaining() == old(self).remaining().drop_first(),
                None => old(self).remaining().len() == 0 && final(self).remaining() == old(self).remaining(),
            },
    {
        if self.position < self.entries.len() {
            let at = self.position;
            self.position += 1;
            let pair = &mut self.entries[at];
            Some((&pair.0, &mut pair.1))
        } else {
            None
        }
    }
}

impl<K, V> VecMap<K, V> {
    /// The values, in the order of insertion, each to be written through.
    pub fn values_mut(&mut self) -> (iter: VMValuesMut<'_, K, V>)
        ensures
            iter.wf(),
            iter.remaining() == values_of(old(self)@),
    {
        let iter = VMValuesMut { entries: &mut self.values, position: 0 };
        assert(iter.remaining() =~= values_of(old(self)@));
        iter
    }

    /// The entries, in the order of insertion, each value to be written
    /// through.
    pub fn iter_mut(&mut self) -> (iter: VMIterMut<'_, K, V>)
        ensures
            iter.wf(),
            iter.remaining() == pairs_of(old(self)@),
    {
        let iter = VMIterMut { entries: &mut self.values, position: 0 };
        assert(iter.remaining() =~= pairs_of(old(self)@));
        iter
    }
}

} // verus!
