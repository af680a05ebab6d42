//! Keys that carry their hash.

use vstd::prelude::*;

verus! {

/// The hash of a key, as the small maps store it.
#[derive(Clone, Copy, Debug, PartialEq, Eq, Structural, Hash)]
pub struct SmallHashResult {
    hash: u32,
}

impl SmallHashResult {
    pub closed spec fn value(self) -> u32 {
        self.hash
    }

    pub fn new_unchecked(hash: u32) -> (result: Self)
        ensures
            result.value() == hash,
    {
        SmallHashResult { hash }
    }

    pub fn get(self) -> (hash: u32)
        ensures
            hash == self.value(),
    {
        self.hash
    }

    /// Two hashes are the same value exactly when they hold the same
    /// number.
    pub proof fn lemma_by_value(self, other: Self)
        ensures
            (self == other) == (self.value() == other.value()),
    {
    }
}

impl Default for SmallHashResult {
    fn default() -> (result: Self)
        ensures
            result.value() == 0,
    {
        SmallHashResult { hash: 0 }
    }
}

/// A key and its hash, which is computed once and kept.
#[derive(Debug, PartialEq, Eq, Hash)]
pub struct Hashed<K> {
    pub hash: SmallHashResult,
    pub key: K,
}

/// A borrowed key and its hash.
#[derive(Debug)]
pub struct BorrowHashed<'a, K> {
    pub hash: SmallHashResult,
    pub key: &'a K,
}

impl<K> Hashed<K> {
    /// Pairs `key` with `hash`, which the caller has computed from it.
    pub fn new_unchecked(hash: SmallHashResult, key: K) -> (hashed: Self)
        ensures
            hashed == (Hashed { hash, key }),
    {
        Hashed { hash, key }
    }

    pub fn hash(&self) -> (hash: SmallHashResult)
        ensures
            hash == self.hash,
    {
        self.hash
    }

    pub fn key(&self) -> (key: &K)
        ensures
            *key == self.key,
    {
        &self.key
    }

    pub fn into_key(self) -> (key: K)
        ensures
            key == self.key,
    {
        self.key
    }

    pub fn borrow(&self) -> (borrowed: BorrowHashed<'_, K>)
        ensures
            borrowed.hash == self.hash,
            *borrowed.key == self.key,
    {
        BorrowHashed { hash: self.hash, key: &self.key }
    }
}

impl<'a, K> BorrowHashed<'a, K> {
    /// Pairs `key` with `hash`, which the caller has computed from it.
    pub fn new_unchecked(hash: SmallHashResult, key: &'a K) -> (hashed: Self)
        ensures
            hashed.hash == hash,
            *hashed.key == *key,
    {
        BorrowHashed { hash, key }
    }

    pub fn hash(&self) -> (hash: SmallHashResult)
        ensures
            hash == self.hash,
    {
        self.hash
    }

    pub fn key(&self) -> (key: &'a K)
        ensures
            *key == *self.key,
    {
        self.key
    }
}

} // verus!
