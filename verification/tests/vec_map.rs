use indexmap::IndexMap;
use starlark::collections::hash::{BorrowHashed, Hashed, SmallHashResult};
use starlark::collections::vec_map::{VecMap, THRESHOLD};

fn h(n: u32) -> SmallHashResult {
    SmallHashResult::new_unchecked(n)
}

fn key(hash: u32, key: &'static str) -> Hashed<&'static str> {
    Hashed::new_unchecked(h(hash), key)
}

fn sample() -> VecMap<&'static str, i32> {
    let mut map = VecMap::with_capacity(4);
    assert_eq!(map.insert_hashed(key(1, "a"), 10), None);
    assert_eq!(map.insert_hashed(key(2, "b"), 20), None);
    assert_eq!(map.insert_hashed(key(1, "c"), 30), None);
    map
}

#[test]
fn hashes_carry_what_they_were_given() {
    assert_eq!(h(7).get(), 7);
    assert_eq!(SmallHashResult::default().get(), 0);
    assert_eq!(h(3), h(3));
    assert_ne!(h(3), h(4));
    let k = key(5, "k");
    assert_eq!(k.hash(), h(5));
    assert_eq!(*k.key(), "k");
    let b = k.borrow();
    assert_eq!(b.hash(), h(5));
    assert_eq!(*b.key(), "k");
    assert_eq!(k.into_key(), "k");
    assert_eq!(THRESHOLD, 12);
}

#[test]
fn a_new_map_is_empty() {
    assert!(VecMap::<u64, u64>::default().is_empty());
    let mut map: VecMap<u64, u64> = VecMap::with_capacity(3);
    assert!(map.is_empty());
    assert_eq!(map.len(), 0);
    map.reserve(10);
    assert!(map.is_empty());
    assert_eq!(map.get_index(0), None);
    assert_eq!(map.get_hashed(BorrowHashed::new_unchecked(h(0), &0)), None);
    assert_eq!(map.remove_hashed(BorrowHashed::new_unchecked(h(0), &0)), None);
}

#[test]
fn lookup_goes_by_hash_and_key() {
    let map = sample();
    assert_eq!(map.len(), 3);
    assert!(!map.is_empty());
    assert_eq!(map.get_full(BorrowHashed::new_unchecked(h(1), &"a")), Some((0, &"a", &10)));
    assert_eq!(map.get_full(BorrowHashed::new_unchecked(h(1), &"c")), Some((2, &"c", &30)));
    assert_eq!(map.get_hashed(BorrowHashed::new_unchecked(h(2), &"b")), Some(&20));
    assert_eq!(map.get_index_of_hashed(BorrowHashed::new_unchecked(h(2), &"b")), Some(1));
    // The right key under the wrong hash is not found.
    assert_eq!(map.get_hashed(BorrowHashed::new_unchecked(h(9), &"a")), None);
    assert_eq!(map.get_hashed(BorrowHashed::new_unchecked(h(1), &"b")), None);
    assert!(map.contains_key_hashed(BorrowHashed::new_unchecked(h(1), &"c")));
    assert!(!map.contains_key_hashed(BorrowHashed::new_unchecked(h(2), &"c")));
    assert_eq!(map.get_index(1), Some((&"b", &20)));
    assert_eq!(map.get_index(3), None);
}

#[test]
fn insert_replaces_in_place() {
    let mut map = sample();
    assert_eq!(map.insert_hashed(key(2, "b"), 21), Some(20));
    assert_eq!(map.len(), 3);
    assert_eq!(map.get_index(1), Some((&"b", &21)));
    assert_eq!(map.insert_hashed(key(3, "d"), 40), None);
    assert_eq!(map.get_index(3), Some((&"d", &40)));
}

#[test]
fn a_map_takes_as_many_keys_as_the_threshold() {
    let mut map: VecMap<u32, u32> = VecMap::with_capacity(0);
    for i in 0..12u32 {
        assert_eq!(map.insert_hashed(Hashed::new_unchecked(h(i % 3), i), i * 2), None);
    }
    assert_eq!(map.len(), THRESHOLD);
    assert_eq!(map.insert_hashed(Hashed::new_unchecked(h(2), 11), 0), Some(22));
    for i in 0..12u32 {
        assert_eq!(map.get_index_of_hashed(BorrowHashed::new_unchecked(h(i % 3), &i)), Some(i as usize));
    }
}

#[test]
fn get_mut_writes_through() {
    let mut map = sample();
    match map.get_mut_hashed(BorrowHashed::new_unchecked(h(1), &"c")) {
        Some(v) => *v += 1,
        None => panic!("the key is there"),
    }
    assert!(map.get_mut_hashed(BorrowHashed::new_unchecked(h(7), &"c")).is_none());
    assert_eq!(map.get_hashed(BorrowHashed::new_unchecked(h(1), &"c")), Some(&31));
    assert_eq!(map.get_hashed(BorrowHashed::new_unchecked(h(1), &"a")), Some(&10));
}

#[test]
fn remove_moves_the_rest_up_with_their_hashes() {
    let mut map = sample();
    assert_eq!(map.remove_hashed(BorrowHashed::new_unchecked(h(9), &"a")), None);
    assert_eq!(map.remove_hashed(BorrowHashed::new_unchecked(h(1), &"a")), Some(10));
    assert_eq!(map.len(), 2);
    assert_eq!(map.get_full(BorrowHashed::new_unchecked(h(2), &"b")), Some((0, &"b", &20)));
    assert_eq!(map.get_full(BorrowHashed::new_unchecked(h(1), &"c")), Some((1, &"c", &30)));
    assert_eq!(map.remove_hashed(BorrowHashed::new_unchecked(h(1), &"c")), Some(30));
    assert_eq!(map.remove_hashed(BorrowHashed::new_unchecked(h(1), &"c")), None);
    assert_eq!(map.get_full(BorrowHashed::new_unchecked(h(2), &"b")), Some((0, &"b", &20)));
    assert_eq!(map.len(), 1);
}

#[test]
fn cursors_go_in_the_order_of_insertion() {
    let map = sample();
    let mut keys = map.keys();
    assert_eq!(keys.count(), 3);
    assert_eq!(keys.next(), Some(&"a"));
    assert_eq!(keys.next(), Some(&"b"));
    assert_eq!(keys.count(), 1);
    assert_eq!(keys.next(), Some(&"c"));
    assert_eq!(keys.next(), None);
    assert_eq!(keys.next(), None);
    let mut values = map.values();
    assert_eq!(values.next(), Some(&10));
    assert_eq!(values.count(), 2);
    assert_eq!(values.next(), Some(&20));
    assert_eq!(values.next(), Some(&30));
    assert_eq!(values.next(), None);
    let mut iter = map.iter();
    assert_eq!(iter.count(), 3);
    assert_eq!(iter.next(), Some((&"a", &10)));
    assert_eq!(iter.next(), Some((&"b", &20)));
    assert_eq!(iter.next(), Some((&"c", &30)));
    assert_eq!(iter.next(), None);
    let mut hashed = map.iter_hashed();
    assert_eq!(hashed.count(), 3);
    let mut seen = Vec::new();
    while let Some((k, v)) = hashed.next() {
        seen.push((k.hash().get(), *k.key(), *v));
    }
    assert_eq!(seen, vec![(1, "a", 10), (2, "b", 20), (1, "c", 30)]);
}

#[test]
fn mutable_cursors_write_through() {
    let mut map = sample();
    {
        let mut values = map.values_mut();
        while let Some(v) = values.next() {
            *v *= 2;
        }
    }
    {
        let mut iter = map.iter_mut();
        while let Some((k, v)) = iter.next() {
            if *k == "b" {
                *v += 1;
            }
        }
    }
    let mut seen = Vec::new();
    let mut iter = map.iter();
    while let Some((k, v)) = iter.next() {
        seen.push((*k, *v));
    }
    assert_eq!(seen, vec![("a", 20), ("b", 41), ("c", 60)]);
}

#[test]
fn owning_cursors_give_the_entries_up() {
    let mut iter = sample().into_iter();
    assert_eq!(iter.count(), 3);
    assert_eq!(iter.next(), Some(("a", 10)));
    assert_eq!(iter.next(), Some(("b", 20)));
    assert_eq!(iter.next(), Some(("c", 30)));
    assert_eq!(iter.next(), None);
    let mut hashed = sample().into_iter_hashed();
    assert_eq!(hashed.count(), 3);
    assert_eq!(hashed.next(), Some((key(1, "a"), 10)));
    assert_eq!(hashed.next(), Some((key(2, "b"), 20)));
    assert_eq!(hashed.next(), Some((key(1, "c"), 30)));
    assert_eq!(hashed.next(), None);
}

#[test]
fn take_entries_empties_the_map() {
    let mut map = sample();
    let entries = map.take_entries();
    assert_eq!(entries, vec![(key(1, "a"), 10), (key(2, "b"), 20), (key(1, "c"), 30)]);
    assert!(map.is_empty());
    assert_eq!(map.insert_hashed(key(4, "z"), 1), None);
    assert_eq!(map.get_full(BorrowHashed::new_unchecked(h(4), &"z")), Some((0, &"z", &1)));
}

#[test]
fn drain_to_moves_the_entries_in_order() {
    let mut map = sample();
    let mut big: IndexMap<Hashed<&'static str>, i32> = IndexMap::new();
    big.insert(key(2, "b"), 0);
    map.drain_to(&mut big);
    assert!(map.is_empty());
    let got: Vec<(u32, &str, i32)> = big.iter().map(|(k, v)| (k.hash().get(), *k.key(), *v)).collect();
    assert_eq!(got, vec![(2, "b", 20), (1, "a", 10), (1, "c", 30)]);
}
