use starlark::values::constant::{str_cell, ConstFrozenValue};
use starlark::values::freezer::Freezer;
use starlark::values::frozen_heap::{FrozenHeap, FrozenHeapRef, HeapIds};
use starlark::values::heap::{Heap, WriteError};
use starlark::values::value::{FrozenValue, FrozenValueMem, HeapId, Payload, Value, ValueMem};

/// The heaps of a test, by the number that the test gives them.
struct Ids {
    ids: HeapIds,
    made: Vec<(u64, HeapId)>,
}

impl Ids {
    fn new() -> Self {
        Ids { ids: HeapIds::new(), made: Vec::new() }
    }

    fn heap(&mut self, n: u64) -> FrozenHeap {
        let heap = FrozenHeap::new(&mut self.ids);
        self.made.push((n, heap.identity()));
        heap
    }

    /// The identity of heap `n`, or one that no heap has where the test
    /// made no heap `n`.
    fn id(&self, n: u64) -> HeapId {
        match self.made.iter().find(|(m, _)| *m == n) {
            Some((_, id)) => *id,
            None => HeapId { source: 0, serial: n },
        }
    }
}

fn share(mut freezer: Freezer) -> FrozenHeapRef {
    if !freezer.is_magic_set() {
        freezer.set_magic(Payload { kind: "slots", naturally_mutable: false, scalar: 0, children: vec![] });
    }
    freezer.into_ref()
}

fn list(children: Vec<Value>) -> Payload<Value> {
    Payload { kind: "list", naturally_mutable: true, scalar: 0, children }
}

fn frozen_children(heap: &FrozenHeapRef, value: FrozenValue) -> Vec<FrozenValue> {
    match heap.get_ref(value) {
        Some(FrozenValueMem::Immutable(p)) => p.children.clone(),
        other => panic!("not an immutable value: {:?}", other),
    }
}

fn frozen_text(heap: &FrozenHeapRef, value: FrozenValue) -> String {
    match heap.get_ref(value) {
        Some(FrozenValueMem::Str(s)) => s.clone(),
        other => panic!("not a string: {:?}", other),
    }
}

fn assert_send_sync<T: Send + Sync>() {}

#[test]
fn test_send_sync() {
    assert_send_sync::<FrozenHeapRef>();
}

#[test]
fn frozen_heap_allocates_in_order() {
    let mut ids = Ids::new();
    let mut heap = ids.heap(5);
    assert_eq!(heap.identity(), ids.id(5));
    let s = heap.alloc_str("s".to_string());
    let p = heap.alloc_immutable(Payload { kind: "tuple", naturally_mutable: false, scalar: 3, children: vec![s] });
    assert_eq!(s, FrozenValue::Ptr { heap: ids.id(5), slot: 0 });
    assert_eq!(p, FrozenValue::Ptr { heap: ids.id(5), slot: 1 });
    assert_eq!(heap.len(), 2);
    assert_eq!(heap.allocated_bytes(), 2 * std::mem::size_of::<FrozenValueMem>());
    assert!(matches!(heap.get_ref(s), Some(FrozenValueMem::Str(t)) if t == "s"));
    assert!(heap.get_ref(FrozenValue::Ptr { heap: ids.id(5), slot: 2 }).is_none());
    assert!(heap.get_ref(FrozenValue::Ptr { heap: ids.id(6), slot: 0 }).is_none());
    assert!(heap.get_ref(FrozenValue::Bool(true)).is_none());
    let shared = heap.into_ref();
    assert_eq!(shared.identity(), ids.id(5));
    assert_eq!(frozen_children(&shared, p), vec![s]);
    let again = shared.dupe();
    assert_eq!(again.identity(), ids.id(5));
    assert_eq!(frozen_text(&again, s), "s");
}

#[test]
fn freezer_reserves_the_magic_value() {
    let mut ids = Ids::new();
    let mut heap = ids.heap(2);
    heap.alloc_str("first".to_string());
    let mut freezer = Freezer::new(heap);
    let magic = freezer.get_magic();
    assert_eq!(magic, FrozenValue::Ptr { heap: ids.id(2), slot: 1 });
    let s = freezer.alloc_value("later".to_string());
    assert_eq!(s, FrozenValue::Ptr { heap: ids.id(2), slot: 2 });
    assert_eq!(freezer.alloc_value(true), FrozenValue::Bool(true));
    freezer.set_magic(Payload { kind: "slots", naturally_mutable: false, scalar: 0, children: vec![s] });
    let shared = share(freezer);
    assert_eq!(frozen_children(&shared, magic), vec![s]);
    assert_eq!(frozen_text(&shared, s), "later");
}

#[test]
fn freeze_returns_frozen_values_as_they_are() {
    let mut ids = Ids::new();
    let mut heap = Heap::new();
    let mut freezer = Freezer::new(ids.heap(1));
    let there = FrozenValue::Ptr { heap: ids.id(7), slot: 3 };
    assert_eq!(freezer.freeze(&mut heap, Value::Frozen(there)), there);
    assert_eq!(freezer.freeze(&mut heap, Value::new_bool(true)), FrozenValue::Bool(true));
    assert_eq!(freezer.freeze(&mut heap, Value::Frozen(FrozenValue::Int(-2))), FrozenValue::Int(-2));
    assert_eq!(share(freezer).get_ref(there), None);
}

#[test]
fn freeze_moves_a_cell_once() {
    let mut ids = Ids::new();
    let mut heap = Heap::new();
    let a = heap.alloc_str("a".to_string());
    let l = heap.alloc_mutable(list(vec![a, a]));
    let mut freezer = Freezer::new(ids.heap(1));
    let first = freezer.freeze(&mut heap, l);
    let second = freezer.freeze(&mut heap, l);
    let inner = freezer.freeze(&mut heap, a);
    assert_eq!(first, second);
    assert!(matches!(heap.get_ref(l), Some(ValueMem::Forward(f)) if *f == first));
    assert!(matches!(heap.get_ref(a), Some(ValueMem::Forward(f)) if *f == inner));
    let shared = share(freezer);
    // The magic value, the list and the string.
    assert_eq!(shared.get_ref(FrozenValue::Ptr { heap: ids.id(1), slot: 3 }), None);
    assert_eq!(frozen_children(&shared, first), vec![inner, inner]);
    assert_eq!(frozen_text(&shared, inner), "a");
}

#[test]
fn freeze_keeps_the_kind_and_the_scalar() {
    let mut ids = Ids::new();
    let mut heap = Heap::new();
    let p = heap.alloc_mutable(Payload { kind: "record", naturally_mutable: false, scalar: -7, children: vec![] });
    let i = heap.alloc_immutable(Payload { kind: "range", naturally_mutable: false, scalar: 9, children: vec![] });
    let mut freezer = Freezer::new(ids.heap(1));
    let fp = freezer.freeze(&mut heap, p);
    let fi = freezer.freeze(&mut heap, i);
    let shared = share(freezer);
    assert_eq!(
        shared.get_ref(fp),
        Some(&FrozenValueMem::Immutable(Payload { kind: "record", naturally_mutable: false, scalar: -7, children: vec![] }))
    );
    assert_eq!(
        shared.get_ref(fi),
        Some(&FrozenValueMem::Immutable(Payload { kind: "range", naturally_mutable: false, scalar: 9, children: vec![] }))
    );
}

#[test]
fn freeze_ends_on_a_cycle_and_keeps_it() {
    let mut ids = Ids::new();
    let mut heap = Heap::new();
    let x = heap.alloc_mutable(list(vec![]));
    let y = heap.alloc_mutable(list(vec![x]));
    assert_eq!(heap.write(x, list(vec![y, x])), Ok(()));
    let mut freezer = Freezer::new(ids.heap(1));
    let fx = freezer.freeze(&mut heap, x);
    let shared = share(freezer);
    let kids = frozen_children(&shared, fx);
    assert_eq!(kids.len(), 2);
    assert_eq!(kids[1], fx);
    assert_ne!(kids[0], fx);
    assert_eq!(frozen_children(&shared, kids[0]), vec![fx]);
}

#[test]
fn freeze_passes_through_thaw_on_write() {
    let mut ids = Ids::new();
    let mut origin = ids.heap(1);
    let l = origin.alloc_immutable(Payload { kind: "list", naturally_mutable: true, scalar: 0, children: vec![] });
    let owner = origin.into_ref();
    let mut heap = Heap::new();
    let untouched = heap.alloc_thaw_on_write(&owner, l);
    let thawed = heap.alloc_thaw_on_write(&owner, l);
    let a = heap.alloc_str("a".to_string());
    assert_eq!(heap.write(thawed, list(vec![a])), Ok(()));
    let mut freezer = Freezer::new(ids.heap(2));
    assert_eq!(freezer.freeze(&mut heap, untouched), l);
    let f = freezer.freeze(&mut heap, thawed);
    assert!(matches!(f, FrozenValue::Ptr { heap, .. } if heap == ids.id(2)));
    assert!(matches!(heap.get_ref(thawed), Some(ValueMem::ThawOnWrite(_))));
    let fa = freezer.freeze(&mut heap, a);
    let shared = share(freezer);
    assert_eq!(frozen_children(&shared, f), vec![fa]);
}

#[test]
fn a_heap_keeps_alive_what_it_refers_to() {
    let mut ids = Ids::new();
    let mut h2 = ids.heap(2);
    let leaf = h2.alloc_str("leaf".to_string());
    let h2 = h2.into_ref();
    let mut heap = Heap::new();
    let l = heap.alloc_mutable(list(vec![Value::Frozen(leaf)]));
    let mut h1 = ids.heap(1);
    h1.add_reference(&h2);
    h1.add_reference(&h2);
    let mut freezer = Freezer::new(h1);
    let fl = freezer.freeze(&mut heap, l);
    let h1 = share(freezer);
    drop(h2);
    drop(heap);
    let kids = frozen_children(&h1, fl);
    assert_eq!(kids, vec![leaf]);
    assert_eq!(frozen_text(&h1, kids[0]), "leaf");
}

#[test]
fn a_heap_does_not_resolve_what_it_does_not_refer_to() {
    let mut ids = Ids::new();
    let mut h2 = ids.heap(2);
    let leaf = h2.alloc_str("leaf".to_string());
    let h2 = h2.into_ref();
    let mut h3 = ids.heap(3);
    let other = h3.alloc_str("other".to_string());
    let h3 = h3.into_ref();
    let mut h1 = ids.heap(1);
    assert_eq!(h1.get_ref(leaf), None);
    h1.add_reference(&h2);
    let mut freezer = Freezer::new(h1);
    freezer.add_reference(&h3);
    freezer.add_reference(&h2);
    let h1 = share(freezer);
    assert_eq!(frozen_text(&h1, leaf), "leaf");
    assert_eq!(frozen_text(&h1, other), "other");
    assert_eq!(h1.get_ref(FrozenValue::Ptr { heap: ids.id(4), slot: 0 }), None);
    assert_eq!(h1.get_ref(FrozenValue::Ptr { heap: ids.id(2), slot: 1 }), None);
}

#[test]
fn end_to_end_container_with_a_back_reference() {
    let mut ids = Ids::new();
    let mut heap = Heap::new();
    let _garbage = heap.alloc_str("garbage".to_string());
    let a = heap.alloc_str("a".to_string());
    let b = heap.alloc_str("b".to_string());
    // Two elements, and behind them a link back to the container itself.
    let c = heap.alloc_mutable(Payload { kind: "list", naturally_mutable: true, scalar: 2, children: vec![a, b] });
    assert_eq!(
        heap.write(c, Payload { kind: "list", naturally_mutable: true, scalar: 2, children: vec![a, b, c] }),
        Ok(())
    );

    let mut roots = vec![c];
    heap.garbage_collect(&mut roots);
    let c = roots[0];
    assert_eq!(heap.len(), 3);
    let (len, kids) = match heap.get_ref(c) {
        Some(ValueMem::Mutable(p)) => (p.scalar, p.children.clone()),
        other => panic!("not a container: {:?}", other),
    };
    assert_eq!(len, 2);
    assert!(matches!(heap.get_ref(kids[0]), Some(ValueMem::Str(s)) if s == "a"));
    assert!(matches!(heap.get_ref(kids[1]), Some(ValueMem::Str(s)) if s == "b"));
    assert_eq!(kids[2], c);

    let mut freezer = Freezer::new(ids.heap(1));
    let fc = freezer.freeze(&mut heap, c);
    let shared = share(freezer);
    let (len, kids) = match shared.get_ref(fc) {
        Some(FrozenValueMem::Immutable(p)) => (p.scalar, p.children.clone()),
        other => panic!("not an immutable value: {:?}", other),
    };
    assert_eq!(len, 2);
    assert_eq!(frozen_text(&shared, kids[0]), "a");
    assert_eq!(frozen_text(&shared, kids[1]), "b");
    assert_eq!(kids[2], fc);
    assert_eq!(
        heap.write(Value::Frozen(fc), Payload { kind: "list", naturally_mutable: true, scalar: 0, children: vec![] }),
        Err(WriteError::Immutable)
    );
    assert_eq!(
        heap.write(c, Payload { kind: "list", naturally_mutable: true, scalar: 0, children: vec![] }),
        Err(WriteError::Immutable)
    );
}

#[test]
fn a_constant_is_one_cell_for_good() {
    let mut ids = Ids::new();
    let constant: &'static ConstFrozenValue = Box::leak(Box::new(ConstFrozenValue::new("hello")));
    let first = constant.unpack();
    let second = constant.unpack();
    assert_eq!(first, second);
    match (first, second) {
        (FrozenValue::Static(x), FrozenValue::Static(y)) => {
            assert!(std::ptr::eq(x, y));
            assert_eq!(*x, FrozenValueMem::Str("hello".to_string()));
        }
        other => panic!("not constants: {:?}", other),
    }
    let heap = ids.heap(1).into_ref();
    assert_eq!(heap.get_ref(first), Some(&FrozenValueMem::Str("hello".to_string())));
    assert_eq!(str_cell("x"), FrozenValueMem::Str("x".to_string()));
}

#[test]
fn a_heap_is_closed_when_it_keeps_alive_what_it_points_into() {
    let mut ids = Ids::new();
    let mut h2 = ids.heap(2);
    let leaf = h2.alloc_str("leaf".to_string());
    let h2 = h2.into_ref();
    let mut heap = Heap::new();
    let l = heap.alloc_mutable(list(vec![Value::Frozen(leaf), Value::new_bool(true)]));
    let mut freezer = Freezer::new(ids.heap(1));
    freezer.freeze(&mut heap, l);
    freezer.add_reference(&h2);
    let with = share(freezer);
    let mut heap = Heap::new();
    let l = heap.alloc_mutable(list(vec![Value::Frozen(leaf)]));
    let mut open = ids.heap(3);
    assert!(open.is_closed());
    let dangling = open.alloc_immutable(Payload {
        kind: "tuple",
        naturally_mutable: false,
        scalar: 0,
        children: vec![FrozenValue::Ptr { heap: ids.id(3), slot: 5 }],
    });
    assert!(!open.is_closed());
    let mut freezer = Freezer::new(ids.heap(4));
    freezer.freeze(&mut heap, l);
    let without = share(freezer);
    assert_eq!(with.get_ref(leaf), Some(&FrozenValueMem::Str("leaf".to_string())));
    assert_eq!(without.get_ref(leaf), None);
    assert_eq!(without.get_ref(dangling), None);
}

#[test]
fn a_freezer_says_what_it_accepts() {
    let mut ids = Ids::new();
    let mut heap = Heap::new();
    let a = heap.alloc_str("a".to_string());
    let l = heap.alloc_mutable(list(vec![a]));
    let freezer = Freezer::new(ids.heap(1));
    assert!(freezer.accepts(&heap));
    assert!(freezer.accepts_value(&heap, l));
    assert!(freezer.accepts_value(&heap, Value::new_bool(true)));
    assert!(!freezer.accepts_value(&heap, Value::Ptr(9)));
    heap.record_call_exit();
    assert!(freezer.accepts(&heap));
    assert!(!freezer.accepts_value(&heap, Value::Ptr(2)));
    let r = heap.alloc_raw(ValueMem::Ref(a));
    assert!(!freezer.accepts_value(&heap, r));
    heap.alloc_mutable(list(vec![r]));
    assert!(!freezer.accepts(&heap));
    let mut heap = Heap::new();
    heap.alloc_raw(ValueMem::Forward(FrozenValue::Ptr { heap: ids.id(1), slot: 1 }));
    assert!(!freezer.accepts(&heap));
    let mut heap = Heap::new();
    heap.alloc_raw(ValueMem::Forward(FrozenValue::Ptr { heap: ids.id(1), slot: 0 }));
    heap.alloc_raw(ValueMem::Forward(FrozenValue::Ptr { heap: ids.id(2), slot: 7 }));
    assert!(freezer.accepts(&heap));
}

#[test]
fn heaps_are_equal_when_they_are_the_same_heap() {
    let mut ids = Ids::new();
    let mut a = ids.heap(1);
    a.alloc_str("x".to_string());
    let a = a.into_ref();
    let mut b = ids.heap(2);
    b.alloc_str("x".to_string());
    let b = b.into_ref();
    assert!(a == a.dupe());
    assert!(a != b);
    let mut set = std::collections::HashSet::new();
    set.insert(a.dupe().identity());
    set.insert(a.identity());
    set.insert(b.identity());
    assert_eq!(set.len(), 2);
}

#[test]
fn a_shared_heap_holds_nothing_that_can_change() {
    let mut ids = Ids::new();
    let mut heap = Heap::new();
    let a = heap.alloc_str("a".to_string());
    let inner = heap.alloc_mutable(Payload { kind: "tuple", naturally_mutable: false, scalar: 0, children: vec![a] });
    let l = heap.alloc_mutable(list(vec![inner, a]));
    let mut freezer = Freezer::new(ids.heap(1));
    let magic = freezer.get_magic();
    freezer.freeze(&mut heap, l);
    freezer.set_magic(Payload { kind: "slots", naturally_mutable: false, scalar: 0, children: vec![] });
    let shared = share(freezer);
    assert_eq!(shared.len(), 4);
    for slot in 0..shared.len() {
        let cell = shared.get_ref(FrozenValue::Ptr { heap: ids.id(1), slot });
        assert!(matches!(cell, Some(FrozenValueMem::Str(_)) | Some(FrozenValueMem::Immutable(_))), "{:?}", cell);
    }
    assert!(matches!(shared.get_ref(magic), Some(FrozenValueMem::Immutable(_))));
    // Every cell of the heap that was frozen from holds a marker now, and takes no write.
    for slot in 0..heap.len() {
        assert!(matches!(heap.get_ref(Value::Ptr(slot)), Some(ValueMem::Forward(_))));
        assert_eq!(heap.write(Value::Ptr(slot), list(vec![])), Err(WriteError::Immutable));
    }
    assert_eq!(shared.len(), 4);
}

#[test]
fn no_two_heaps_have_one_identity() {
    let mut ids = HeapIds::new();
    let a = FrozenHeap::new(&mut ids);
    let b = FrozenHeap::new(&mut ids);
    assert_eq!(a.identity().source, b.identity().source);
    assert_eq!(a.identity().serial, 0);
    assert_eq!(b.identity().serial, 1);
    let mut other = HeapIds::new();
    let c = FrozenHeap::new(&mut other);
    assert_eq!(c.identity().serial, 0);
    assert_ne!(c.identity().source, a.identity().source);
    assert_ne!(c.identity(), a.identity());
    // Heaps that hold the same are still different heaps.
    let (a, b, c) = (a.into_ref(), b.into_ref(), c.into_ref());
    assert!(a != b);
    assert!(a != c);
    assert!(a == a.clone());
    drop(ids);
    drop(other);
    let mut late = HeapIds::new();
    let d = FrozenHeap::new(&mut late).into_ref();
    assert!(d != a && d != b && d != c);
}

#[test]
fn the_magic_value_is_said_once_before_the_heap_is_shared() {
    let mut ids = Ids::new();
    let mut freezer = Freezer::new(ids.heap(1));
    assert!(!freezer.is_magic_set());
    let magic = freezer.get_magic();
    freezer.set_magic(Payload { kind: "slots", naturally_mutable: false, scalar: 7, children: vec![] });
    assert!(freezer.is_magic_set());
    let shared = freezer.into_ref();
    assert_eq!(
        shared.get_ref(magic),
        Some(&FrozenValueMem::Immutable(Payload { kind: "slots", naturally_mutable: false, scalar: 7, children: vec![] }))
    );
}

#[test]
fn freezing_freezes_what_it_reaches_and_nothing_else() {
    let mut ids = Ids::new();
    let mut heap = Heap::new();
    let apart = heap.alloc_str("apart".to_string());
    let a = heap.alloc_str("a".to_string());
    let inner = heap.alloc_mutable(list(vec![a]));
    let outer = heap.alloc_mutable(list(vec![inner, a, inner]));
    let mut freezer = Freezer::new(ids.heap(1));
    let f = freezer.freeze(&mut heap, outer);
    // The magic value, and one cell for each of the three cells reached.
    assert_eq!(f, FrozenValue::Ptr { heap: ids.id(1), slot: 1 });
    assert!(matches!(heap.get_ref(apart), Some(ValueMem::Str(s)) if s == "apart"));
    assert!(matches!(heap.get_ref(a), Some(ValueMem::Forward(_))));
    assert!(matches!(heap.get_ref(inner), Some(ValueMem::Forward(_))));
    let shared = share(freezer);
    assert_eq!(shared.len(), 4);
}
