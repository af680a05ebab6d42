use starlark::environment::globals::GlobalsBuilder;
use starlark::environment::slots::{FrozenSlots, LocalSlots, MutableSlots};
use starlark::stdlib::{
    add_breakpoint, add_enum, add_extra_functions, add_record, add_struct, add_typing, extended_environment,
    standard_environment,
};
use starlark::values::freezer::Freezer;
use starlark::values::frozen_heap::{FrozenHeap, FrozenHeapRef, HeapIds};
use starlark::values::heap::Heap;
use starlark::values::typed::{AllocFrozenValue, AllocValue, Comparison, TypedValue, ValueError};
use starlark::values::types::bool::BOOL_VALUE_TYPE_NAME;
use starlark::values::value::{FrozenValue, FrozenValueMem, HeapId, Payload, Value, ValueMem};
use starlark::values::value_ref::ValueRef;
use starlark::values::walker::Walker;

/// The heaps of a test, by the number that the test gives them.
struct Ids {
    ids: HeapIds,
    made: Vec<(u64, HeapId)>,
}

impl Ids {
    fn new() -> Self {
        Ids { ids: HeapIds::new(), made: Vec::new() }
    }

    fn heap(&mut self, n: u64) -> FrozenHeap {
        let heap = FrozenHeap::new(&mut self.ids);
        self.made.push((n, heap.identity()));
        heap
    }

    fn builder(&mut self, n: u64) -> GlobalsBuilder {
        let builder = GlobalsBuilder::new(&mut self.ids);
        self.made.push((n, builder.identity()));
        builder
    }

    fn standard(&mut self, n: u64) -> GlobalsBuilder {
        let builder = standard_environment(&mut self.ids);
        self.made.push((n, builder.identity()));
        builder
    }

    fn extended(&mut self, n: u64) -> GlobalsBuilder {
        let builder = extended_environment(&mut self.ids);
        self.made.push((n, builder.identity()));
        builder
    }

    /// The identity of heap `n`, or one that no heap has where the test
    /// made no heap `n`.
    fn id(&self, n: u64) -> HeapId {
        match self.made.iter().find(|(m, _)| *m == n) {
            Some((_, id)) => *id,
            None => HeapId { source: 0, serial: n },
        }
    }
}

fn share(mut freezer: Freezer) -> FrozenHeapRef {
    if !freezer.is_magic_set() {
        freezer.set_magic(Payload { kind: "slots", naturally_mutable: false, scalar: 0, children: vec![] });
    }
    freezer.into_ref()
}

#[test]
fn test_no_arg() {
    let mut ids = Ids::new();
    let mut builder = ids.builder(1);
    builder.set_function("nop");
    let env = builder.build();
    env.get("nop").unwrap();
}

#[test]
fn builder_binds_names_in_order_and_rebinds_in_place() {
    let mut ids = Ids::new();
    let mut builder = ids.builder(1);
    assert_eq!(builder.get("x"), None);
    builder.set_value("x", FrozenValue::Int(1));
    builder.set_value("y", FrozenValue::Int(2));
    builder.set_value("x", FrozenValue::Int(3));
    assert_eq!(builder.get("x"), Some(FrozenValue::Int(3)));
    assert_eq!(builder.get("y"), Some(FrozenValue::Int(2)));
    builder.set_string("s", "text");
    let s = builder.get("s").unwrap();
    builder.set("flag", true);
    assert_eq!(builder.get("flag"), Some(FrozenValue::Bool(true)));
    builder.set("t", "more".to_string());
    assert_eq!(builder.get("t"), Some(FrozenValue::Ptr { heap: ids.id(1), slot: 1 }));
    let globals = builder.build();
    assert_eq!(globals.get("x"), Some(FrozenValue::Int(3)));
    assert_eq!(globals.get("z"), None);
    assert_eq!(globals.heap_ref().identity(), ids.id(1));
    assert_eq!(globals.heap_ref().get_ref(s), Some(&FrozenValueMem::Str("text".to_string())));
}

#[test]
fn a_function_is_a_cell_that_names_itself() {
    let mut ids = Ids::new();
    let mut builder = ids.builder(4);
    builder.set_function("len");
    let f = builder.get("len").unwrap();
    assert_eq!(f, FrozenValue::Ptr { heap: ids.id(4), slot: 1 });
    let globals = builder.build();
    let name = FrozenValue::Ptr { heap: ids.id(4), slot: 0 };
    assert_eq!(
        globals.heap_ref().get_ref(f),
        Some(&FrozenValueMem::Immutable(Payload {
            kind: "function",
            naturally_mutable: false,
            scalar: 0,
            children: vec![name]
        }))
    );
    assert_eq!(globals.heap_ref().get_ref(name), Some(&FrozenValueMem::Str("len".to_string())));
}

#[test]
fn the_standard_environment_has_the_language_itself() {
    let mut ids = Ids::new();
    let env = ids.standard(1).build();
    assert_eq!(env.get("None"), Some(FrozenValue::NoneValue));
    assert_eq!(env.get("True"), Some(FrozenValue::Bool(true)));
    assert_eq!(env.get("False"), Some(FrozenValue::Bool(false)));
    // `fail` is the first function: its name is cell 0, the function cell 1.
    assert_eq!(env.get("fail"), Some(FrozenValue::Ptr { heap: ids.id(1), slot: 1 }));
    assert_eq!(env.get("zip"), Some(FrozenValue::Ptr { heap: ids.id(1), slot: 49 }));
    for name in ["any", "all", "bool", "dict", "len", "list", "range", "str", "tuple", "type"] {
        assert!(env.get(name).is_some(), "{}", name);
    }
    assert_eq!(env.get("struct"), None);
    assert_eq!(env.get("filter"), None);
}

#[test]
fn the_extended_environment_adds_the_extensions_in_order() {
    let mut ids = Ids::new();
    let env = ids.extended(2).build();
    assert_eq!(env.get("len"), Some(FrozenValue::Ptr { heap: ids.id(2), slot: 25 }));
    assert_eq!(ids.standard(5).build().get("len"), Some(FrozenValue::Ptr { heap: ids.id(5), slot: 25 }));
    assert_eq!(env.get("struct"), Some(FrozenValue::Ptr { heap: ids.id(2), slot: 51 }));
    assert_eq!(env.get("field"), Some(FrozenValue::Ptr { heap: ids.id(2), slot: 53 }));
    assert_eq!(env.get("record"), Some(FrozenValue::Ptr { heap: ids.id(2), slot: 55 }));
    assert_eq!(env.get("enum"), Some(FrozenValue::Ptr { heap: ids.id(2), slot: 57 }));
    assert_eq!(env.get("filter"), Some(FrozenValue::Ptr { heap: ids.id(2), slot: 59 }));
    assert_eq!(env.get("partial"), Some(FrozenValue::Ptr { heap: ids.id(2), slot: 63 }));
    assert_eq!(env.get("breakpoint"), None);
    assert_eq!(env.get("Int"), None);
}

#[test]
fn each_extension_adds_its_own_names() {
    let mut ids = Ids::new();
    let mut builder = ids.builder(3);
    add_struct(&mut builder);
    assert!(builder.get("struct").is_some());
    add_record(&mut builder);
    assert!(builder.get("record").is_some());
    assert!(builder.get("field").is_some());
    add_enum(&mut builder);
    assert!(builder.get("enum").is_some());
    add_extra_functions(&mut builder);
    assert!(builder.get("partial").is_some());
    add_breakpoint(&mut builder);
    assert!(builder.get("breakpoint").is_some());
    add_typing(&mut builder);
    let int = builder.get("Int").unwrap();
    let any = builder.get("Any").unwrap();
    let globals = builder.build();
    assert_eq!(globals.heap_ref().get_ref(int), Some(&FrozenValueMem::Str("int".to_string())));
    assert_eq!(globals.heap_ref().get_ref(any), Some(&FrozenValueMem::Str("".to_string())));
    assert_eq!(globals.get("String").and_then(|v| globals.heap_ref().get_ref(v)), Some(&FrozenValueMem::Str("string".to_string())));
}

#[test]
fn adding_an_extension_twice_rebinds_its_names() {
    let mut ids = Ids::new();
    let mut builder = ids.builder(3);
    add_struct(&mut builder);
    let first = builder.get("struct");
    add_struct(&mut builder);
    let second = builder.get("struct");
    assert_eq!(first, Some(FrozenValue::Ptr { heap: ids.id(3), slot: 1 }));
    assert_eq!(second, Some(FrozenValue::Ptr { heap: ids.id(3), slot: 3 }));
}

#[test]
fn bool_is_a_type_of_the_language() {
    assert_eq!(BOOL_VALUE_TYPE_NAME, "bool");
    assert_eq!(true.get_type(), "bool");
    let mut s = "x = ".to_string();
    true.collect_repr(&mut s);
    false.collect_repr(&mut s);
    assert_eq!(s, "x = TrueFalse");
    assert_eq!(true.to_json(), "True");
    assert_eq!(false.to_json(), "False");
    assert_eq!(true.to_int(), Ok(1));
    assert_eq!(false.to_int(), Ok(0));
    assert!(true.to_bool());
    assert!(!false.to_bool());
    assert_eq!(true.get_hash(), Ok(1));
    assert_eq!(false.get_hash(), Ok(0));
    assert_eq!(true.equals(Value::new_bool(true)), Ok(true));
    assert_eq!(true.equals(Value::new_bool(false)), Ok(false));
    assert_eq!(true.equals(Value::Frozen(FrozenValue::Int(1))), Ok(false));
    assert_eq!(true.equals(Value::Ptr(0)), Ok(false));
    assert_eq!(false.compare(false, Value::new_bool(true)), Ok(Comparison::Less));
    assert_eq!(true.compare(false, Value::new_bool(true)), Ok(Comparison::Equal));
    assert_eq!(true.compare(true, Value::new_bool(false)), Ok(Comparison::Greater));
    assert_eq!(
        true.compare(false, Value::Frozen(FrozenValue::Int(1))),
        Err(ValueError::OperationNotSupported { op: "<>", left: "bool", right: Value::Frozen(FrozenValue::Int(1)) })
    );
}

#[test]
fn values_allocate_as_their_type_says() {
    let mut ids = Ids::new();
    let mut heap = Heap::new();
    assert_eq!(true.alloc_value(&mut heap), Value::new_bool(true));
    assert_eq!(heap.len(), 0);
    assert_eq!("s".to_string().alloc_value(&mut heap), Value::Ptr(0));
    let im = Payload { kind: "range", naturally_mutable: false, scalar: 1, children: vec![FrozenValue::Int(1)] };
    assert_eq!(im.alloc_value(&mut heap), Value::Ptr(1));
    let mu = Payload { kind: "list", naturally_mutable: true, scalar: 0, children: vec![Value::Ptr(0)] };
    assert_eq!(mu.alloc_value(&mut heap), Value::Ptr(2));
    assert!(matches!(heap.get_ref(Value::Ptr(0)), Some(ValueMem::Str(s)) if s == "s"));
    assert!(matches!(heap.get_ref(Value::Ptr(1)), Some(ValueMem::Immutable(_))));
    assert!(matches!(heap.get_ref(Value::Ptr(2)), Some(ValueMem::Mutable(_))));
    let mut frozen = ids.heap(8);
    assert_eq!(false.alloc_frozen_value(&mut frozen), FrozenValue::Bool(false));
    assert_eq!("t".to_string().alloc_frozen_value(&mut frozen), FrozenValue::Ptr { heap: ids.id(8), slot: 0 });
    let im = Payload { kind: "range", naturally_mutable: false, scalar: 1, children: vec![] };
    assert_eq!(im.alloc_frozen_value(&mut frozen), FrozenValue::Ptr { heap: ids.id(8), slot: 1 });
    assert_eq!(frozen.len(), 2);
}

#[test]
fn module_slots_start_unassigned() {
    let mut slots = MutableSlots::new();
    slots.ensure_slots(3);
    assert_eq!(slots.0.len(), 3);
    assert_eq!(slots.get_slot(0), None);
    slots.set_slot(1, Value::new_bool(true));
    assert_eq!(slots.get_slot(1), Some(Value::new_bool(true)));
    slots.ensure_slots(2);
    assert_eq!(slots.0.len(), 3);
    slots.ensure_slots(5);
    assert_eq!(slots.0.len(), 5);
    assert_eq!(slots.get_slot(1), Some(Value::new_bool(true)));
    assert_eq!(slots.get_slot(4), None);
    slots.get_slots_mut().push(Value::Ptr(0));
    assert_eq!(slots.get_slot(5), Some(Value::Ptr(0)));
}

#[test]
fn module_slots_freeze_slot_by_slot() {
    let mut ids = Ids::new();
    let mut heap = Heap::new();
    let a = heap.alloc_str("a".to_string());
    let mut slots = MutableSlots::new();
    slots.ensure_slots(3);
    slots.set_slot(0, a);
    slots.set_slot(2, a);
    let mut freezer = Freezer::new(ids.heap(1));
    let frozen: FrozenSlots = slots.freeze(&mut freezer, &mut heap);
    let fa = FrozenValue::Ptr { heap: ids.id(1), slot: 1 };
    assert_eq!(frozen.0, vec![fa, FrozenValue::Unassigned, fa]);
    assert_eq!(frozen.get_slot(0), Some(fa));
    assert_eq!(frozen.get_slot(1), None);
    assert_eq!(share(freezer).get_ref(fa), Some(&FrozenValueMem::Str("a".to_string())));
}

#[test]
fn local_slots_that_are_bound_see_one_value() {
    let mut heap = Heap::new();
    let a = heap.alloc_str("a".to_string());
    let b = heap.alloc_str("b".to_string());
    let mut slots = LocalSlots::new(vec![ValueRef::new_unassigned(), ValueRef::new(a), ValueRef::new_unassigned()]);
    assert_eq!(slots.get_slot(0, &heap), None);
    assert_eq!(slots.get_slot(1, &heap), Some(a));
    slots.set_slot(0, &mut heap, b);
    assert_eq!(slots.get_slot(0, &heap), Some(b));
    assert_eq!(heap.len(), 2);
    let bound = slots.clone_slot_reference(1, &mut heap);
    assert_eq!(heap.len(), 3);
    slots.set_slot_ref(2, bound);
    assert_eq!(slots.get_slot(2, &heap), Some(a));
    slots.set_slot(2, &mut heap, b);
    assert_eq!(slots.get_slot(1, &heap), Some(b));
    assert_eq!(slots.get_slot(2, &heap), Some(b));
    let again = slots.clone_slot_reference(2, &mut heap);
    assert_eq!(heap.len(), 3);
    assert_eq!(again.get(&heap), Some(b));
}

#[test]
fn local_slots_walk_every_slot() {
    let mut heap = Heap::new();
    let _garbage = heap.alloc_str("garbage".to_string());
    let a = heap.alloc_str("a".to_string());
    let mut slots = LocalSlots::new(vec![ValueRef::new(a), ValueRef::new_unassigned(), ValueRef::new(a)]);
    let bound = slots.clone_slot_reference(0, &mut heap);
    slots.set_slot_ref(1, bound);
    let mut walker = Walker::new(heap);
    slots.walk(&mut walker);
    let heap = walker.finish();
    assert_eq!(heap.len(), 2);
    let x = slots.get_slot(0, &heap).unwrap();
    assert_eq!(slots.get_slot(1, &heap), Some(x));
    assert_eq!(slots.get_slot(2, &heap), Some(x));
    assert!(matches!(heap.get_ref(x), Some(ValueMem::Str(s)) if s == "a"));
}
