//! What a type of the language offers: how its values allocate, print,
//! convert and compare.

use vstd::prelude::*;
use crate::values::frozen_heap::FrozenHeap;
use crate::values::heap::Heap;
use crate::values::value::{CellView, FrozenCellView, FrozenValue, Payload, Value};

verus! {

/// Why an operation on a value failed.
#[derive(Clone, Copy, Debug, PartialEq, Eq)]
pub enum ValueError {
    /// The operation `op` is not defined between a value of type `left`
    /// and the value `right`.
    OperationNotSupported { op: &'static str, left: &'static str, right: Value },
}

/// How one value stands to another.
#[derive(Clone, Copy, Debug, PartialEq, Eq)]
pub enum Comparison {
    Less,
    Equal,
    Greater,
}

/// What a value gives to the heap under evaluation: a cell to put there,
/// or an immediate that needs none.
pub enum Allocation {
    Cell(CellView),
    Immediate(Value),
}

/// What a value gives to a frozen heap.
pub enum FrozenAllocation {
    Cell(FrozenCellView),
    Immediate(FrozenValue),
}

/// A value that can be put on the heap under evaluation.
pub trait AllocValue: Sized {
    spec fn allocation(&self) -> Allocation;

    fn alloc_value(self, heap: &mut Heap) -> (value: Value)
        ensures
            match self.allocation() {
                Allocation::Cell(cell) => {
                    &&& value matches Value::Ptr(slot) && slot == old(heap)@.len()
                    &&& final(heap)@ == old(heap)@.push(cell)
                },
                Allocation::Immediate(immediate) => {
                    &&& value == immediate
                    &&& final(heap)@ == old(heap)@
                },
            },
    ;
}

/// A value that can be put on a frozen heap.
pub trait AllocFrozenValue: Sized {
    spec fn frozen_allocation(&self) -> FrozenAllocation;

    fn alloc_frozen_value(self, heap: &mut FrozenHeap) -> (value: FrozenValue)
        ensures
            final(heap).id() == old(heap).id(),
            final(heap).deps() == old(heap).deps(),
            match self.frozen_allocation() {
                FrozenAllocation::Cell(cell) => {
                    &&& value matches FrozenValue::Ptr { heap: id, slot } && id == old(heap).id() && slot == old(heap).cells().len()
                    &&& final(heap).cells() == old(heap).cells().push(cell)
                },
                FrozenAllocation::Immediate(immediate) => {
                    &&& value == immediate
                    &&& final(heap).cells() == old(heap).cells()
                },
            },
    ;
}

impl AllocValue for String {
    open spec fn allocation(&self) -> Allocation {
        Allocation::Cell(CellView::Str(self@))
    }

    fn alloc_value(self, heap: &mut Heap) -> (value: Value) {
        heap.alloc_str(self)
    }
}

impl AllocFrozenValue for String {
    open spec fn frozen_allocation(&self) -> FrozenAllocation {
        FrozenAllocation::Cell(FrozenCellView::Str(self@))
    }

    fn alloc_frozen_value(self, heap: &mut FrozenHeap) -> (value: FrozenValue) {
        heap.alloc_str(self)
    }
}

impl AllocValue for Payload<FrozenValue> {
    open spec fn allocation(&self) -> Allocation {
        Allocation::Cell(CellView::Immutable(self@))
    }

    fn alloc_value(self, heap: &mut Heap) -> (value: Value) {
        heap.alloc_immutable(self)
    }
}

impl AllocFrozenValue for Payload<FrozenValue> {
    open spec fn frozen_allocation(&self) -> FrozenAllocation {
        FrozenAllocation::Cell(FrozenCellView::Immutable(self@))
    }

    fn alloc_frozen_value(self, heap: &mut FrozenHeap) -> (value: FrozenValue) {
        heap.alloc_immutable(self)
    }
}

impl AllocValue for Payload<Value> {
    open spec fn allocation(&self) -> Allocation {
        Allocation::Cell(
            if self.naturally_mutable {
                CellView::Mutable(self@)
            } else {
                CellView::Pseudo(self@)
            },
        )
    }

    fn alloc_value(self, heap: &mut Heap) -> (value: Value) {
        heap.alloc_mutable(self)
    }
}

/// A type of the language.
pub trait TypedValue {
    /// The name of the type.
    fn get_type(&self) -> &'static str;

    /// Appends the value as the language writes it.
    fn collect_repr(&self, s: &mut String);

    fn to_json(&self) -> String;

    fn to_int(&self) -> Result<i32, ValueError>;

    fn to_bool(&self) -> bool;

    fn get_hash(&self) -> Result<u64, ValueError>;

    fn equals(&self, other: Value) -> Result<bool, ValueError>;

    fn compare(&self, ptr_eq: bool, other: Value) -> Result<Comparison, ValueError>;
}

} // verus!
