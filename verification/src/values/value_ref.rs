//! A variable: a place that holds a handle, and that can be bound to other
//! places so that they all see one value.

use vstd::prelude::*;
use crate::values::heap::Heap;
use crate::values::value::{CellView, FrozenValue, Value, ValueMem};

verus! {

/// A variable. It holds its value itself until it is bound to another
/// variable; from then on both hold a handle to one reference cell of the
/// heap, and the value is there.
#[derive(Clone, Copy, Debug)]
pub struct ValueRef {
    pub value: Value,
}

/// Whether `value` points to a reference cell of `cells`.
pub open spec fn is_shared(cells: Seq<CellView>, value: Value) -> bool {
    value matches Value::Ptr(slot) && slot < cells.len() && cells[slot as int] is Ref
}

/// `value`, or nothing where it is the unassigned value.
pub open spec fn assigned(value: Value) -> Option<Value> {
    if value == Value::Frozen(FrozenValue::Unassigned) {
        None
    } else {
        Some(value)
    }
}

/// What a variable that holds `value` reads as: nothing before it is
/// assigned, else what it holds, or what the reference cell it points to
/// holds.
pub open spec fn read(cells: Seq<CellView>, value: Value) -> Option<Value> {
    if is_shared(cells, value) {
        assigned(cells[value->Ptr_0 as int]->Ref_0)
    } else {
        assigned(value)
    }
}

impl ValueRef {
    pub fn new(value: Value) -> (r: Self)
        ensures
            r.value == value,
    {
        ValueRef { value }
    }

    pub fn new_unassigned() -> (r: Self)
        ensures
            r.value == Value::Frozen(FrozenValue::Unassigned),
    {
        ValueRef { value: Value::new_unassigned() }
    }

    /// The value of the variable, or `None` where nothing was assigned yet.
    pub fn get(&self, heap: &Heap) -> (value: Option<Value>)
        ensures
            value == read(heap@, self.value),
    {
        let held = match heap.get_ref(self.value) {
            Some(ValueMem::Ref(inner)) => *inner,
            _ => self.value,
        };
        if held.is_unassigned() {
            None
        } else {
            Some(held)
        }
    }

    /// Assigns `value`: to the reference cell where the variable is bound,
    /// else to the variable itself.
    pub fn set(&mut self, heap: &mut Heap, value: Value)
        ensures
            is_shared(old(heap)@, old(self).value) ==> {
                &&& final(self).value == old(self).value
                &&& final(heap)@ == old(heap)@.update(old(self).value->Ptr_0 as int, CellView::Ref(value))
            },
            !is_shared(old(heap)@, old(self).value) ==> {
                &&& final(self).value == value
                &&& final(heap)@ == old(heap)@
            },
    {
        let shared = match heap.get_ref(self.value) {
            Some(ValueMem::Ref(_)) => true,
            _ => false,
        };
        if shared {
            match self.value {
                Value::Ptr(slot) => {
                    heap.swap_cell(slot, ValueMem::Ref(value));
                },
                Value::Frozen(_) => {},
            }
        } else {
            self.value = value;
        }
    }

    /// A second variable bound to this one: what is assigned to either is
    /// seen through both. The first binding moves the value into a
    /// reference cell of its own.
    pub fn clone_reference(&mut self, heap: &mut Heap) -> (bound: ValueRef)
        ensures
            bound.value == final(self).value,
            is_shared(final(heap)@, final(self).value),
            is_shared(old(heap)@, old(self).value) ==> {
                &&& final(self).value == old(self).value
                &&& final(heap)@ == old(heap)@
            },
            !is_shared(old(heap)@, old(self).value) ==> {
                &&& final(self).value matches Value::Ptr(slot) && slot == old(heap)@.len()
                &&& final(heap)@ == old(heap)@.push(CellView::Ref(old(self).value))
            },
    {
        let shared = match heap.get_ref(self.value) {
            Some(ValueMem::Ref(_)) => true,
            _ => false,
        };
        if !shared {
            self.value = heap.alloc_raw(ValueMem::Ref(self.value));
        }
        ValueRef { value: self.value }
    }
}

} // verus!
