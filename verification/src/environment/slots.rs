//! Slots: the variables of a function or of a module, by number.

use vstd::prelude::*;
use crate::values::freezer::{
    all_can_freeze, all_frozen, freezable, freeze_all, froze_within_any, is_freeze, Freezer,
};
use crate::values::heap::{all_in_bounds, Heap};
use crate::values::value::{CellView, FrozenValue, Value};
use crate::values::value_ref::{read, ValueRef};
use crate::values::walker::{grown_from, is_moved, markers_kept, relocated, Walker};

verus! {

/// The slots of a function that is running. Each is a variable that may be
/// bound to others, so that a captured variable and the one it was captured
/// from see one value.
pub struct LocalSlots(pub Vec<ValueRef>);

/// The slots of a module under evaluation. A slot that nothing was
/// assigned to holds the unassigned value.
#[derive(Debug)]
pub struct MutableSlots(pub Vec<Value>);

/// The slots of a frozen module.
#[derive(Debug)]
pub struct FrozenSlots(pub Vec<FrozenValue>);

/// `count` slots that nothing was assigned to.
pub open spec fn unassigned_slots(count: nat) -> Seq<Value> {
    Seq::new(count, |i: int| Value::Frozen(FrozenValue::Unassigned))
}

impl MutableSlots {
    /// No slots.
    pub fn new() -> (slots: Self)
        ensures
            slots.0@ == Seq::<Value>::empty(),
    {
        MutableSlots(Vec::new())
    }

    /// The slots, to be changed at will.
    pub fn get_slots_mut(&mut self) -> (slots: &mut Vec<Value>)
        ensures
            *slots == old(self).0,
            final(self).0 == *final(slots),
    {
        &mut self.0
    }

    /// The value of the slot, or `None` where nothing was assigned to it.
    pub fn get_slot(&self, slot: usize) -> (value: Option<Value>)
        requires
            slot < self.0@.len(),
        ensures
            value == if self.0@[slot as int] == Value::Frozen(FrozenValue::Unassigned) {
                None
            } else {
                Some(self.0@[slot as int])
            },
    {
        let v = self.0[slot];
        if v.is_unassigned() {
            None
        } else {
            Some(v)
        }
    }

    /// Assigns `value`, which is not the unassigned value, to the slot.
    pub fn set_slot(&mut self, slot: usize, value: Value)
        requires
            slot < old(self).0@.len(),
            value != Value::Frozen(FrozenValue::Unassigned),
        ensures
            final(self).0@ == old(self).0@.update(slot as int, value),
    {
        self.0[slot] = value;
    }

    /// Makes sure that there are `count` slots: the ones that are missing
    /// are added, with nothing assigned to them.
    pub fn ensure_slots(&mut self, count: usize)
        ensures
            final(self).0@ == if old(self).0@.len() >= count {
                old(self).0@
            } else {
                old(self).0@ + unassigned_slots((count - old(self).0@.len()) as nat)
            },
    {
        if self.0.len() >= count {
            return ;
        }
        let extra = count - self.0.len();
        self.0.reserve(extra);
        let mut added: usize = 0;
        while added < extra
            invariant
                added <= extra,
                extra == count - old(self).0@.len(),
                self.0@ == old(self).0@ + unassigned_slots(added as nat),
            decreases extra - added,
        {
            self.0.push(Value::new_unassigned());
            added += 1;
            assert(self.0@ =~= old(self).0@ + unassigned_slots(added as nat));
        }
    }

    /// Freezes every slot.
    pub fn freeze(self, freezer: &mut Freezer, heap: &mut Heap) -> (frozen: FrozenSlots)
        requires
            all_can_freeze(old(heap)@, self.0@),
            old(freezer).covers(old(heap)@),
        ensures
            final(freezer).continues(old(freezer)),
            is_freeze(
                old(heap)@,
                final(heap)@,
                old(freezer).frozen().id(),
                old(freezer).frozen().cells(),
                final(freezer).frozen().cells(),
            ),
            froze_within_any(old(heap)@, final(heap)@, self.0@),
            freezable(old(heap)@) ==> freezable(final(heap)@),
            final(freezer).covers(final(heap)@),
            all_frozen(final(heap)@, self.0@),
            frozen.0@ == freeze_all(final(heap)@, self.0@),
    {
        let slots = freezer.freeze_each(heap, &self.0);
        FrozenSlots(slots)
    }
}

impl FrozenSlots {
    /// The value of the slot, or `None` where nothing was assigned to it.
    pub fn get_slot(&self, slot: usize) -> (value: Option<FrozenValue>)
        requires
            slot < self.0@.len(),
        ensures
            value == if self.0@[slot as int] is Unassigned {
                None
            } else {
                Some(self.0@[slot as int])
            },
    {
        let fv = self.0[slot];
        if fv.is_unassigned() {
            None
        } else {
            Some(fv)
        }
    }
}

impl LocalSlots {
    /// The slots `values`.
    pub fn new(values: Vec<ValueRef>) -> (slots: Self)
        ensures
            slots.0 == values,
    {
        LocalSlots(values)
    }

    /// The value of a local variable, or `None` where nothing was assigned
    /// to it yet.
    pub fn get_slot(&self, slot: usize, heap: &Heap) -> (value: Option<Value>)
        requires
            slot < self.0@.len(),
        ensures
            value == read(heap@, self.0@[slot as int].value),
    {
        self.0[slot].get(heap)
    }

    /// Assigns `value` to the variable in `slot`: to the reference cell where
    /// the variable is bound, else to the variable itself.
    pub fn set_slot(&mut self, slot: usize, heap: &mut Heap, value: Value)
        requires
            slot < old(self).0@.len(),
        ensures
            final(self).0@.len() == old(self).0@.len(),
            forall|i: int| 0 <= i < old(self).0@.len() && i != slot ==> final(self).0@[i] == old(self).0@[i],
            crate::values::value_ref::is_shared(old(heap)@, old(self).0@[slot as int].value) ==> {
                &&& final(self).0@[slot as int] == old(self).0@[slot as int]
                &&& final(heap)@ == old(heap)@.update(
                    old(self).0@[slot as int].value->Ptr_0 as int,
                    CellView::Ref(value),
                )
            },
            !crate::values::value_ref::is_shared(old(heap)@, old(self).0@[slot as int].value) ==> {
                &&& final(self).0@[slot as int].value == value
                &&& final(heap)@ == old(heap)@
            },
    {
        let mut variable = self.0[slot];
        variable.set(heap, value);
        self.0[slot] = variable;
    }

    /// A variable bound to the one in `slot`, to be put in a slot with
    /// `set_slot_ref`.
    pub fn clone_slot_reference(&mut self, slot: usize, heap: &mut Heap) -> (bound: ValueRef)
        requires
            slot < old(self).0@.len(),
        ensures
            final(self).0@ == old(self).0@.update(slot as int, bound),
            crate::values::value_ref::is_shared(final(heap)@, bound.value),
            crate::values::value_ref::is_shared(old(heap)@, old(self).0@[slot as int].value) ==> {
                &&& bound == old(self).0@[slot as int]
                &&& final(heap)@ == old(heap)@
            },
            !crate::values::value_ref::is_shared(old(heap)@, old(self).0@[slot as int].value) ==> {
                &&& bound.value matches Value::Ptr(cell) && cell == old(heap)@.len()
                &&& final(heap)@ == old(heap)@.push(CellView::Ref(old(self).0@[slot as int].value))
            },
    {
        let mut variable = self.0[slot];
        let bound = variable.clone_reference(heap);
        self.0[slot] = variable;
        bound
    }

    /// Puts the variable `value_ref` in `slot`.
    pub fn set_slot_ref(&mut self, slot: usize, value_ref: ValueRef)
        requires
            slot < old(self).0@.len(),
        ensures
            final(self).0@ == old(self).0@.update(slot as int, value_ref),
    {
        self.0[slot] = value_ref;
    }

    /// Shows every slot to a collection: what the slots hold is kept, and
    /// each points to the new place of its cell afterwards.
    pub fn walk(&mut self, walker: &mut Walker)
        requires
            old(walker).wf(),
            all_in_bounds(held(old(self).0@), old(walker).origin().len()),
        ensures
            final(walker).wf(),
            final(walker).origin() == old(walker).origin(),
            final(walker).shown() == old(walker).shown() + held(old(self).0@),
            markers_kept(old(walker).from_space(), final(walker).from_space()),
            grown_from(final(walker).to_space(), old(walker).to_space()),
            final(self).0@.len() == old(self).0@.len(),
            forall|i: int|
                0 <= i < old(self).0@.len() ==> is_moved(final(walker).from_space(), (#[trigger] old(self).0@[i]).value)
                    && final(self).0@[i].value == relocated(final(walker).from_space(), old(self).0@[i].value),
    {
        let ghost given = held(self.0@);
        let mut i: usize = 0;
        while i < self.0.len()
            invariant
                walker.wf(),
                walker.origin() == old(walker).origin(),
                given == held(old(self).0@),
                i <= given.len(),
                self.0@.len() == given.len(),
                all_in_bounds(given, walker.origin().len()),
                walker.shown() == old(walker).shown() + given.subrange(0, i as int),
                markers_kept(old(walker).from_space(), walker.from_space()),
                grown_from(walker.to_space(), old(walker).to_space()),
                forall|d: int| 0 <= d < i ==> is_moved(walker.from_space(), #[trigger] given[d]) && self.0@[d].value
                    == relocated(walker.from_space(), given[d]),
                forall|d: int| i <= d < given.len() ==> self.0@[d].value == #[trigger] given[d],
            decreases given.len() - i,
        {
            let ghost step = *walker;
            assert(given[i as int].in_bounds(walker.origin().len()));
            let mut variable = self.0[i];
            walker.walk_ref(&mut variable);
            self.0[i] = variable;
            proof {
                assert(walker.shown() =~= old(walker).shown() + given.subrange(0, i + 1));
                assert forall|d: int| 0 <= d < i + 1 implies is_moved(walker.from_space(), #[trigger] given[d])
                    && self.0@[d].value == relocated(walker.from_space(), given[d]) by {
                    if d < i {
                        assert(is_moved(step.from_space(), given[d]));
                    }
                }
            }
            i += 1;
        }
        proof {
            assert(given.subrange(0, given.len() as int) =~= given);
            assert forall|i: int| 0 <= i < old(self).0@.len() implies is_moved(
                walker.from_space(),
                (#[trigger] old(self).0@[i]).value,
            ) && self.0@[i].value == relocated(walker.from_space(), old(self).0@[i].value) by {
                assert(given[i] == old(self).0@[i].value);
            }
        }
    }
}

/// What the variables hold.
pub open spec fn held(variables: Seq<ValueRef>) -> Seq<Value> {
    Seq::new(variables.len(), |i: int| variables[i].value)
}

} // verus!
