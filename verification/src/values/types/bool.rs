//! The bool type of the language.

use vstd::prelude::*;
use vstd::string::*;
use crate::values::frozen_heap::FrozenHeap;
use crate::values::heap::Heap;
use crate::values::typed::{
    AllocFrozenValue, AllocValue, Allocation, Comparison, FrozenAllocation, TypedValue, ValueError,
};
use crate::values::value::{FrozenValue, Value};

verus! {

pub const BOOL_VALUE_TYPE_NAME: &'static str = "bool";

/// How the language writes a bool.
pub open spec fn bool_repr(b: bool) -> Seq<char> {
    if b {
        "True"@
    } else {
        "False"@
    }
}

/// `false` comes before `true`.
pub open spec fn bool_order(a: bool, b: bool) -> Comparison {
    if a == b {
        Comparison::Equal
    } else if b {
        Comparison::Less
    } else {
        Comparison::Greater
    }
}

impl AllocValue for bool {
    open spec fn allocation(&self) -> Allocation {
        Allocation::Immediate(Value::Frozen(FrozenValue::Bool(*self)))
    }

    fn alloc_value(self, _heap: &mut Heap) -> (value: Value) {
        Value::new_bool(self)
    }
}

impl AllocFrozenValue for bool {
    open spec fn frozen_allocation(&self) -> FrozenAllocation {
        FrozenAllocation::Immediate(FrozenValue::Bool(*self))
    }

    fn alloc_frozen_value(self, _heap: &mut FrozenHeap) -> (value: FrozenValue) {
        FrozenValue::new_bool(self)
    }
}

impl TypedValue for bool {
    fn get_type(&self) -> (name: &'static str)
        ensures
            name == BOOL_VALUE_TYPE_NAME,
    {
        BOOL_VALUE_TYPE_NAME
    }

    fn collect_repr(&self, s: &mut String)
        ensures
            final(s)@ == old(s)@ + bool_repr(*self),
    {
        if *self {
            s.append("True")
        } else {
            s.append("False")
        }
    }

    fn to_json(&self) -> (json: String)
        ensures
            json@ == bool_repr(*self),
    {
        let mut json = String::new();
        self.collect_repr(&mut json);
        assert(json@ =~= bool_repr(*self));
        json
    }

    fn to_int(&self) -> (number: Result<i32, ValueError>)
        ensures
            number == Ok::<i32, ValueError>(if *self { 1i32 } else { 0i32 }),
    {
        Ok(if *self { 1 } else { 0 })
    }

    fn to_bool(&self) -> (truth: bool)
        ensures
            truth == *self,
    {
        *self
    }

    fn get_hash(&self) -> (hash: Result<u64, ValueError>)
        ensures
            hash == Ok::<u64, ValueError>(if *self { 1u64 } else { 0u64 }),
    {
        Ok(if *self { 1 } else { 0 })
    }

    /// A bool equals the same bool, and nothing else.
    fn equals(&self, other: Value) -> (equal: Result<bool, ValueError>)
        ensures
            equal == Ok::<bool, ValueError>(other == Value::Frozen(FrozenValue::Bool(*self))),
    {
        match other.unpack_bool() {
            Some(other) => Ok(*self == other),
            None => Ok(false),
        }
    }

    /// Bools are ordered among themselves, and with nothing else.
    fn compare(&self, _ptr_eq: bool, other: Value) -> (order: Result<Comparison, ValueError>)
        ensures
            order == match other {
                Value::Frozen(FrozenValue::Bool(b)) => Ok::<Comparison, ValueError>(bool_order(*self, b)),
                _ => Err::<Comparison, ValueError>(
                    ValueError::OperationNotSupported { op: "<>", left: BOOL_VALUE_TYPE_NAME, right: other },
                ),
            },
    {
        match other.unpack_bool() {
            Some(other) => Ok(
                if *self == other {
                    Comparison::Equal
                } else if other {
                    Comparison::Less
                } else {
                    Comparison::Greater
                },
            ),
            None => Err(ValueError::OperationNotSupported { op: "<>", left: BOOL_VALUE_TYPE_NAME, right: other }),
        }
    }
}

} // verus!
