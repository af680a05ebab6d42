//! Named constants that live for the whole process.

use once_cell::sync::OnceCell;
use vstd::prelude::*;
use vstd::string::*;
use crate::values::value::{FrozenCellView, FrozenValue, FrozenValueMem};

verus! {

#[verifier::external_type_specification]
#[verifier::external_body]
#[verifier::reject_recursive_types(T)]
pub struct ExOnceCell<T>(OnceCell<T>);

/// A string constant of the language, declared once for the process. Its
/// cell is made the first time the constant is used, and is the same cell
/// ever after.
pub struct ConstFrozenValue {
    name: &'static str,
    cell: OnceCell<FrozenValueMem>,
}

/// The cell of the string `name`.
pub fn str_cell(name: &str) -> (cell: FrozenValueMem)
    ensures
        cell@ == FrozenCellView::Str(name@),
{
    FrozenValueMem::Str(String::from_str(name))
}

/// An empty cell.
///
/// Calls `once_cell::sync::OnceCell::new`, of whose result nothing is
/// stated.
#[verifier::external_body]
fn empty_cell() -> OnceCell<FrozenValueMem> {
    OnceCell::new()
}

/// The cell of `constant`, made now if this is the first use.
///
/// Calls `once_cell::sync::OnceCell::get_or_init`, which returns what the
/// cell held before the call, if anything, and else what the initializer
/// gives and the cell holds from then on. The cell of a constant is private
/// to this file, is empty when the constant is made, and is filled here
/// alone, with the cell of the constant's string: so what comes back holds
/// that string, whichever call filled the cell.
#[verifier::external_body]
fn realize(constant: &'static ConstFrozenValue) -> (cell: &'static FrozenValueMem)
    ensures
        cell@ == FrozenCellView::Str(constant.name()),
{
    constant.cell.get_or_init(|| str_cell(constant.name))
}

impl ConstFrozenValue {
    /// The string that the constant stands for.
    pub closed spec fn name(&self) -> Seq<char> {
        self.name@
    }

    /// The constant for the string `name`. Its cell is not made yet.
    pub fn new(name: &'static str) -> (constant: Self)
        ensures
            constant.name() == name@,
    {
        ConstFrozenValue { name, cell: empty_cell() }
    }

    /// The handle to the constant's cell, which holds the constant's
    /// string. The cell is made on the first call, and every call gives
    /// the handle to it.
    pub fn unpack(&'static self) -> (value: FrozenValue)
        ensures
            value matches FrozenValue::Static(cell) && cell@ == FrozenCellView::Str(self.name()),
    {
        FrozenValue::Static(realize(self))
    }
}

} // verus!
