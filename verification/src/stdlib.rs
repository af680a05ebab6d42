//! The constants and functions that every dialect of the language has, and
//! the extensions that an embedder may add to them.

use vstd::prelude::*;
use crate::environment::globals::{lemma_functions_keep_id, BuilderView, GlobalsBuilder};
use crate::values::frozen_heap::HeapIds;
use crate::values::value::{FrozenValue, HeapId};

verus! {

/// The functions of the language itself.
pub open spec fn global_functions() -> Seq<&'static str> {
    seq![
        "fail",
        "any",
        "all",
        "bool",
        "chr",
        "dict",
        "dir",
        "enumerate",
        "getattr",
        "hasattr",
        "hash",
        "int",
        "len",
        "list",
        "max",
        "min",
        "ord",
        "range",
        "repr",
        "reversed",
        "sorted",
        "str",
        "tuple",
        "type",
        "zip",
    ]
}

/// The function that makes structs.
pub open spec fn struct_functions() -> Seq<&'static str> {
    seq!["struct"]
}

/// The functions that declare records.
pub open spec fn record_functions() -> Seq<&'static str> {
    seq!["field", "record"]
}

/// The function that declares enumerations.
pub open spec fn enum_functions() -> Seq<&'static str> {
    seq!["enum"]
}

/// The functions that the language does not ask for, but that are handy.
pub open spec fn extra_functions() -> Seq<&'static str> {
    seq!["filter", "map", "partial", "debug"]
}

/// The function that stops the evaluation for the debugger.
pub open spec fn breakpoint_functions() -> Seq<&'static str> {
    seq!["breakpoint"]
}

/// The type constants, each with the name of the type it stands for.
pub open spec fn typing_constants() -> Seq<(&'static str, &'static str)> {
    seq![("Any", ""), ("Void", "void"), ("Bool", "bool"), ("Int", "int"), ("String", "string")]
}

/// The builder `b` with the language's own names added: `None`, `True`,
/// `False`, and the functions.
pub open spec fn with_globals(b: BuilderView) -> BuilderView {
    b.with_value("None"@, FrozenValue::NoneValue).with_value("True"@, FrozenValue::Bool(true)).with_value(
        "False"@,
        FrozenValue::Bool(false),
    ).with_functions(global_functions())
}

/// What `standard_environment` returns.
pub open spec fn standard(id: HeapId) -> BuilderView {
    with_globals(BuilderView { id, cells: Seq::empty(), variables: Seq::empty() })
}

/// What `extended_environment` returns.
pub open spec fn extended(id: HeapId) -> BuilderView {
    standard(id).with_functions(struct_functions()).with_functions(record_functions()).with_functions(
        enum_functions(),
    ).with_functions(extra_functions())
}

/// Adds the constants and functions of the language itself.
fn add_globals(builder: &mut GlobalsBuilder)
    ensures
        final(builder)@ == with_globals(old(builder)@),
{
    builder.set_value("None", FrozenValue::NoneValue);
    builder.set_value("True", FrozenValue::Bool(true));
    builder.set_value("False", FrozenValue::Bool(false));
    let names = vec![
        "fail",
        "any",
        "all",
        "bool",
        "chr",
        "dict",
        "dir",
        "enumerate",
        "getattr",
        "hasattr",
        "hash",
        "int",
        "len",
        "list",
        "max",
        "min",
        "ord",
        "range",
        "repr",
        "reversed",
        "sorted",
        "str",
        "tuple",
        "type",
        "zip",
    ];
    assert(names@ =~= global_functions());
    builder.set_functions(&names);
}

/// The default global environment. It is not yet built, so that a caller
/// can add to it. `ids` issues the identity of the heap that holds the
/// values.
pub fn standard_environment(ids: &mut HeapIds) -> (builder: GlobalsBuilder)
    ensures
        builder@ == standard(builder@.id),
        old(ids).next() < u64::MAX ==> {
            &&& builder@.id == old(ids).upcoming()
            &&& final(ids).source() == old(ids).source()
            &&& final(ids).next() == old(ids).next() + 1
        },
{
    let mut builder = GlobalsBuilder::new(ids);
    let ghost empty = builder@;
    add_globals(&mut builder);
    proof {
        let named = empty.with_value("None"@, FrozenValue::NoneValue).with_value(
            "True"@,
            FrozenValue::Bool(true),
        ).with_value("False"@, FrozenValue::Bool(false));
        lemma_functions_keep_id(named, global_functions());
        assert(empty == (BuilderView { id: empty.id, cells: Seq::empty(), variables: Seq::empty() }));
    }
    builder
}

/// The default global environment with the extensions: `struct`, records,
/// enumerations and the extra functions, added in that order.
pub fn extended_environment(ids: &mut HeapIds) -> (builder: GlobalsBuilder)
    ensures
        builder@ == extended(builder@.id),
        old(ids).next() < u64::MAX ==> {
            &&& builder@.id == old(ids).upcoming()
            &&& final(ids).source() == old(ids).source()
            &&& final(ids).next() == old(ids).next() + 1
        },
{
    let mut builder = standard_environment(ids);
    let ghost b0 = builder@;
    add_struct(&mut builder);
    let ghost b1 = builder@;
    add_record(&mut builder);
    let ghost b2 = builder@;
    add_enum(&mut builder);
    let ghost b3 = builder@;
    add_extra_functions(&mut builder);
    proof {
        lemma_functions_keep_id(b0, struct_functions());
        lemma_functions_keep_id(b1, record_functions());
        lemma_functions_keep_id(b2, enum_functions());
        lemma_functions_keep_id(b3, extra_functions());
    }
    builder
}

/// Adds the `struct` function.
pub fn add_struct(builder: &mut GlobalsBuilder)
    ensures
        final(builder)@ == old(builder)@.with_functions(struct_functions()),
{
    let names = vec!["struct"];
    assert(names@ =~= struct_functions());
    builder.set_functions(&names);
}

/// Adds the functions that declare records.
pub fn add_record(builder: &mut GlobalsBuilder)
    ensures
        final(builder)@ == old(builder)@.with_functions(record_functions()),
{
    let names = vec!["field", "record"];
    assert(names@ =~= record_functions());
    builder.set_functions(&names);
}

/// Adds the function that declares enumerations.
pub fn add_enum(builder: &mut GlobalsBuilder)
    ensures
        final(builder)@ == old(builder)@.with_functions(enum_functions()),
{
    let names = vec!["enum"];
    assert(names@ =~= enum_functions());
    builder.set_functions(&names);
}

/// Adds functions like `filter` and `partial`.
pub fn add_extra_functions(builder: &mut GlobalsBuilder)
    ensures
        final(builder)@ == old(builder)@.with_functions(extra_functions()),
{
    let names = vec!["filter", "map", "partial", "debug"];
    assert(names@ =~= extra_functions());
    builder.set_functions(&names);
}

/// Adds type constants like `String` and `Int`.
pub fn add_typing(builder: &mut GlobalsBuilder)
    ensures
        final(builder)@ == old(builder)@.with_strings(typing_constants()),
{
    let pairs = vec![("Any", ""), ("Void", "void"), ("Bool", "bool"), ("Int", "int"), ("String", "string")];
    assert(pairs@ =~= typing_constants());
    builder.set_strings(&pairs);
}

/// Adds the `breakpoint` function.
pub fn add_breakpoint(builder: &mut GlobalsBuilder)
    ensures
        final(builder)@ == old(builder)@.with_functions(breakpoint_functions()),
{
    let names = vec!["breakpoint"];
    assert(names@ =~= breakpoint_functions());
    builder.set_functions(&names);
}

} // verus!
