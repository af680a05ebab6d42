//! The names that every script sees: the built-in constants and functions.

use vstd::prelude::*;
use vstd::string::*;
use crate::values::frozen_heap::{FrozenHeap, FrozenHeapRef, HeapIds};
use crate::values::typed::{AllocFrozenValue, FrozenAllocation};
use crate::values::value::{FrozenCellView, FrozenValue, HeapId, Payload, PayloadView};

verus! {

/// The type of a built-in function.
pub const FUNCTION_TYPE_NAME: &'static str = "function";

/// The names being collected, and the frozen heap that holds their values.
#[derive(Debug)]
pub struct GlobalsBuilder {
    heap: FrozenHeap,
    variables: Vec<(String, FrozenValue)>,
}

/// The names that every script sees, with their values.
#[derive(Debug)]
pub struct Globals {
    heap: FrozenHeapRef,
    variables: Vec<(String, FrozenValue)>,
}

/// What a builder holds: the identity and the cells of its heap, and the
/// names bound so far, in the order in which they were first bound.
pub struct BuilderView {
    pub id: HeapId,
    pub cells: Seq<FrozenCellView>,
    pub variables: Seq<(Seq<char>, FrozenValue)>,
}

/// The bindings `variables`, each name by its characters.
pub open spec fn names_of(variables: Seq<(String, FrozenValue)>) -> Seq<(Seq<char>, FrozenValue)> {
    Seq::new(variables.len(), |i: int| (variables[i].0@, variables[i].1))
}

/// The first binding of `name` is at `i`.
pub open spec fn bound_at(variables: Seq<(Seq<char>, FrozenValue)>, name: Seq<char>, i: int) -> bool {
    &&& 0 <= i < variables.len()
    &&& variables[i].0 == name
    &&& forall|j: int| 0 <= j < i ==> variables[j].0 != name
}

/// `name` is not bound.
pub open spec fn unbound(variables: Seq<(Seq<char>, FrozenValue)>, name: Seq<char>) -> bool {
    forall|j: int| 0 <= j < variables.len() ==> variables[j].0 != name
}

/// The value that `name` is bound to.
pub open spec fn lookup(variables: Seq<(Seq<char>, FrozenValue)>, name: Seq<char>) -> Option<FrozenValue>
    decreases variables.len(),
{
    if variables.len() == 0 {
        None
    } else if variables[0].0 == name {
        Some(variables[0].1)
    } else {
        lookup(variables.drop_first(), name)
    }
}

/// The bindings after `name` is bound to `value`: a name that was bound
/// keeps its place, a new name goes to the end.
pub open spec fn bind(variables: Seq<(Seq<char>, FrozenValue)>, name: Seq<char>, value: FrozenValue) -> Seq<
    (Seq<char>, FrozenValue),
>
    decreases variables.len(),
{
    if variables.len() == 0 {
        seq![(name, value)]
    } else if variables[0].0 == name {
        variables.update(0, (name, value))
    } else {
        seq![variables[0]] + bind(variables.drop_first(), name, value)
    }
}

/// The cell of a built-in function whose name is the string in `name`.
pub open spec fn function_cell(name: FrozenValue) -> FrozenCellView {
    FrozenCellView::Immutable(
        PayloadView { kind: FUNCTION_TYPE_NAME@, naturally_mutable: false, scalar: 0, children: seq![name] },
    )
}

impl BuilderView {
    /// The builder after `name` is bound to `value`.
    pub open spec fn with_value(self, name: Seq<char>, value: FrozenValue) -> BuilderView {
        BuilderView { variables: bind(self.variables, name, value), ..self }
    }

    /// The builder after `name` is bound to the string `text`.
    pub open spec fn with_string(self, name: Seq<char>, text: Seq<char>) -> BuilderView {
        BuilderView {
            id: self.id,
            cells: self.cells.push(FrozenCellView::Str(text)),
            variables: bind(self.variables, name, FrozenValue::Ptr { heap: self.id, slot: self.cells.len() as usize }),
        }
    }

    /// The builder after `name` is bound to a built-in function of that
    /// name: a cell for the name, and a cell for the function.
    pub open spec fn with_function(self, name: Seq<char>) -> BuilderView {
        BuilderView {
            id: self.id,
            cells: self.cells.push(FrozenCellView::Str(name)).push(
                function_cell(FrozenValue::Ptr { heap: self.id, slot: self.cells.len() as usize }),
            ),
            variables: bind(
                self.variables,
                name,
                FrozenValue::Ptr { heap: self.id, slot: (self.cells.len() + 1) as usize },
            ),
        }
    }

    /// The builder after each of `names` is bound to a built-in function,
    /// in their order.
    pub open spec fn with_functions(self, names: Seq<&'static str>) -> BuilderView
        decreases names.len(),
    {
        if names.len() == 0 {
            self
        } else {
            self.with_functions(names.drop_last()).with_function(names.last()@)
        }
    }

    /// The builder after each of `pairs` is bound as a string constant, in
    /// their order.
    pub open spec fn with_strings(self, pairs: Seq<(&'static str, &'static str)>) -> BuilderView
        decreases pairs.len(),
    {
        if pairs.len() == 0 {
            self
        } else {
            self.with_strings(pairs.drop_last()).with_string(pairs.last().0@, pairs.last().1@)
        }
    }
}

/// Binding names leaves the identity of the builder's heap as it was.
pub proof fn lemma_functions_keep_id(b: BuilderView, names: Seq<&'static str>)
    ensures
        b.with_functions(names).id == b.id,
    decreases names.len(),
{
    if names.len() > 0 {
        lemma_functions_keep_id(b, names.drop_last());
    }
}

impl View for GlobalsBuilder {
    type V = BuilderView;

    closed spec fn view(&self) -> BuilderView {
        BuilderView { id: self.heap.id(), cells: self.heap.cells(), variables: names_of(self.variables@) }
    }
}

/// A name reads as the value of its first binding, and as nothing where it
/// has none.
pub proof fn lemma_lookup(variables: Seq<(Seq<char>, FrozenValue)>, name: Seq<char>)
    ensures
        match lookup(variables, name) {
            Some(v) => exists|i: int| bound_at(variables, name, i) && variables[i].1 == v,
            None => unbound(variables, name),
        },
    decreases variables.len(),
{
    if variables.len() == 0 {
    } else if variables[0].0 == name {
        assert(bound_at(variables, name, 0));
    } else {
        let rest = variables.drop_first();
        lemma_lookup(rest, name);
        match lookup(rest, name) {
            Some(v) => {
                let i = choose|i: int| bound_at(rest, name, i) && rest[i].1 == v;
                assert forall|j: int| 0 <= j < i + 1 implies variables[j].0 != name by {
                    if j > 0 {
                        assert(rest[j - 1] == variables[j]);
                    }
                }
                assert(bound_at(variables, name, i + 1));
            },
            None => {
                assert forall|j: int| 0 <= j < variables.len() implies variables[j].0 != name by {
                    if j > 0 {
                        assert(rest[j - 1] == variables[j]);
                    }
                }
            },
        }
    }
}

/// A name that was bound last reads as what it was bound to, and every
/// other name as it read before.
pub proof fn lemma_bind(variables: Seq<(Seq<char>, FrozenValue)>, name: Seq<char>, value: FrozenValue, other: Seq<char>)
    ensures
        lookup(bind(variables, name, value), name) == Some(value),
        other != name ==> lookup(bind(variables, name, value), other) == lookup(variables, other),
        bind(variables, name, value).len() == if unbound(variables, name) {
            variables.len() + 1
        } else {
            variables.len()
        },
    decreases variables.len(),
{
    if variables.len() == 0 {
        assert(bind(variables, name, value).drop_first() =~= variables);
    } else if variables[0].0 == name {
        assert(bind(variables, name, value).drop_first() =~= variables.drop_first());
    } else {
        let rest = variables.drop_first();
        lemma_bind(rest, name, value, other);
        assert(bind(variables, name, value).drop_first() =~= bind(rest, name, value));
        if unbound(rest, name) {
            assert forall|j: int| 0 <= j < variables.len() implies variables[j].0 != name by {
                if j > 0 {
                    assert(rest[j - 1] == variables[j]);
                }
            }
        } else {
            let j = choose|j: int| 0 <= j < rest.len() && rest[j].0 == name;
            assert(variables[j + 1].0 == name);
        }
    }
}

/// Where `name` is bound first.
fn find_name(variables: &Vec<(String, FrozenValue)>, name: &String) -> (found: Option<usize>)
    ensures
        match found {
            Some(i) => bound_at(names_of(variables@), name@, i as int),
            None => unbound(names_of(variables@), name@),
        },
{
    let mut i: usize = 0;
    while i < variables.len()
        invariant
            i <= variables@.len(),
            forall|j: int| 0 <= j < i ==> names_of(variables@)[j].0 != name@,
        decreases variables@.len() - i,
    {
        if variables[i].0 == *name {
            return Some(i);
        }
        i += 1;
    }
    None
}

impl GlobalsBuilder {
    /// A builder with no names, whose heap has an identity that `ids`
    /// issues for it.
    pub fn new(ids: &mut HeapIds) -> (builder: Self)
        ensures
            builder@.cells == Seq::<FrozenCellView>::empty(),
            builder@.variables == Seq::<(Seq<char>, FrozenValue)>::empty(),
            old(ids).next() < u64::MAX ==> {
                &&& builder@.id == old(ids).upcoming()
                &&& final(ids).source() == old(ids).source()
                &&& final(ids).next() == old(ids).next() + 1
            },
    {
        let builder = GlobalsBuilder { heap: FrozenHeap::new(ids), variables: Vec::new() };
        assert(builder@.variables =~= Seq::empty());
        builder
    }

    /// The identity of the heap that holds the values.
    pub fn identity(&self) -> (id: HeapId)
        ensures
            id == self@.id,
    {
        self.heap.identity()
    }

    /// The value that `name` is bound to.
    pub fn get(&self, name: &str) -> (value: Option<FrozenValue>)
        ensures
            value == lookup(self@.variables, name@),
    {
        let name = String::from_str(name);
        proof {
            lemma_lookup(self@.variables, name@);
        }
        match find_name(&self.variables, &name) {
            Some(i) => Some(self.variables[i].1),
            None => None,
        }
    }

    /// Binds `name` to `value`.
    pub fn set_value(&mut self, name: &str, value: FrozenValue)
        ensures
            final(self)@ == old(self)@.with_value(name@, value),
    {
        let name = String::from_str(name);
        match find_name(&self.variables, &name) {
            Some(i) => {
                self.variables[i] = (name, value);
                proof {
                    lemma_bind_at(old(self)@.variables, name@, value, i as int);
                    assert(self@.variables =~= old(self)@.variables.update(i as int, (name@, value)));
                }
            },
            None => {
                self.variables.push((name, value));
                proof {
                    lemma_bind_new(old(self)@.variables, name@, value);
                    assert(self@.variables =~= old(self)@.variables.push((name@, value)));
                }
            },
        }
    }
}

impl GlobalsBuilder {
    /// Binds `name` to `value`, which goes on the builder's heap where it
    /// needs a cell.
    pub fn set<T: AllocFrozenValue>(&mut self, name: &str, value: T)
        ensures
            final(self)@ == match value.frozen_allocation() {
                FrozenAllocation::Cell(cell) => BuilderView {
                    id: old(self)@.id,
                    cells: old(self)@.cells.push(cell),
                    variables: bind(
                        old(self)@.variables,
                        name@,
                        FrozenValue::Ptr { heap: old(self)@.id, slot: old(self)@.cells.len() as usize },
                    ),
                },
                FrozenAllocation::Immediate(immediate) => old(self)@.with_value(name@, immediate),
            },
    {
        let value = value.alloc_frozen_value(&mut self.heap);
        self.set_value(name, value);
    }

    /// Binds `name` to the string `text`, which goes on the builder's heap.
    pub fn set_string(&mut self, name: &str, text: &str)
        ensures
            final(self)@ == old(self)@.with_string(name@, text@),
    {
        let value = self.heap.alloc_str(String::from_str(text));
        self.set_value(name, value);
    }

    /// Binds `name` to a built-in function of that name.
    pub fn set_function(&mut self, name: &str)
        ensures
            final(self)@ == old(self)@.with_function(name@),
    {
        let label = self.heap.alloc_str(String::from_str(name));
        let mut children: Vec<FrozenValue> = Vec::new();
        children.push(label);
        let function = self.heap.alloc_immutable(
            Payload { kind: FUNCTION_TYPE_NAME, naturally_mutable: false, scalar: 0, children },
        );
        proof {
            assert(children@ =~= seq![label]);
        }
        self.set_value(name, function);
    }

    /// Binds each of `names` to a built-in function, in their order.
    pub fn set_functions(&mut self, names: &Vec<&'static str>)
        ensures
            final(self)@ == old(self)@.with_functions(names@),
    {
        let mut i: usize = 0;
        while i < names.len()
            invariant
                i <= names@.len(),
                self@ == old(self)@.with_functions(names@.subrange(0, i as int)),
            decreases names@.len() - i,
        {
            self.set_function(names[i]);
            proof {
                assert(names@.subrange(0, i + 1).drop_last() =~= names@.subrange(0, i as int));
            }
            i += 1;
        }
        proof {
            assert(names@.subrange(0, names@.len() as int) =~= names@);
        }
    }

    /// Binds each name of `pairs` to the string beside it, in their order.
    pub fn set_strings(&mut self, pairs: &Vec<(&'static str, &'static str)>)
        ensures
            final(self)@ == old(self)@.with_strings(pairs@),
    {
        let mut i: usize = 0;
        while i < pairs.len()
            invariant
                i <= pairs@.len(),
                self@ == old(self)@.with_strings(pairs@.subrange(0, i as int)),
            decreases pairs@.len() - i,
        {
            self.set_string(pairs[i].0, pairs[i].1);
            proof {
                assert(pairs@.subrange(0, i + 1).drop_last() =~= pairs@.subrange(0, i as int));
            }
            i += 1;
        }
        proof {
            assert(pairs@.subrange(0, pairs@.len() as int) =~= pairs@);
        }
    }

    /// Ends the building: the heap is shared, and the names are fixed.
    pub fn build(self) -> (globals: Globals)
        ensures
            globals.variables() == self@.variables,
            globals.heap().id() == self@.id,
            globals.heap().cells() == self@.cells,
    {
        Globals { heap: self.heap.into_ref(), variables: self.variables }
    }
}

impl Globals {
    /// The names, in the order in which they were first bound.
    pub closed spec fn variables(&self) -> Seq<(Seq<char>, FrozenValue)> {
        names_of(self.variables@)
    }

    /// The heap that holds the values.
    pub closed spec fn heap(&self) -> FrozenHeapRef {
        self.heap
    }

    /// The value of the name `name`.
    pub fn get(&self, name: &str) -> (value: Option<FrozenValue>)
        ensures
            value == lookup(self.variables(), name@),
    {
        let name = String::from_str(name);
        proof {
            lemma_lookup(self.variables(), name@);
        }
        match find_name(&self.variables, &name) {
            Some(i) => Some(self.variables[i].1),
            None => None,
        }
    }

    /// The heap that holds the values.
    pub fn heap_ref(&self) -> (heap: &FrozenHeapRef)
        ensures
            *heap == self.heap(),
    {
        &self.heap
    }
}

/// Binding a name that is bound puts the value where the name is.
pub proof fn lemma_bind_at(variables: Seq<(Seq<char>, FrozenValue)>, name: Seq<char>, value: FrozenValue, i: int)
    requires
        bound_at(variables, name, i),
    ensures
        bind(variables, name, value) == variables.update(i, (name, value)),
    decreases variables.len(),
{
    if i == 0 {
    } else {
        let rest = variables.drop_first();
        assert(rest[i - 1] == variables[i]);
        assert forall|j: int| 0 <= j < i - 1 implies rest[j].0 != name by {
            assert(rest[j] == variables[j + 1]);
        }
        lemma_bind_at(rest, name, value, i - 1);
        assert(seq![variables[0]] + rest.update(i - 1, (name, value)) =~= variables.update(i, (name, value)));
    }
}

/// Binding a name that is not bound puts it at the end.
pub proof fn lemma_bind_new(variables: Seq<(Seq<char>, FrozenValue)>, name: Seq<char>, value: FrozenValue)
    requires
        unbound(variables, name),
    ensures
        bind(variables, name, value) == variables.push((name, value)),
    decreases variables.len(),
{
    if variables.len() == 0 {
        assert(seq![(name, value)] =~= variables.push((name, value)));
    } else {
        let rest = variables.drop_first();
        assert forall|j: int| 0 <= j < rest.len() implies rest[j].0 != name by {
            assert(rest[j] == variables[j + 1]);
        }
        lemma_bind_new(rest, name, value);
        assert(seq![variables[0]] + rest.push((name, value)) =~= variables.push((name, value)));
    }
}

} // verus!
