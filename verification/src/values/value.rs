//! Handles to values, and the cells that the heaps store.

use vstd::prelude::*;

verus! {

/// A point in time, as the platform's monotonic clock gives it.
#[verifier::external_type_specification]
#[verifier::external_body]
pub struct ExInstant(std::time::Instant);

/// The identity of a frozen heap: the source that issued it, and its number
/// among the identities of that source.
#[derive(Clone, Copy, Debug, PartialEq, Eq, Structural, Hash)]
pub struct HeapId {
    pub source: u64,
    pub serial: u64,
}

/// A handle to a value that never changes: an immediate, a cell of a frozen
/// heap, or a process-wide constant.
///
/// Two handles are equal when they name the same place: the same
/// immediate, the same slot of the same heap, or constants whose cells hold
/// the same. Whether two values are equal as the language sees it is for
/// their types to say.
#[derive(Clone, Copy, Debug, PartialEq, Eq)]
pub enum FrozenValue {
    /// What a slot holds that nothing was assigned to yet.
    Unassigned,
    /// The value `None` of the language.
    NoneValue,
    Bool(bool),
    Int(i32),
    /// The cell in slot `slot` of the frozen heap with identity `heap`.
    Ptr { heap: HeapId, slot: usize },
    /// A cell that lives for the whole process.
    Static(&'static FrozenValueMem),
}

/// A handle to a value of the heap under evaluation: either a frozen value,
/// or the cell in a slot of that heap.
///
/// Two handles are equal when they name the same place.
#[derive(Clone, Copy, Debug, PartialEq, Eq)]
pub enum Value {
    Frozen(FrozenValue),
    Ptr(usize),
}

/// A boxed value of some type of the language, as the heaps see it: what
/// type it is, whether that type is mutable by nature, a scalar of the
/// type's own, and the handles it owns.
#[derive(Debug, PartialEq, Eq)]
pub struct Payload<P> {
    pub kind: &'static str,
    pub naturally_mutable: bool,
    pub scalar: i64,
    pub children: Vec<P>,
}

/// A boxed value, as contracts speak of it.
pub struct PayloadView<P> {
    pub kind: Seq<char>,
    pub naturally_mutable: bool,
    pub scalar: i64,
    pub children: Seq<P>,
}

impl<P> View for Payload<P> {
    type V = PayloadView<P>;

    open spec fn view(&self) -> PayloadView<P> {
        PayloadView {
            kind: self.kind@,
            naturally_mutable: self.naturally_mutable,
            scalar: self.scalar,
            children: self.children@,
        }
    }
}

/// A cell of a frozen heap.
#[derive(Debug, PartialEq, Eq)]
pub enum FrozenValueMem {
    /// A string.
    Str(String),
    /// A boxed value. It never changes, and what it owns is frozen.
    Immutable(Payload<FrozenValue>),
    /// Reserved, not yet filled.
    Blackhole,
}

/// A cell of a frozen heap, as contracts speak of it.
pub enum FrozenCellView {
    Str(Seq<char>),
    Immutable(PayloadView<FrozenValue>),
    Blackhole,
}

impl View for FrozenValueMem {
    type V = FrozenCellView;

    open spec fn view(&self) -> FrozenCellView {
        match self {
            FrozenValueMem::Str(s) => FrozenCellView::Str(s@),
            FrozenValueMem::Immutable(p) => FrozenCellView::Immutable(p@),
            FrozenValueMem::Blackhole => FrozenCellView::Blackhole,
        }
    }
}

/// A cell of the heap under evaluation.
#[derive(Debug)]
pub enum ValueMem {
    /// A string.
    Str(String),
    /// A boxed value that never changes, and owns nothing in this heap.
    Immutable(Payload<FrozenValue>),
    /// A boxed value that can be written.
    Mutable(Payload<Value>),
    /// A boxed value that cannot be written, but owns handles into this
    /// heap, and so is frozen as a mutable one is.
    Pseudo(Payload<Value>),
    /// A frozen value that thaws on its first write. It holds the frozen
    /// handle until then, and the handle to the mutable copy after.
    ThawOnWrite(Value),
    /// The place that variables bound to each other share.
    Ref(Value),
    /// A record that the function in the first field was entered, and when.
    /// No handle points to it.
    CallEnter(Value, std::time::Instant),
    /// A record that a function was left, and when. No handle points to it.
    CallExit(std::time::Instant),
    /// What freezing leaves in place of a cell: the frozen handle.
    Forward(FrozenValue),
    /// What a collection leaves in place of a cell: the handle to the cell's
    /// new place.
    Copied(Value),
    /// Reserved, not yet filled.
    Blackhole,
}

/// A cell of the heap under evaluation, as contracts speak of it.
pub enum CellView {
    Str(Seq<char>),
    Immutable(PayloadView<FrozenValue>),
    Mutable(PayloadView<Value>),
    Pseudo(PayloadView<Value>),
    ThawOnWrite(Value),
    Ref(Value),
    CallEnter(Value, std::time::Instant),
    CallExit(std::time::Instant),
    Forward(FrozenValue),
    Copied(Value),
    Blackhole,
}

impl View for ValueMem {
    type V = CellView;

    open spec fn view(&self) -> CellView {
        match self {
            ValueMem::Str(s) => CellView::Str(s@),
            ValueMem::Immutable(p) => CellView::Immutable(p@),
            ValueMem::Mutable(p) => CellView::Mutable(p@),
            ValueMem::Pseudo(p) => CellView::Pseudo(p@),
            ValueMem::ThawOnWrite(v) => CellView::ThawOnWrite(*v),
            ValueMem::Ref(v) => CellView::Ref(*v),
            ValueMem::CallEnter(f, t) => CellView::CallEnter(*f, *t),
            ValueMem::CallExit(t) => CellView::CallExit(*t),
            ValueMem::Forward(fv) => CellView::Forward(*fv),
            ValueMem::Copied(v) => CellView::Copied(*v),
            ValueMem::Blackhole => CellView::Blackhole,
        }
    }
}

impl FrozenValue {
    pub fn new_bool(b: bool) -> (value: Self)
        ensures
            value == FrozenValue::Bool(b),
    {
        FrozenValue::Bool(b)
    }

    pub fn new_unassigned() -> (value: Self)
        ensures
            value == FrozenValue::Unassigned,
    {
        FrozenValue::Unassigned
    }

    pub fn is_unassigned(self) -> (unassigned: bool)
        ensures
            unassigned == (self is Unassigned),
    {
        match self {
            FrozenValue::Unassigned => true,
            _ => false,
        }
    }

    pub fn unpack_bool(self) -> (unpacked: Option<bool>)
        ensures
            unpacked == match self {
                FrozenValue::Bool(b) => Some(b),
                _ => None,
            },
    {
        match self {
            FrozenValue::Bool(b) => Some(b),
            _ => None,
        }
    }
}

impl Value {
    pub fn new_bool(b: bool) -> (value: Self)
        ensures
            value == Value::Frozen(FrozenValue::Bool(b)),
    {
        Value::Frozen(FrozenValue::Bool(b))
    }

    pub fn new_unassigned() -> (value: Self)
        ensures
            value == Value::Frozen(FrozenValue::Unassigned),
    {
        Value::Frozen(FrozenValue::Unassigned)
    }

    pub fn new_frozen(x: FrozenValue) -> (value: Self)
        ensures
            value == Value::Frozen(x),
    {
        Value::Frozen(x)
    }

    pub fn is_unassigned(self) -> (unassigned: bool)
        ensures
            unassigned == (self == Value::Frozen(FrozenValue::Unassigned)),
    {
        match self {
            Value::Frozen(FrozenValue::Unassigned) => true,
            _ => false,
        }
    }

    /// The frozen value that the handle holds, if it holds one.
    pub fn unpack_frozen(self) -> (unpacked: Option<FrozenValue>)
        ensures
            unpacked == match self {
                Value::Frozen(x) => Some(x),
                Value::Ptr(_) => None,
            },
    {
        match self {
            Value::Frozen(x) => Some(x),
            Value::Ptr(_) => None,
        }
    }

    pub fn unpack_bool(self) -> (unpacked: Option<bool>)
        ensures
            unpacked == match self {
                Value::Frozen(FrozenValue::Bool(b)) => Some(b),
                _ => None,
            },
    {
        match self {
            Value::Frozen(FrozenValue::Bool(b)) => Some(b),
            _ => None,
        }
    }

    /// Whether the handle can be read in a heap of `len` cells.
    pub open spec fn in_bounds(self, len: nat) -> bool {
        match self {
            Value::Frozen(_) => true,
            Value::Ptr(slot) => slot < len,
        }
    }
}

impl CellView {
    /// The handles into the heap under evaluation that a collection follows
    /// from this cell.
    pub open spec fn children(self) -> Seq<Value> {
        match self {
            CellView::Mutable(p) => p.children,
            CellView::Pseudo(p) => p.children,
            CellView::ThawOnWrite(v) => seq![v],
            CellView::Ref(v) => seq![v],
            _ => Seq::empty(),
        }
    }

    /// This cell with `children` in place of its own.
    pub open spec fn with_children(self, children: Seq<Value>) -> CellView {
        match self {
            CellView::Mutable(p) => CellView::Mutable(PayloadView { children, ..p }),
            CellView::Pseudo(p) => CellView::Pseudo(PayloadView { children, ..p }),
            CellView::ThawOnWrite(_) => CellView::ThawOnWrite(children[0]),
            CellView::Ref(_) => CellView::Ref(children[0]),
            _ => self,
        }
    }
}

/// The cells of a heap under evaluation, each by its view.
pub open spec fn cell_views(cells: Seq<ValueMem>) -> Seq<CellView> {
    Seq::new(cells.len(), |i: int| cells[i]@)
}

} // verus!
