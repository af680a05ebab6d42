//! The heap under evaluation: one arena of cells, filled while a script
//! runs, and collected when the embedder says so.

use vstd::prelude::*;
use crate::values::arena::{footprint, Arena};
use crate::values::frozen_heap::FrozenHeapRef;
use crate::values::value::{
    cell_views, CellView, FrozenCellView, FrozenValue, FrozenValueMem, Payload, PayloadView, Value, ValueMem,
};
use crate::values::walker::{is_collection, Walker};

verus! {

/// Every handle of `vs` can be read in a heap of `len` cells.
pub open spec fn all_in_bounds(vs: Seq<Value>, len: nat) -> bool {
    forall|c: int| 0 <= c < vs.len() ==> (#[trigger] vs[c]).in_bounds(len)
}

/// A cell as evaluation leaves it in a heap of `len` cells: no marker of a
/// collection in progress, and every handle it owns points into the heap.
pub open spec fn collectable(cell: CellView, len: nat) -> bool {
    &&& !(cell is Copied)
    &&& !(cell is Blackhole)
    &&& all_in_bounds(cell.children(), len)
}

/// The cell in `slot` is `collectable`, and where it is a thaw-on-write
/// cell it does not stand for another one.
pub open spec fn cell_ok(cells: Seq<CellView>, slot: int) -> bool {
    &&& collectable(cells[slot], cells.len())
    &&& cells[slot] matches CellView::ThawOnWrite(Value::Ptr(target)) ==> !(cells[target as int] is ThawOnWrite)
}

/// Cells that are fit for a collection.
pub open spec fn well_formed(cells: Seq<CellView>) -> bool {
    forall|slot: int| 0 <= slot < cells.len() ==> #[trigger] cell_ok(cells, slot)
}

/// A heap stays fit for a collection when a cell is added that is.
pub proof fn lemma_alloc_keeps_well_formed(cells: Seq<CellView>, cell: CellView)
    requires
        well_formed(cells),
        cell_ok(cells.push(cell), cells.len() as int),
    ensures
        well_formed(cells.push(cell)),
{
    let grown = cells.push(cell);
    assert forall|slot: int| 0 <= slot < grown.len() implies #[trigger] cell_ok(grown, slot) by {
        if slot < cells.len() {
            assert(cell_ok(cells, slot));
            assert forall|c: int| 0 <= c < grown[slot].children().len() implies (#[trigger] grown[slot].children()[c]).in_bounds(
                grown.len(),
            ) by {
                assert(cells[slot].children()[c].in_bounds(cells.len()));
            }
            if let CellView::ThawOnWrite(Value::Ptr(target)) = grown[slot] {
                assert(cells[slot].children()[0] == Value::Ptr(target));
            }
        }
    }
}

/// A heap stays fit for a collection when a value is written whose handles
/// point into it.
pub proof fn lemma_write_keeps_well_formed(cells: Seq<CellView>, target: Value, payload: PayloadView<Value>)
    requires
        well_formed(cells),
        all_in_bounds(payload.children, cells.len()),
        written(cells, target, payload).len() <= usize::MAX,
    ensures
        well_formed(written(cells, target, payload)),
{
    let after = written(cells, target, payload);
    if after != cells {
        assert forall|slot: int| 0 <= slot < after.len() implies #[trigger] cell_ok(after, slot) by {
            if slot < cells.len() && after[slot] == cells[slot] {
                assert(cell_ok(cells, slot));
                assert forall|c: int| 0 <= c < after[slot].children().len() implies (#[trigger] after[slot].children()[c]).in_bounds(
                    after.len(),
                ) by {
                    assert(cells[slot].children()[c].in_bounds(cells.len()));
                }
                if let CellView::ThawOnWrite(Value::Ptr(to)) = after[slot] {
                    assert(cells[slot].children()[0] == Value::Ptr(to));
                    assert(!(cells[to as int] is ThawOnWrite));
                    assert(after[to as int] == cells[to as int] || after[to as int] is Mutable);
                }
            } else if after[slot] is Mutable {
                assert forall|c: int| 0 <= c < after[slot].children().len() implies (#[trigger] after[slot].children()[c]).in_bounds(
                    after.len(),
                ) by {
                    assert(payload.children[c].in_bounds(cells.len()));
                }
            } else {
                assert(thaws_on_write(cells, target));
                assert(after[slot].children()[0] == Value::Ptr(cells.len() as usize));
                assert(after[cells.len() as int] is Mutable);
            }
        }
    }
}

/// The heap of one evaluation. A handle into it names a slot; it is good
/// until the next collection, which gives every live cell a new slot.
#[derive(Debug)]
pub struct Heap {
    arena: Arena<ValueMem>,
}

impl View for Heap {
    type V = Seq<CellView>;

    closed spec fn view(&self) -> Seq<CellView> {
        cell_views(self.arena@)
    }
}

impl Heap {
    /// The cells themselves, in the order of allocation.
    pub closed spec fn cells(&self) -> Seq<ValueMem> {
        self.arena@
    }

    /// The view of the heap is its cells, each by its view.
    pub proof fn lemma_cells(&self)
        ensures
            self@ == cell_views(self.cells()),
    {
    }

    /// The heap is fit for a collection.
    pub open spec fn wf(&self) -> bool {
        well_formed(self@)
    }

    /// An empty heap.
    pub fn new() -> (heap: Self)
        ensures
            heap@ == Seq::<CellView>::empty(),
            heap.wf(),
    {
        let heap = Heap { arena: Arena::new() };
        assert(heap@ =~= Seq::<CellView>::empty());
        heap
    }

    /// Takes the arena of a collection that is done.
    pub(crate) fn from_arena(arena: Arena<ValueMem>) -> (heap: Self)
        ensures
            heap@ == cell_views(arena@),
    {
        Heap { arena }
    }

    /// Gives the arena up, to be collected.
    pub(crate) fn into_arena(self) -> (arena: Arena<ValueMem>)
        ensures
            cell_views(arena@) == self@,
    {
        self.arena
    }

    /// The cell in `slot`.
    pub(crate) fn cell(&self, slot: usize) -> (cell: &ValueMem)
        requires
            slot < self@.len(),
        ensures
            cell@ == self@[slot as int],
    {
        self.arena.get(slot)
    }

    /// Puts `cell` in `slot` and returns what was there.
    pub(crate) fn swap_cell(&mut self, slot: usize, cell: ValueMem) -> (previous: ValueMem)
        requires
            slot < old(self)@.len(),
        ensures
            previous@ == old(self)@[slot as int],
            final(self)@ == old(self)@.update(slot as int, cell@),
    {
        let previous = self.arena.replace(slot, cell);
        assert(self@ =~= old(self)@.update(slot as int, cell@));
        previous
    }

    /// The number of cells ever allocated here and not collected.
    pub fn len(&self) -> (n: usize)
        ensures
            n == self@.len(),
    {
        self.arena.len()
    }

    /// The footprint of the cells of this heap.
    pub fn allocated_bytes(&self) -> (bytes: usize)
        ensures
            bytes == footprint(self@.len(), vstd::layout::size_of::<ValueMem>()),
    {
        self.arena.allocated_bytes()
    }

    /// The cell that `value` points to, if it points into this heap.
    pub fn get_ref(&self, value: Value) -> (cell: Option<&ValueMem>)
        ensures
            match value {
                Value::Ptr(slot) if slot < self@.len() => cell matches Some(c) && c@ == self@[slot as int] && *c
                    == self.cells()[slot as int],
                _ => cell is None,
            },
    {
        match value {
            Value::Ptr(slot) => if slot < self.arena.len() {
                Some(self.arena.get(slot))
            } else {
                None
            },
            Value::Frozen(_) => None,
        }
    }

    /// Appends `cell` and returns the handle to it.
    pub fn alloc_raw(&mut self, cell: ValueMem) -> (value: Value)
        ensures
            value matches Value::Ptr(slot) && slot == old(self)@.len(),
            final(self)@ == old(self)@.push(cell@),
    {
        let slot = self.arena.allocate(cell);
        assert(self@ =~= old(self)@.push(cell@));
        Value::Ptr(slot)
    }

    /// Puts the string `x` on the heap.
    pub fn alloc_str(&mut self, x: String) -> (value: Value)
        ensures
            value matches Value::Ptr(slot) && slot == old(self)@.len(),
            final(self)@ == old(self)@.push(CellView::Str(x@)),
    {
        self.alloc_raw(ValueMem::Str(x))
    }

    /// Puts a value that never changes on the heap.
    pub fn alloc_immutable(&mut self, x: Payload<FrozenValue>) -> (value: Value)
        ensures
            value matches Value::Ptr(slot) && slot == old(self)@.len(),
            final(self)@ == old(self)@.push(CellView::Immutable(x@)),
    {
        self.alloc_raw(ValueMem::Immutable(x))
    }

    /// A handle to the frozen value `x` that can be written through once
    /// the value has thawed. Where the type of `x` is not mutable by nature
    /// there is nothing to thaw: the handle is `x` itself, and no cell is
    /// allocated. `owner` is a heap that reaches the cell of `x`.
    pub fn alloc_thaw_on_write(&mut self, owner: &FrozenHeapRef, x: FrozenValue) -> (value: Value)
        ensures
            naturally_mutable(owner, x) ==> {
                &&& value matches Value::Ptr(slot) && slot == old(self)@.len()
                &&& final(self)@ == old(self)@.push(CellView::ThawOnWrite(Value::Frozen(x)))
            },
            !naturally_mutable(owner, x) ==> {
                &&& value == Value::Frozen(x)
                &&& final(self)@ == old(self)@
            },
    {
        let thaws = match owner.get_ref(x) {
            Some(FrozenValueMem::Immutable(payload)) => payload.naturally_mutable,
            _ => false,
        };
        if thaws {
            self.alloc_raw(ValueMem::ThawOnWrite(Value::Frozen(x)))
        } else {
            Value::new_frozen(x)
        }
    }

    /// Puts a value that owns handles into this heap on the heap.
    pub fn alloc_mutable(&mut self, x: Payload<Value>) -> (value: Value)
        ensures
            value matches Value::Ptr(slot) && slot == old(self)@.len(),
            final(self)@ == old(self)@.push(
                if x.naturally_mutable {
                    CellView::Mutable(x@)
                } else {
                    CellView::Pseudo(x@)
                },
            ),
    {
        self.alloc_mutable_box(Box::new(x))
    }

    /// A value whose type is mutable by nature goes into a cell that can be
    /// written; any other into one that cannot, but is frozen like the first.
    pub fn alloc_mutable_box(&mut self, x: Box<Payload<Value>>) -> (value: Value)
        ensures
            value matches Value::Ptr(slot) && slot == old(self)@.len(),
            final(self)@ == old(self)@.push(
                if x.naturally_mutable {
                    CellView::Mutable(x@)
                } else {
                    CellView::Pseudo(x@)
                },
            ),
    {
        let payload = *x;
        if payload.naturally_mutable {
            self.alloc_raw(ValueMem::Mutable(payload))
        } else {
            self.alloc_raw(ValueMem::Pseudo(payload))
        }
    }

    /// Records that `function` was entered at time `at`. No handle to the
    /// record is given out.
    pub fn record_call_enter_at(&mut self, function: Value, at: std::time::Instant)
        ensures
            final(self)@ == old(self)@.push(CellView::CallEnter(function, at)),
    {
        self.alloc_raw(ValueMem::CallEnter(function, at));
    }

    /// Records that the function entered last was left at time `at`.
    pub fn record_call_exit_at(&mut self, at: std::time::Instant)
        ensures
            final(self)@ == old(self)@.push(CellView::CallExit(at)),
    {
        self.alloc_raw(ValueMem::CallExit(at));
    }

    /// Records that `function` is entered now.
    pub fn record_call_enter(&mut self, function: Value)
        ensures
            final(self)@.len() == old(self)@.len() + 1,
            final(self)@.drop_last() == old(self)@,
            final(self)@.last() matches CellView::CallEnter(f, _) && f == function,
    {
        let at = now();
        self.record_call_enter_at(function, at);
        assert(self@.drop_last() =~= old(self)@);
    }

    /// Records that the function entered last is left now.
    pub fn record_call_exit(&mut self)
        ensures
            final(self)@.len() == old(self)@.len() + 1,
            final(self)@.drop_last() == old(self)@,
            final(self)@.last() is CallExit,
    {
        let at = now();
        self.record_call_exit_at(at);
        assert(self@.drop_last() =~= old(self)@);
    }

    /// Calls `visitor` on every cell, markers and records included, in
    /// allocation order.
    pub fn for_each<F: Fn(&ValueMem)>(&self, visitor: F)
        requires
            forall|i: int| 0 <= i < self.cells().len() ==> call_requires(visitor, (&#[trigger] self.cells()[i],)),
        ensures
            forall|i: int| 0 <= i < self.cells().len() ==> call_ensures(visitor, (&#[trigger] self.cells()[i],), ()),
    {
        assert forall|i: int| 0 <= i < self.arena@.len() implies call_requires(
            visitor,
            (&#[trigger] self.arena@[i],),
        ) by {
            assert(call_requires(visitor, (&self.cells()[i],)));
        }
        let ghost seen = visitor;
        self.arena.for_each(visitor);
        assert forall|i: int| 0 <= i < self.cells().len() implies call_ensures(
            seen,
            (&#[trigger] self.cells()[i],),
            (),
        ) by {
            assert(call_ensures(seen, (&self.arena@[i],), ()));
        }
    }

    /// The place that writes through `target` go to, made ready for them.
    ///
    /// A mutable cell is that place itself. A thaw-on-write cell that has
    /// thawed stands for its mutable copy. One that has not thaws now: the
    /// frozen value, as `owner` resolves it, is copied into a mutable cell
    /// of its own, and the thaw-on-write cell stands for that from here on.
    /// Anything else cannot be written, and gives `None`.
    pub fn thaw(&mut self, owner: &FrozenHeapRef, target: Value) -> (place: Option<Value>)
        ensures
            place == thaw_place(old(self)@, owner, target),
            final(self)@ == thawed(old(self)@, owner, target),
    {
        let slot = match target {
            Value::Frozen(_) => {
                return None;
            },
            Value::Ptr(slot) => slot,
        };
        if slot >= self.arena.len() {
            return None;
        }
        let frozen = match self.arena.get(slot) {
            ValueMem::Mutable(_) => {
                return Some(target);
            },
            ValueMem::ThawOnWrite(Value::Ptr(thawed)) => {
                return Some(Value::Ptr(*thawed));
            },
            ValueMem::ThawOnWrite(Value::Frozen(frozen)) => *frozen,
            _ => {
                return None;
            },
        };
        let copy = match owner.get_ref(frozen) {
            Some(FrozenValueMem::Immutable(p)) => {
                let mut children: Vec<Value> = Vec::new();
                let mut c: usize = 0;
                while c < p.children.len()
                    invariant
                        c <= p.children@.len(),
                        children@ == thawed_handles(p.children@.subrange(0, c as int)),
                    decreases p.children@.len() - c,
                {
                    children.push(Value::Frozen(p.children[c]));
                    assert(children@ =~= thawed_handles(p.children@.subrange(0, c + 1)));
                    c += 1;
                }
                assert(p.children@.subrange(0, p.children@.len() as int) =~= p.children@);
                Payload { kind: p.kind, naturally_mutable: p.naturally_mutable, scalar: p.scalar, children }
            },
            _ => {
                return None;
            },
        };
        let place = self.alloc_raw(ValueMem::Mutable(copy));
        self.swap_cell(slot, ValueMem::ThawOnWrite(place));
        Some(place)
    }

    /// Writes `payload` through `target`.
    ///
    /// A mutable cell takes the payload. A thaw-on-write cell thaws on its
    /// first write: the payload goes into a mutable cell of its own, and
    /// later writes go there. Anything else rejects the write.
    pub fn write(&mut self, target: Value, payload: Payload<Value>) -> (outcome: Result<(), WriteError>)
        ensures
            outcome == write_outcome(old(self)@, target),
            final(self)@ == written(old(self)@, target, payload@),
    {
        let slot = match target {
            Value::Frozen(_) => {
                return Err(WriteError::Immutable);
            },
            Value::Ptr(slot) => slot,
        };
        if slot >= self.arena.len() {
            return Err(WriteError::Dangling);
        }
        let through = match self.arena.get(slot) {
            ValueMem::Mutable(_) => slot,
            ValueMem::ThawOnWrite(Value::Ptr(thawed)) => *thawed,
            ValueMem::ThawOnWrite(Value::Frozen(_)) => {
                let thawed = self.alloc_raw(ValueMem::Mutable(payload));
                self.swap_cell(slot, ValueMem::ThawOnWrite(thawed));
                return Ok(());
            },
            _ => {
                return Err(WriteError::Immutable);
            },
        };
        if through >= self.arena.len() {
            return Err(WriteError::Dangling);
        }
        match self.arena.get(through) {
            ValueMem::Mutable(_) => {
                self.swap_cell(through, ValueMem::Mutable(payload));
                Ok(())
            },
            _ => Err(WriteError::Immutable),
        }
    }

    /// Whether every one of `values` points into the heap.
    pub fn holds_all(&self, values: &Vec<Value>) -> (held: bool)
        ensures
            held == all_in_bounds(values@, self@.len()),
    {
        let len = self.arena.len();
        let mut c: usize = 0;
        while c < values.len()
            invariant
                len == self@.len(),
                c <= values@.len(),
                forall|d: int| 0 <= d < c ==> (#[trigger] values@[d]).in_bounds(len as nat),
            decreases values@.len() - c,
        {
            match values[c] {
                Value::Ptr(slot) => {
                    if slot >= len {
                        assert(!values@[c as int].in_bounds(len as nat));
                        return false;
                    }
                },
                Value::Frozen(_) => {},
            }
            c += 1;
        }
        true
    }

    /// Whether the cell in `slot` is fit for a collection.
    fn is_cell_ok(&self, slot: usize) -> (ok: bool)
        requires
            slot < self@.len(),
        ensures
            ok == cell_ok(self@, slot as int),
    {
        let len = self.arena.len();
        match self.arena.get(slot) {
            ValueMem::Copied(_) => false,
            ValueMem::Blackhole => false,
            ValueMem::Mutable(p) => self.holds_all(&p.children),
            ValueMem::Pseudo(p) => self.holds_all(&p.children),
            ValueMem::Ref(v) => {
                assert(self@[slot as int].children()[0] == *v);
                match v {
                    Value::Ptr(target) => *target < len,
                    Value::Frozen(_) => true,
                }
            },
            ValueMem::ThawOnWrite(v) => {
                assert(self@[slot as int].children()[0] == *v);
                match v {
                    Value::Ptr(target) => {
                        if *target < len {
                            match self.arena.get(*target) {
                                ValueMem::ThawOnWrite(_) => false,
                                _ => true,
                            }
                        } else {
                            false
                        }
                    },
                    Value::Frozen(_) => true,
                }
            },
            _ => true,
        }
    }

    /// Whether the heap is fit for a collection: it holds no marker of a
    /// collection in progress, and every handle in it points into it.
    pub fn is_well_formed(&self) -> (ok: bool)
        ensures
            ok == self.wf(),
    {
        let mut slot: usize = 0;
        while slot < self.arena.len()
            invariant
                slot <= self@.len(),
                forall|s: int| 0 <= s < slot ==> #[trigger] cell_ok(self@, s),
            decreases self@.len() - slot,
        {
            if !self.is_cell_ok(slot) {
                return false;
            }
            slot += 1;
        }
        true
    }

    /// Collects the heap: keeps the cells within reach of `roots`, drops the
    /// rest, and points each root to the new place of its cell.
    ///
    /// Every handle into this heap that is not in `roots`, and every
    /// reference to a cell that was got before the call, is void afterwards:
    /// the caller gives all the roots there are.
    pub fn garbage_collect(&mut self, roots: &mut Vec<Value>)
        requires
            old(self).wf(),
            all_in_bounds(old(roots)@, old(self)@.len()),
        ensures
            final(self).wf(),
            exists|moves: Map<int, int>| is_collection(old(self)@, old(roots)@, final(self)@, final(roots)@, moves),
    {
        self.garbage_collect_internal(roots)
    }

    fn garbage_collect_internal(&mut self, roots: &mut Vec<Value>)
        requires
            old(self).wf(),
            all_in_bounds(old(roots)@, old(self)@.len()),
        ensures
            final(self).wf(),
            exists|moves: Map<int, int>| is_collection(old(self)@, old(roots)@, final(self)@, final(roots)@, moves),
    {
        let mut taken = Heap::new();
        core::mem::swap(self, &mut taken);
        let mut walker = Walker::new(taken);
        walker.walk_all(roots);
        proof {
            assert(walker.shown() =~= old(roots)@);
        }
        let ghost moves = walker.moves();
        *self = walker.finish();
        assert(is_collection(old(self)@, old(roots)@, self@, roots@, moves));
    }
}

/// Why a write was rejected.
#[derive(Clone, Copy, Debug, PartialEq, Eq)]
pub enum WriteError {
    /// The value cannot change: it is frozen, or its cell is not a
    /// mutable one.
    Immutable,
    /// The handle points to no cell of the heap.
    Dangling,
}

/// Whether the frozen value `x`, as `owner` resolves it, is of a type that
/// is mutable by nature.
pub open spec fn naturally_mutable(owner: &FrozenHeapRef, x: FrozenValue) -> bool {
    owner.heap().resolve(x) matches Some(FrozenCellView::Immutable(payload)) && payload.naturally_mutable
}

/// Frozen handles as handles of the heap under evaluation.
pub open spec fn thawed_handles(frozen: Seq<FrozenValue>) -> Seq<Value> {
    Seq::new(frozen.len(), |c: int| Value::Frozen(frozen[c]))
}

/// The mutable copy of the frozen value `p`.
pub open spec fn thawed_payload(p: PayloadView<FrozenValue>) -> PayloadView<Value> {
    PayloadView {
        kind: p.kind,
        naturally_mutable: p.naturally_mutable,
        scalar: p.scalar,
        children: thawed_handles(p.children),
    }
}

/// The frozen value that thawing `target` copies: `target` points to a
/// thaw-on-write cell that has not thawed, and `owner` resolves what the
/// cell stands for to an immutable value.
pub open spec fn thaws_from(cells: Seq<CellView>, owner: &FrozenHeapRef, target: Value) -> Option<
    PayloadView<FrozenValue>,
> {
    match target {
        Value::Ptr(slot) if slot < cells.len() => match cells[slot as int] {
            CellView::ThawOnWrite(Value::Frozen(f)) => match owner.heap().resolve(f) {
                Some(FrozenCellView::Immutable(p)) => Some(p),
                _ => None,
            },
            _ => None,
        },
        _ => None,
    }
}

/// What `thaw` returns.
pub open spec fn thaw_place(cells: Seq<CellView>, owner: &FrozenHeapRef, target: Value) -> Option<Value> {
    match target {
        Value::Ptr(slot) if slot < cells.len() => match cells[slot as int] {
            CellView::Mutable(_) => Some(target),
            CellView::ThawOnWrite(Value::Ptr(thawed)) => Some(Value::Ptr(thawed)),
            CellView::ThawOnWrite(Value::Frozen(_)) => if thaws_from(cells, owner, target) is Some {
                Some(Value::Ptr(cells.len() as usize))
            } else {
                None
            },
            _ => None,
        },
        _ => None,
    }
}

/// The heap after `thaw`.
pub open spec fn thawed(cells: Seq<CellView>, owner: &FrozenHeapRef, target: Value) -> Seq<CellView> {
    match thaws_from(cells, owner, target) {
        Some(p) => cells.push(CellView::Mutable(thawed_payload(p))).update(
            target->Ptr_0 as int,
            CellView::ThawOnWrite(Value::Ptr(cells.len() as usize)),
        ),
        None => cells,
    }
}

/// The slot that a write through `target` puts its payload in, where it
/// puts it in a cell that is there already.
pub open spec fn write_slot(cells: Seq<CellView>, target: Value) -> Result<int, WriteError> {
    match target {
        Value::Frozen(_) => Err(WriteError::Immutable),
        Value::Ptr(slot) => if slot >= cells.len() {
            Err(WriteError::Dangling)
        } else {
            match cells[slot as int] {
                CellView::Mutable(_) => Ok(slot as int),
                CellView::ThawOnWrite(Value::Ptr(thawed)) => if thawed >= cells.len() {
                    Err(WriteError::Dangling)
                } else if cells[thawed as int] is Mutable {
                    Ok(thawed as int)
                } else {
                    Err(WriteError::Immutable)
                },
                _ => Err(WriteError::Immutable),
            }
        },
    }
}

/// Whether `target` points to a thaw-on-write cell that has not thawed.
pub open spec fn thaws_on_write(cells: Seq<CellView>, target: Value) -> bool {
    target matches Value::Ptr(slot) && slot < cells.len() && cells[slot as int] matches CellView::ThawOnWrite(
        Value::Frozen(_),
    )
}

/// What `write` returns.
pub open spec fn write_outcome(cells: Seq<CellView>, target: Value) -> Result<(), WriteError> {
    if thaws_on_write(cells, target) {
        Ok(())
    } else {
        match write_slot(cells, target) {
            Ok(_) => Ok(()),
            Err(e) => Err(e),
        }
    }
}

/// The heap after a write of `payload` through `target`.
pub open spec fn written(cells: Seq<CellView>, target: Value, payload: PayloadView<Value>) -> Seq<CellView> {
    if thaws_on_write(cells, target) {
        cells.push(CellView::Mutable(payload)).update(
            target->Ptr_0 as int,
            CellView::ThawOnWrite(Value::Ptr(cells.len() as usize)),
        )
    } else {
        match write_slot(cells, target) {
            Ok(slot) => cells.update(slot, CellView::Mutable(payload)),
            Err(_) => cells,
        }
    }
}

/// The time now.
///
/// Calls `std::time::Instant::now`, of whose result nothing is stated.
#[verifier::external_body]
fn now() -> std::time::Instant {
    std::time::Instant::now()
}

} // verus!
