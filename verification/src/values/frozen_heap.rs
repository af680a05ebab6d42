//! The frozen heap: cells that never change once the heap is shared, and
//! the heaps that they point into.

use std::sync::Arc;
use vstd::prelude::*;
use crate::values::arena::{footprint, Arena};
use crate::values::value::{FrozenCellView, FrozenValue, FrozenValueMem, HeapId, Payload};

verus! {

/// The cells of a frozen heap, each by its view.
pub open spec fn frozen_views(cells: Seq<FrozenValueMem>) -> Seq<FrozenCellView> {
    Seq::new(cells.len(), |i: int| cells[i]@)
}

/// What stands in memory for a source of identities, for as long as the
/// source or a heap that it named lives.
#[derive(Debug)]
pub struct HeapToken;

/// A source of identities for frozen heaps.
///
/// A source is known by the place of its token in memory, which it shares
/// with no source that lives at the same time, and it numbers the
/// identities it issues. So two heaps never have one identity: not two of
/// one source, and not two of different sources.
#[derive(Debug)]
pub struct HeapIds {
    token: Arc<HeapToken>,
    source: u64,
    next: u64,
}

/// A frozen heap while it is being filled.
///
/// A heap is known by its identity, which a source of identities issued for
/// it and for no other heap: a handle into a frozen heap holds it.
#[derive(Debug)]
pub struct FrozenHeap {
    id: HeapId,
    token: Arc<HeapToken>,
    arena: Arena<FrozenValueMem>,
    refs: Vec<FrozenHeapRef>,
}

/// A frozen heap that is shared: it can be read and never changes. Two of
/// them are equal when they are the same heap, whatever they hold.
#[derive(Clone, Debug)]
pub struct FrozenHeapRef(Arc<FrozenHeap>);

/// The index of the first of `ids` that is `id`.
pub open spec fn position(ids: Seq<HeapId>, id: HeapId) -> int {
    choose|j: int| 0 <= j < ids.len() && ids[j] == id && forall|k: int| 0 <= k < j ==> ids[k] != id
}

impl FrozenHeap {
    /// The identity of the heap.
    pub closed spec fn id(&self) -> HeapId {
        self.id
    }

    /// The cells of the heap, in the order of allocation.
    pub closed spec fn cells(&self) -> Seq<FrozenCellView> {
        frozen_views(self.arena@)
    }

    /// The heaps that this one keeps alive, in the order they were added.
    pub closed spec fn deps(&self) -> Seq<FrozenHeapRef> {
        self.refs@
    }

    /// The identities of the heaps that this one keeps alive.
    pub open spec fn dep_ids(&self) -> Seq<HeapId> {
        Seq::new(self.deps().len(), |j: int| self.deps()[j].id())
    }

    /// No heap is kept alive twice.
    pub open spec fn wf(&self) -> bool {
        self.dep_ids().no_duplicates()
    }

    /// The cell that `value` points to, as far as this heap can tell: a
    /// cell of its own, a cell of a heap that it keeps alive, or a cell
    /// that lives for the whole process.
    pub open spec fn resolve(&self, value: FrozenValue) -> Option<FrozenCellView> {
        match value {
            FrozenValue::Static(cell) => Some(cell@),
            FrozenValue::Ptr { heap, slot } => if heap == self.id() {
                if slot < self.cells().len() {
                    Some(self.cells()[slot as int])
                } else {
                    None
                }
            } else if self.dep_ids().contains(heap) {
                let dep = self.deps()[position(self.dep_ids(), heap)];
                if slot < dep.cells().len() {
                    Some(dep.cells()[slot as int])
                } else {
                    None
                }
            } else {
                None
            },
            _ => None,
        }
    }
}

impl FrozenHeap {
    /// `value` is no handle into a heap, or it is one that this heap can
    /// follow: into itself, or into a heap that it keeps alive.
    pub open spec fn knows(&self, value: FrozenValue) -> bool {
        value is Ptr ==> self.resolve(value) is Some
    }

    /// `knows` holds of each of `values`.
    pub open spec fn knows_all(&self, values: Seq<FrozenValue>) -> bool {
        forall|c: int| 0 <= c < values.len() ==> self.knows(#[trigger] values[c])
    }

    /// Every handle that the cell in `slot` owns can be followed.
    pub open spec fn cell_closed(&self, slot: int) -> bool {
        self.cells()[slot] matches FrozenCellView::Immutable(p) ==> self.knows_all(p.children)
    }

    /// Every handle that a cell of this heap owns can be followed from this
    /// heap: what the heap points into lives as long as the heap does.
    pub open spec fn closed(&self) -> bool {
        forall|slot: int| 0 <= slot < self.cells().len() ==> #[trigger] self.cell_closed(slot)
    }
}

impl FrozenHeapRef {
    /// The heap that is shared.
    pub closed spec fn heap(&self) -> FrozenHeap {
        *self.0
    }

    /// The identity of the heap.
    pub open spec fn id(&self) -> HeapId {
        self.heap().id()
    }

    /// The cells of the heap.
    pub open spec fn cells(&self) -> Seq<FrozenCellView> {
        self.heap().cells()
    }
}

/// A second handle to what `shared` shares.
///
/// Calls `Arc::clone`, which hands out another pointer to the same
/// allocation: what it points to is what `shared` points to.
#[verifier::external_body]
fn share<T>(shared: &Arc<T>) -> (again: Arc<T>)
    ensures
        again == shared,
{
    Arc::clone(shared)
}

/// The place of the allocation behind `token`, as a number.
///
/// Calls `Arc::as_ptr`. Two allocations that live at the same time lie at
/// different places; of the number itself nothing is stated.
#[verifier::external_body]
fn address_of(token: &Arc<HeapToken>) -> u64 {
    Arc::as_ptr(token) as usize as u64
}

/// Two identities of one source with different numbers are different
/// identities: the heaps that a source names one after another are told
/// apart.
pub proof fn lemma_identities_differ(first: HeapIds, second: HeapIds)
    requires
        first.source() == second.source(),
        first.next() != second.next(),
    ensures
        first.upcoming() != second.upcoming(),
{
}

impl HeapIds {
    /// What tells this source from every other that lives.
    pub closed spec fn source(&self) -> u64 {
        self.source
    }

    /// The number of the identity that is issued next.
    pub closed spec fn next(&self) -> u64 {
        self.next
    }

    /// The identity that is issued next.
    pub open spec fn upcoming(&self) -> HeapId {
        HeapId { source: self.source(), serial: self.next() }
    }

    /// A source that has issued nothing yet.
    pub fn new() -> (ids: Self)
        ensures
            ids.next() == 0,
    {
        let token = Arc::new(HeapToken);
        let source = address_of(&token);
        HeapIds { token, source, next: 0 }
    }

    /// Issues an identity, with the token that keeps it from being issued
    /// again. A source that has run out of numbers goes on as a new source.
    fn issue(&mut self) -> (issued: (HeapId, Arc<HeapToken>))
        ensures
            old(self).next() < u64::MAX ==> {
                &&& issued.0 == old(self).upcoming()
                &&& final(self).source() == old(self).source()
                &&& final(self).next() == old(self).next() + 1
            },
    {
        if self.next == u64::MAX {
            let token = Arc::new(HeapToken);
            self.source = address_of(&token);
            self.token = token;
            self.next = 0;
        }
        let id = HeapId { source: self.source, serial: self.next };
        self.next = self.next + 1;
        (id, share(&self.token))
    }
}

/// `position` finds the first of `ids` that is `id`.
pub proof fn lemma_position(ids: Seq<HeapId>, id: HeapId)
    requires
        ids.contains(id),
    ensures
        0 <= position(ids, id) < ids.len(),
        ids[position(ids, id)] == id,
        forall|k: int| 0 <= k < position(ids, id) ==> ids[k] != id,
    decreases ids.len(),
{
    let last = ids.len() - 1;
    if ids.drop_last().contains(id) {
        lemma_position(ids.drop_last(), id);
        let j = position(ids.drop_last(), id);
        assert(ids[j] == id);
        assert(forall|k: int| 0 <= k < j ==> ids[k] == ids.drop_last()[k]);
        assert(0 <= j < ids.len() && ids[j] == id && forall|k: int| 0 <= k < j ==> ids[k] != id);
    } else {
        let w = choose|w: int| 0 <= w < ids.len() && ids[w] == id;
        if w != last {
            assert(ids.drop_last()[w] == id);
        }
        assert forall|k: int| 0 <= k < last implies ids[k] != id by {
            assert(ids.drop_last()[k] == ids[k]);
        }
        assert(0 <= last < ids.len() && ids[last] == id && forall|k: int| 0 <= k < last ==> ids[k] != id);
    }
}

/// A handle into a heap that is kept alive resolves to the cell of that
/// heap, whoever else holds the heap or has let go of it.
pub proof fn lemma_reference_resolves(heap: FrozenHeap, j: int, slot: usize)
    requires
        heap.wf(),
        0 <= j < heap.deps().len(),
        heap.deps()[j].id() != heap.id(),
        slot < heap.deps()[j].cells().len(),
    ensures
        heap.resolve(FrozenValue::Ptr { heap: heap.deps()[j].id(), slot }) == Some(
            heap.deps()[j].cells()[slot as int],
        ),
{
    let id = heap.deps()[j].id();
    assert(heap.dep_ids()[j] == id);
    lemma_position(heap.dep_ids(), id);
}

/// A frozen heap holds no cell that can change: a cell is a string, an
/// immutable value, or reserved and not yet filled.
pub proof fn lemma_frozen_cells_are_fixed(cell: FrozenCellView)
    ensures
        cell is Str || cell is Immutable || cell is Blackhole,
{
}

impl FrozenHeap {
    /// An empty heap, with an identity that `ids` issues for it.
    pub fn new(ids: &mut HeapIds) -> (heap: Self)
        ensures
            heap.cells() == Seq::<FrozenCellView>::empty(),
            heap.deps() == Seq::<FrozenHeapRef>::empty(),
            heap.wf(),
            old(ids).next() < u64::MAX ==> {
                &&& heap.id() == old(ids).upcoming()
                &&& final(ids).source() == old(ids).source()
                &&& final(ids).next() == old(ids).next() + 1
            },
    {
        let (id, token) = ids.issue();
        let heap = FrozenHeap { id, token, arena: Arena::new(), refs: Vec::new() };
        assert(heap.cells() =~= Seq::<FrozenCellView>::empty());
        heap
    }

    /// The identity of the heap.
    pub fn identity(&self) -> (id: HeapId)
        ensures
            id == self.id(),
    {
        self.id
    }

    /// The number of cells allocated here.
    pub fn len(&self) -> (n: usize)
        ensures
            n == self.cells().len(),
    {
        self.arena.len()
    }

    /// The footprint of the cells of this heap.
    pub fn allocated_bytes(&self) -> (bytes: usize)
        ensures
            bytes == footprint(self.cells().len(), vstd::layout::size_of::<FrozenValueMem>()),
    {
        self.arena.allocated_bytes()
    }

    /// Shares the heap. From here on nothing can be added to it, and no
    /// cell of it can change.
    pub fn into_ref(self) -> (shared: FrozenHeapRef)
        ensures
            shared.heap() == self,
    {
        FrozenHeapRef(Arc::new(self))
    }

    /// Where the heap with identity `id` stands among those kept alive.
    fn find(&self, id: HeapId) -> (found: Option<usize>)
        ensures
            match found {
                Some(j) => self.dep_ids().contains(id) && j == position(self.dep_ids(), id) && j < self.deps().len(),
                None => !self.dep_ids().contains(id),
            },
    {
        let mut j: usize = 0;
        while j < self.refs.len()
            invariant
                j <= self.refs.len(),
                forall|k: int| 0 <= k < j ==> self.dep_ids()[k] != id,
            decreases self.refs.len() - j,
        {
            if self.refs[j].0.id == id {
                proof {
                    assert(self.dep_ids()[j as int] == id);
                    lemma_position(self.dep_ids(), id);
                }
                return Some(j);
            }
            j += 1;
        }
        None
    }

    /// Keeps `heap` alive for as long as this heap lives. A heap that is
    /// kept alive already is not added again.
    pub fn add_reference(&mut self, heap: &FrozenHeapRef)
        ensures
            final(self).id() == old(self).id(),
            final(self).cells() == old(self).cells(),
            final(self).deps() == if old(self).dep_ids().contains(heap.id()) {
                old(self).deps()
            } else {
                old(self).deps().push(*heap)
            },
            final(self).dep_ids().contains(heap.id()),
            old(self).wf() ==> final(self).wf(),
    {
        match self.find(heap.0.id) {
            Some(_) => {},
            None => {
                self.refs.push(FrozenHeapRef(share(&heap.0)));
                proof {
                    assert(self.dep_ids() =~= old(self).dep_ids().push(heap.id()));
                    assert(self.dep_ids()[old(self).dep_ids().len() as int] == heap.id());
                }
            },
        }
    }

    /// Appends `cell` and returns the handle to it.
    pub fn alloc_raw(&mut self, cell: FrozenValueMem) -> (value: FrozenValue)
        ensures
            value matches FrozenValue::Ptr { heap, slot } && heap == old(self).id() && slot == old(self).cells().len(),
            final(self).cells() == old(self).cells().push(cell@),
            final(self).id() == old(self).id(),
            final(self).deps() == old(self).deps(),
    {
        let slot = self.arena.allocate(cell);
        assert(self.cells() =~= old(self).cells().push(cell@));
        FrozenValue::Ptr { heap: self.id, slot }
    }

    /// Puts the string `x` on the heap.
    pub fn alloc_str(&mut self, x: String) -> (value: FrozenValue)
        ensures
            value matches FrozenValue::Ptr { heap, slot } && heap == old(self).id() && slot == old(self).cells().len(),
            final(self).cells() == old(self).cells().push(FrozenCellView::Str(x@)),
            final(self).id() == old(self).id(),
            final(self).deps() == old(self).deps(),
    {
        self.alloc_raw(FrozenValueMem::Str(x))
    }

    /// Puts a value that never changes on the heap.
    pub fn alloc_immutable(&mut self, val: Payload<FrozenValue>) -> (value: FrozenValue)
        ensures
            value matches FrozenValue::Ptr { heap, slot } && heap == old(self).id() && slot == old(self).cells().len(),
            final(self).cells() == old(self).cells().push(FrozenCellView::Immutable(val@)),
            final(self).id() == old(self).id(),
            final(self).deps() == old(self).deps(),
    {
        self.alloc_raw(FrozenValueMem::Immutable(val))
    }

    /// Puts `cell` in `slot`, which was reserved for it.
    pub(crate) fn fill(&mut self, slot: usize, cell: FrozenValueMem)
        requires
            slot < old(self).cells().len(),
        ensures
            final(self).cells() == old(self).cells().update(slot as int, cell@),
            final(self).id() == old(self).id(),
            final(self).deps() == old(self).deps(),
    {
        self.arena.replace(slot, cell);
        assert(self.cells() =~= old(self).cells().update(slot as int, cell@));
    }

    /// Whether this heap can follow each of `values`.
    fn follows_all(&self, values: &Vec<FrozenValue>) -> (ok: bool)
        ensures
            ok == self.knows_all(values@),
    {
        let mut c: usize = 0;
        while c < values.len()
            invariant
                c <= values@.len(),
                forall|d: int| 0 <= d < c ==> self.knows(#[trigger] values@[d]),
            decreases values@.len() - c,
        {
            match values[c] {
                FrozenValue::Ptr { .. } => {
                    if self.get_ref(values[c]).is_none() {
                        return false;
                    }
                },
                _ => {},
            }
            c += 1;
        }
        true
    }

    /// Whether every handle that a cell of this heap owns can be followed
    /// from this heap.
    pub fn is_closed(&self) -> (ok: bool)
        ensures
            ok == self.closed(),
    {
        let mut slot: usize = 0;
        while slot < self.arena.len()
            invariant
                slot <= self.cells().len(),
                forall|s: int| 0 <= s < slot ==> #[trigger] self.cell_closed(s),
            decreases self.cells().len() - slot,
        {
            let ok = match self.arena.get(slot) {
                FrozenValueMem::Immutable(p) => self.follows_all(&p.children),
                _ => true,
            };
            if !ok {
                assert(!self.cell_closed(slot as int));
                return false;
            }
            slot += 1;
        }
        true
    }

    /// The cell that `value` points to, where this heap can reach it.
    pub fn get_ref(&self, value: FrozenValue) -> (cell: Option<&FrozenValueMem>)
        ensures
            match cell {
                Some(c) => self.resolve(value) == Some(c@),
                None => self.resolve(value) is None,
            },
    {
        match value {
            FrozenValue::Static(cell) => Some(cell),
            FrozenValue::Ptr { heap, slot } => {
                if heap == self.id {
                    if slot < self.arena.len() {
                        Some(self.arena.get(slot))
                    } else {
                        None
                    }
                } else {
                    match self.find(heap) {
                        Some(j) => {
                            let dep = &self.refs[j];
                            if slot < dep.0.arena.len() {
                                Some(dep.0.arena.get(slot))
                            } else {
                                None
                            }
                        },
                        None => None,
                    }
                }
            },
            _ => None,
        }
    }
}

impl PartialEq for FrozenHeapRef {
    fn eq(&self, other: &FrozenHeapRef) -> (same: bool) {
        self.0.id == other.0.id
    }
}

impl vstd::std_specs::cmp::PartialEqSpecImpl for FrozenHeapRef {
    open spec fn obeys_eq_spec() -> bool {
        true
    }

    /// Two handles are equal when they share the same heap.
    open spec fn eq_spec(&self, other: &FrozenHeapRef) -> bool {
        self.id() == other.id()
    }
}

impl Eq for FrozenHeapRef {

}

impl FrozenHeapRef {
    /// The identity of the heap: what two handles to one heap have in
    /// common, and what a set of heaps is keyed by.
    pub fn identity(&self) -> (id: HeapId)
        ensures
            id == self.id(),
    {
        self.0.id
    }

    /// The number of cells of the heap.
    pub fn len(&self) -> (n: usize)
        ensures
            n == self.cells().len(),
    {
        self.0.arena.len()
    }

    /// Another handle to the same heap.
    pub fn dupe(&self) -> (again: Self)
        ensures
            again == *self,
    {
        FrozenHeapRef(share(&self.0))
    }

    /// The cell that `value` points to, where this heap can reach it: one
    /// of its own, or one of a heap that it keeps alive.
    pub fn get_ref(&self, value: FrozenValue) -> (cell: Option<&FrozenValueMem>)
        ensures
            match cell {
                Some(c) => self.heap().resolve(value) == Some(c@),
                None => self.heap().resolve(value) is None,
            },
    {
        self.0.get_ref(value)
    }
}

} // verus!
