//! The copying collector.
//!
//! A walker moves every cell that it is shown, and every cell reachable
//! from one, out of the arena being collected (the from-space) into a fresh
//! arena (the to-space). A cell that has moved leaves a `Copied` marker
//! behind, which holds its handle in the to-space, so a cell that is reached
//! twice moves once.

use vstd::prelude::*;
use crate::values::arena::Arena;
use crate::values::heap::{all_in_bounds, cell_ok, well_formed, Heap};
use crate::values::value::{cell_views, CellView, Payload, PayloadView, Value, ValueMem};
use crate::values::value_ref::ValueRef;

verus! {

/// Whether `v` is a handle that needs no move, or one whose cell has moved.
pub open spec fn is_moved(space: Seq<CellView>, v: Value) -> bool {
    match v {
        Value::Frozen(_) => true,
        Value::Ptr(slot) => slot < space.len() && space[slot as int] is Copied,
    }
}

/// Where `v` points once its cell has moved: what the `Copied` marker in
/// its slot holds. A handle that points into no to-space stays as it is.
pub open spec fn relocated(space: Seq<CellView>, v: Value) -> Value {
    match v {
        Value::Frozen(_) => v,
        Value::Ptr(slot) => if slot < space.len() && space[slot as int] is Copied {
            space[slot as int]->Copied_0
        } else {
            v
        },
    }
}

/// Each of `vs` as `relocated` gives it.
pub open spec fn relocate_all(space: Seq<CellView>, vs: Seq<Value>) -> Seq<Value> {
    Seq::new(vs.len(), |c: int| relocated(space, vs[c]))
}

/// `is_moved` holds of each of `vs`.
pub open spec fn all_moved(space: Seq<CellView>, vs: Seq<Value>) -> bool {
    forall|c: int| 0 <= c < vs.len() ==> is_moved(space, #[trigger] vs[c])
}

/// The number of cells of `space` that have not moved.
spec fn unmigrated(space: Seq<CellView>) -> nat
    decreases space.len(),
{
    if space.len() == 0 {
        0
    } else {
        unmigrated(space.drop_last()) + if space.last() is Copied { 0nat } else { 1nat }
    }
}

/// `copy` is what the cell `source_cell` becomes in the to-space: the same cell, with
/// each handle it owns replaced by the handle's new place.
spec fn settled(space: Seq<CellView>, source_cell: CellView, copy: CellView) -> bool {
    &&& all_moved(space, source_cell.children())
    &&& copy == source_cell.with_children(relocate_all(space, source_cell.children()))
}

/// Every `Copied` marker that `before` holds is still there in `after`.
pub open spec fn markers_kept(before: Seq<CellView>, after: Seq<CellView>) -> bool {
    &&& before.len() == after.len()
    &&& forall|i: int| 0 <= i < before.len() && #[trigger] before[i] is Copied ==> after[i] == before[i]
}

/// `after` is `before` with more items behind it.
pub open spec fn grown_from<T>(after: Seq<T>, before: Seq<T>) -> bool {
    &&& before.len() <= after.len()
    &&& forall|i: int| 0 <= i < before.len() ==> #[trigger] after[i] == before[i]
}

/// Marking a cell that has not moved leaves one less to move.
proof fn lemma_unmigrated_mark(space: Seq<CellView>, slot: int, target: Value)
    requires
        0 <= slot < space.len(),
        !(space[slot] is Copied),
    ensures
        unmigrated(space.update(slot, CellView::Copied(target))) + 1 == unmigrated(space),
    decreases space.len(),
{
    let marked = space.update(slot, CellView::Copied(target));
    if slot == space.len() - 1 {
        assert(marked.drop_last() =~= space.drop_last());
    } else {
        lemma_unmigrated_mark(space.drop_last(), slot, target);
        assert(marked.drop_last() =~= space.drop_last().update(slot, CellView::Copied(target)));
    }
}

/// A cell of the to-space that is filled stays right as more cells move.
proof fn lemma_settled_kept(
    before: Seq<CellView>,
    after: Seq<CellView>,
    source_cell: CellView,
    copy: CellView,
)
    requires
        markers_kept(before, after),
        settled(before, source_cell, copy),
    ensures
        settled(after, source_cell, copy),
{
    let cs = source_cell.children();
    assert forall|c: int| 0 <= c < cs.len() implies is_moved(after, #[trigger] cs[c])
        && relocated(after, cs[c]) == relocated(before, cs[c]) by {
        assert(is_moved(before, cs[c]));
    }
    assert(relocate_all(after, cs) =~= relocate_all(before, cs));
}

/// The cell in slot `from` owns a handle to the cell in slot `to`.
pub open spec fn points_to(cells: Seq<CellView>, from: int, to: int) -> bool {
    &&& 0 <= from < cells.len()
    &&& 0 <= to <= usize::MAX
    &&& cells[from].children().contains(Value::Ptr(to as usize))
}

/// One of `roots` points to the cell in `slot`.
pub open spec fn is_root(roots: Seq<Value>, slot: int) -> bool {
    &&& 0 <= slot <= usize::MAX
    &&& roots.contains(Value::Ptr(slot as usize))
}

/// The cell in `slot` is a root, or at most `steps` handles away from one.
pub open spec fn reachable_within(cells: Seq<CellView>, roots: Seq<Value>, slot: int, steps: nat) -> bool
    decreases steps,
{
    ||| is_root(roots, slot)
    ||| steps > 0 && exists|via: int|
        #![trigger points_to(cells, via, slot)]
        points_to(cells, via, slot) && reachable_within(cells, roots, via, (steps - 1) as nat)
}

/// The cell in `slot` is a root, or some handles away from one.
pub open spec fn reachable(cells: Seq<CellView>, roots: Seq<Value>, slot: int) -> bool {
    exists|steps: nat| reachable_within(cells, roots, slot, steps)
}

/// `v` points to no cell of the heap, or to one that is reachable.
pub open spec fn handle_reachable(cells: Seq<CellView>, roots: Seq<Value>, v: Value) -> bool {
    v matches Value::Ptr(slot) ==> reachable(cells, roots, slot as int)
}

/// `handle_reachable` holds of each of `vs`.
pub open spec fn all_reachable(cells: Seq<CellView>, roots: Seq<Value>, vs: Seq<Value>) -> bool {
    forall|c: int| 0 <= c < vs.len() ==> handle_reachable(cells, roots, #[trigger] vs[c])
}

/// A root is within reach.
pub proof fn lemma_root_reachable(cells: Seq<CellView>, roots: Seq<Value>, r: int)
    requires
        0 <= r < roots.len(),
    ensures
        handle_reachable(cells, roots, roots[r]),
{
    if let Value::Ptr(slot) = roots[r] {
        assert(is_root(roots, slot as int));
        assert(reachable_within(cells, roots, slot as int, 0));
    }
}

/// What a cell within reach points to is within reach.
pub proof fn lemma_reachable_step(cells: Seq<CellView>, roots: Seq<Value>, via: int, slot: int)
    requires
        reachable(cells, roots, via),
        points_to(cells, via, slot),
    ensures
        reachable(cells, roots, slot),
{
    let n = choose|n: nat| reachable_within(cells, roots, via, n);
    assert(reachable_within(cells, roots, via, ((n + 1) - 1) as nat));
    assert(reachable_within(cells, roots, slot, n + 1));
}

/// All that a cell within reach owns is within reach.
pub proof fn lemma_children_reachable(cells: Seq<CellView>, roots: Seq<Value>, slot: int)
    requires
        0 <= slot < cells.len(),
        reachable(cells, roots, slot),
    ensures
        all_reachable(cells, roots, cells[slot].children()),
{
    let cs = cells[slot].children();
    assert forall|c: int| 0 <= c < cs.len() implies handle_reachable(cells, roots, #[trigger] cs[c]) by {
        if let Value::Ptr(to) = cs[c] {
            assert(cs.contains(Value::Ptr(to)));
            lemma_reachable_step(cells, roots, slot, to as int);
        }
    }
}

proof fn lemma_within_more_roots(
    cells: Seq<CellView>,
    roots: Seq<Value>,
    more: Seq<Value>,
    slot: int,
    steps: nat,
)
    requires
        reachable_within(cells, roots, slot, steps),
        forall|v: Value| roots.contains(v) ==> more.contains(v),
    ensures
        reachable_within(cells, more, slot, steps),
    decreases steps,
{
    if !is_root(roots, slot) {
        let via = choose|via: int|
            #![trigger points_to(cells, via, slot)]
            points_to(cells, via, slot) && reachable_within(cells, roots, via, (steps - 1) as nat);
        lemma_within_more_roots(cells, roots, more, via, (steps - 1) as nat);
    }
}

/// What is reachable from some roots is reachable from more roots.
pub proof fn lemma_reachable_more_roots(
    cells: Seq<CellView>,
    roots: Seq<Value>,
    more: Seq<Value>,
    slot: int,
)
    requires
        reachable(cells, roots, slot),
        forall|v: Value| roots.contains(v) ==> more.contains(v),
    ensures
        reachable(cells, more, slot),
{
    let n = choose|n: nat| reachable_within(cells, roots, slot, n);
    lemma_within_more_roots(cells, roots, more, slot, n);
}

/// Where the handle `v` points after a collection that moved the cell in
/// slot `i` to slot `moves[i]`.
pub open spec fn moved_handle(moves: Map<int, int>, v: Value) -> Value {
    match v {
        Value::Frozen(_) => v,
        Value::Ptr(slot) => if moves.dom().contains(slot as int) {
            Value::Ptr(moves[slot as int] as usize)
        } else {
            v
        },
    }
}

/// Each of `vs` as `moved_handle` gives it.
pub open spec fn moved_handles(moves: Map<int, int>, vs: Seq<Value>) -> Seq<Value> {
    Seq::new(vs.len(), |c: int| moved_handle(moves, vs[c]))
}

/// The cell `cell` after the collection: the same cell, each handle it owns
/// pointing to the new place of what it pointed to.
pub open spec fn moved_cell(moves: Map<int, int>, cell: CellView) -> CellView {
    cell.with_children(moved_handles(moves, cell.children()))
}

/// Every handle of `vs` that points into the heap points to a cell that moved.
pub open spec fn handles_within(moves: Map<int, int>, vs: Seq<Value>) -> bool {
    forall|c: int| 0 <= c < vs.len() ==> ((#[trigger] vs[c]) matches Value::Ptr(slot) ==> moves.dom().contains(
        slot as int,
    ))
}

/// Some cell moved to slot `place`.
pub open spec fn has_source(moves: Map<int, int>, place: int) -> bool {
    exists|slot: int| moves.dom().contains(slot) && #[trigger] moves[slot] == place
}

/// What a cell that moved looks like afterwards.
pub open spec fn moved_ok(
    before: Seq<CellView>,
    roots: Seq<Value>,
    after: Seq<CellView>,
    moves: Map<int, int>,
    slot: int,
) -> bool {
    &&& 0 <= slot < before.len()
    &&& 0 <= moves[slot] < after.len()
    &&& moves[slot] <= usize::MAX
    &&& handles_within(moves, before[slot].children())
    &&& after[moves[slot]] == moved_cell(moves, before[slot])
    &&& reachable(before, roots, slot)
}

/// `after` and `new_roots` are what a collection makes of the heap `before`
/// and the roots `roots`, where `moves` says which cell went where.
///
/// The cells that moved are exactly those reachable from the roots. Each
/// moved once, to a slot of its own, and the new heap holds nothing else.
/// Each is the cell it was, and each handle, in a cell or among the roots,
/// points to the new place of the cell it pointed to.
pub open spec fn is_collection(
    before: Seq<CellView>,
    roots: Seq<Value>,
    after: Seq<CellView>,
    new_roots: Seq<Value>,
    moves: Map<int, int>,
) -> bool {
    &&& forall|slot: int| moves.dom().contains(slot) ==> #[trigger] moved_ok(before, roots, after, moves, slot)
    &&& forall|i: int, j: int|
        moves.dom().contains(i) && moves.dom().contains(j) && #[trigger] moves[i] == #[trigger] moves[j] ==> i == j
    &&& forall|place: int| 0 <= place < after.len() ==> #[trigger] has_source(moves, place)
    &&& forall|slot: int| 0 <= slot < before.len() && #[trigger] reachable(before, roots, slot) ==> moves.dom().contains(slot)
    &&& handles_within(moves, roots)
    &&& new_roots == moved_handles(moves, roots)
}

/// Replacing the handles of a cell by as many others gives a cell that
/// owns exactly those.
pub proof fn lemma_with_children(cell: CellView, children: Seq<Value>)
    requires
        children.len() == cell.children().len(),
    ensures
        cell.with_children(children).children() == children,
{
    assert(cell.with_children(children).children() =~= children);
}

/// A cell that has moved stays where it went: whatever the collection does
/// next, a later visit finds the same place.
pub proof fn lemma_moved_for_good(before: Seq<CellView>, after: Seq<CellView>, v: Value)
    requires
        markers_kept(before, after),
        is_moved(before, v),
    ensures
        is_moved(after, v),
        relocated(after, v) == relocated(before, v),
{
}

/// Two roots that pointed to one cell point to one cell after the
/// collection, and two that pointed to different cells still do.
pub proof fn lemma_aliases_kept(
    before: Seq<CellView>,
    roots: Seq<Value>,
    after: Seq<CellView>,
    new_roots: Seq<Value>,
    moves: Map<int, int>,
    a: int,
    b: int,
)
    requires
        is_collection(before, roots, after, new_roots, moves),
        0 <= a < roots.len(),
        0 <= b < roots.len(),
        roots[a] is Ptr,
        roots[b] is Ptr,
    ensures
        roots[a] == roots[b] <==> new_roots[a] == new_roots[b],
{
    let i = roots[a]->Ptr_0 as int;
    let j = roots[b]->Ptr_0 as int;
    assert(moves.dom().contains(i) && moves.dom().contains(j));
    assert(moved_ok(before, roots, after, moves, i));
    assert(moved_ok(before, roots, after, moves, j));
    assert(new_roots[a] == Value::Ptr(moves[i] as usize));
    assert(new_roots[b] == Value::Ptr(moves[j] as usize));
}

/// A handle that a cell owned points, after the collection, to the new
/// place of the cell it pointed to. So a cell that held a handle to itself
/// holds a handle to itself, and not to a second copy.
pub proof fn lemma_handles_follow(
    before: Seq<CellView>,
    roots: Seq<Value>,
    after: Seq<CellView>,
    new_roots: Seq<Value>,
    moves: Map<int, int>,
    slot: int,
    c: int,
)
    requires
        is_collection(before, roots, after, new_roots, moves),
        moves.dom().contains(slot),
        0 <= c < before[slot].children().len(),
    ensures
        after[moves[slot]].children().len() == before[slot].children().len(),
        before[slot].children()[c] is Frozen ==> after[moves[slot]].children()[c] == before[slot].children()[c],
        before[slot].children()[c] matches Value::Ptr(target) ==> {
            &&& moves.dom().contains(target as int)
            &&& after[moves[slot]].children()[c] == Value::Ptr(moves[target as int] as usize)
        },
{
    assert(moved_ok(before, roots, after, moves, slot));
    let cs = before[slot].children();
    lemma_with_children(before[slot], moved_handles(moves, cs));
    if let Value::Ptr(target) = cs[c] {
        assert(moves.dom().contains(target as int));
    }
}

/// A collection in progress.
pub struct Walker {
    from: Arena<ValueMem>,
    to: Arena<ValueMem>,
    origin: Ghost<Seq<CellView>>,
    source: Ghost<Seq<int>>,
    shown: Ghost<Seq<Value>>,
}

impl Walker {
    /// The arena being collected, as it is now: a cell that has moved shows
    /// as its `Copied` marker.
    pub closed spec fn from_space(&self) -> Seq<CellView> {
        cell_views(self.from@)
    }

    /// The arena that the live cells move to.
    pub closed spec fn to_space(&self) -> Seq<CellView> {
        cell_views(self.to@)
    }

    /// The arena being collected, as it was when the collection began.
    pub closed spec fn origin(&self) -> Seq<CellView> {
        self.origin@
    }

    /// For each cell of the to-space, the slot of the from-space it came from.
    spec fn source(&self) -> Seq<int> {
        self.source@
    }

    /// The handles that the walker was asked to move so far, as they were
    /// given: the roots of the collection.
    pub closed spec fn shown(&self) -> Seq<Value> {
        self.shown@
    }

    /// The cell at `k` of the to-space came from the slot that `source`
    /// says, and the marker there points back to it.
    spec fn source_ok(&self, k: int) -> bool {
        &&& 0 <= self.source()[k] < self.from_space().len()
        &&& self.from_space()[self.source()[k]] == CellView::Copied(Value::Ptr(k as usize))
        &&& k <= usize::MAX
    }

    /// The cell at `i` of the from-space is as it was when the collection
    /// began, or it is within reach of a root and has moved to a cell of
    /// its own.
    spec fn from_ok(&self, i: int) -> bool {
        let cell = self.from_space()[i];
        if cell is Copied {
            &&& cell->Copied_0 matches Value::Ptr(k)
            &&& k < self.to_space().len()
            &&& self.source()[k as int] == i
            &&& reachable(self.origin(), self.shown(), i)
        } else {
            cell == self.origin()[i]
        }
    }

    /// The cell at `k` of the to-space is reserved, or it is filled with
    /// what its source held, each handle pointing to a new place.
    spec fn to_ok(&self, k: int) -> bool {
        ||| self.to_space()[k] is Blackhole
        ||| settled(self.from_space(), self.origin()[self.source()[k]], self.to_space()[k])
    }

    /// What holds at every step of a collection.
    spec fn inv(&self) -> bool {
        &&& self.from_space().len() == self.origin().len()
        &&& self.source().len() == self.to_space().len()
        &&& well_formed(self.origin())
        &&& forall|k: int| 0 <= k < self.to_space().len() ==> #[trigger] self.source_ok(k)
        &&& forall|i: int| 0 <= i < self.from_space().len() ==> #[trigger] self.from_ok(i)
        &&& forall|k: int| 0 <= k < self.to_space().len() ==> #[trigger] self.to_ok(k)
    }

    /// What one step of a collection leaves as it was: the markers already
    /// written, and the cells already in the to-space. What it adds to the
    /// to-space is filled.
    spec fn extends(&self, before: &Walker) -> bool {
        &&& self.origin() == before.origin()
        &&& self.shown() == before.shown()
        &&& markers_kept(before.from_space(), self.from_space())
        &&& grown_from(self.to_space(), before.to_space())
        &&& grown_from(self.source(), before.source())
        &&& forall|k: int| before.to_space().len() <= k < self.to_space().len() ==> !(#[trigger] self.to_space()[k] is Blackhole)
        &&& unmigrated(self.from_space()) <= unmigrated(before.from_space())
    }

    /// Which cell went where so far.
    pub open spec fn moves(&self) -> Map<int, int> {
        Map::new(
            |slot: int| 0 <= slot < self.from_space().len() && self.from_space()[slot] is Copied,
            |slot: int|
                match self.from_space()[slot]->Copied_0 {
                    Value::Ptr(place) => place as int,
                    Value::Frozen(_) => 0,
                },
        )
    }

    /// What holds of a walker between two roots: the two spaces fit
    /// together, every cell of the to-space is filled, and every root has
    /// moved.
    pub closed spec fn wf(&self) -> bool {
        &&& self.inv()
        &&& forall|k: int| 0 <= k < self.to_space().len() ==> !(#[trigger] self.to_space()[k] is Blackhole)
        &&& all_moved(self.from_space(), self.shown())
    }

    /// Starts a collection of `heap`.
    pub fn new(heap: Heap) -> (walker: Self)
        requires
            heap.wf(),
        ensures
            walker.wf(),
            walker.origin() == heap@,
            walker.from_space() == heap@,
            walker.to_space() == Seq::<CellView>::empty(),
            walker.shown() == Seq::<Value>::empty(),
    {
        let ghost cells = heap@;
        let walker = Walker {
            from: heap.into_arena(),
            to: Arena::new(),
            origin: Ghost(cells),
            source: Ghost(Seq::empty()),
            shown: Ghost(Seq::empty()),
        };
        proof {
            assert(walker.to_space() =~= Seq::<CellView>::empty());
            assert forall|i: int| 0 <= i < walker.from_space().len() implies #[trigger] walker.from_ok(i) by {
                assert(cell_ok(cells, i));
            }
        }
        walker
    }

    /// What a visit of `value` makes of the walker `before`, and what it
    /// gives: the walker with `value` among the roots, and `moved`, the
    /// place of its cell in the to-space.
    ///
    /// A cell that had moved is where its marker says, and nothing was
    /// allocated for it. One that had not has moved to the slot that was
    /// reserved for it first, the next free one of the to-space. The markers
    /// written before are all of them still there.
    pub open spec fn visited(&self, before: &Walker, value: Value, moved: Value) -> bool {
        &&& self.wf()
        &&& self.origin() == before.origin()
        &&& self.shown() == before.shown().push(value)
        &&& markers_kept(before.from_space(), self.from_space())
        &&& grown_from(self.to_space(), before.to_space())
        &&& is_moved(self.from_space(), value)
        &&& moved == relocated(self.from_space(), value)
        &&& is_moved(before.from_space(), value) ==> {
            &&& self.from_space() == before.from_space()
            &&& self.to_space() == before.to_space()
        }
        &&& !is_moved(before.from_space(), value) ==> (moved matches Value::Ptr(place) && place
            == before.to_space().len())
    }

    /// A cell that is visited twice is given the same place both times, and
    /// the second visit allocates nothing and writes no marker.
    pub proof fn lemma_second_visit(&self, first: &Walker, between: &Walker, value: Value, once: Value, twice: Value)
        requires
            between.visited(first, value, once),
            self.visited(between, value, twice),
        ensures
            twice == once,
            self.to_space() == between.to_space(),
            self.from_space() == between.from_space(),
    {
    }

    /// Moves the root `value` and all that it reaches, and returns the
    /// handle to its new place. A root whose cell has moved already, as a
    /// root or as something reachable from one, gets the place recorded
    /// then, and nothing is allocated.
    pub fn adjust(&mut self, value: Value) -> (moved: Value)
        requires
            old(self).wf(),
            value.in_bounds(old(self).origin().len()),
        ensures
            final(self).visited(old(self), value, moved),
    {
        let ghost entry = *self;
        let ghost root = value;
        proof {
            self.shown = Ghost(self.shown@.push(root));
            assert forall|v: Value| entry.shown().contains(v) implies self.shown().contains(v) by {
                let r = choose|r: int| 0 <= r < entry.shown().len() && entry.shown()[r] == v;
                assert(self.shown()[r] == v);
            }
            assert forall|i: int| 0 <= i < self.from_space().len() implies #[trigger] self.from_ok(i) by {
                assert(entry.from_ok(i));
                if self.from_space()[i] is Copied {
                    lemma_reachable_more_roots(self.origin(), entry.shown(), self.shown(), i);
                }
            }
            assert forall|k: int| 0 <= k < self.to_space().len() implies #[trigger] self.source_ok(k) by {
                assert(entry.source_ok(k));
            }
            assert forall|k: int| 0 <= k < self.to_space().len() implies #[trigger] self.to_ok(k) by {
                assert(entry.to_ok(k));
            }
            lemma_root_reachable(self.origin(), self.shown(), entry.shown().len() as int);
        }
        let ghost noted = *self;
        let moved = self.adjust_cell(value);
        proof {
            assert forall|r: int| 0 <= r < self.shown().len() implies is_moved(self.from_space(), #[trigger] self.shown()[r]) by {
                if r < entry.shown().len() {
                    assert(is_moved(entry.from_space(), entry.shown()[r]));
                }
            }
            assert forall|k: int| 0 <= k < self.to_space().len() implies !(#[trigger] self.to_space()[k] is Blackhole) by {
                if k < noted.to_space().len() {
                    assert(!(entry.to_space()[k] is Blackhole));
                }
            }
        }
        moved
    }

    /// Moves the root `value` and all that it reaches, and points `value`
    /// to the new place.
    pub fn walk(&mut self, value: &mut Value)
        requires
            old(self).wf(),
            old(value).in_bounds(old(self).origin().len()),
        ensures
            final(self).visited(old(self), *old(value), *final(value)),
    {
        *value = self.adjust(*value);
    }

    /// Moves a dictionary key, as `walk` does. The key stays the value it
    /// was: what it hashes to and compares equal to does not depend on
    /// where its cell lies.
    pub fn walk_dictionary_key(&mut self, value: &mut Value)
        requires
            old(self).wf(),
            old(value).in_bounds(old(self).origin().len()),
        ensures
            final(self).visited(old(self), *old(value), *final(value)),
    {
        self.walk(value)
    }

    /// Moves each of `values`, in their order, as `walk` does.
    pub fn walk_all(&mut self, values: &mut Vec<Value>)
        requires
            old(self).wf(),
            all_in_bounds(old(values)@, old(self).origin().len()),
        ensures
            final(self).wf(),
            final(self).origin() == old(self).origin(),
            final(self).shown() == old(self).shown() + old(values)@,
            markers_kept(old(self).from_space(), final(self).from_space()),
            grown_from(final(self).to_space(), old(self).to_space()),
            all_moved(final(self).from_space(), old(values)@),
            final(values)@ == relocate_all(final(self).from_space(), old(values)@),
    {
        let ghost given = values@;
        let mut r: usize = 0;
        while r < values.len()
            invariant
                self.wf(),
                self.origin() == old(self).origin(),
                given == old(values)@,
                r <= given.len(),
                values@.len() == given.len(),
                all_in_bounds(given, self.origin().len()),
                self.shown() == old(self).shown() + given.subrange(0, r as int),
                markers_kept(old(self).from_space(), self.from_space()),
                grown_from(self.to_space(), old(self).to_space()),
                forall|d: int| 0 <= d < r ==> is_moved(self.from_space(), #[trigger] given[d]) && values@[d]
                    == relocated(self.from_space(), given[d]),
                forall|d: int| r <= d < given.len() ==> values@[d] == #[trigger] given[d],
            decreases given.len() - r,
        {
            let ghost step = *self;
            assert(given[r as int].in_bounds(self.origin().len()));
            let mut value = values[r];
            self.walk(&mut value);
            values[r] = value;
            proof {
                assert(self.shown() =~= old(self).shown() + given.subrange(0, r + 1));
                assert forall|d: int| 0 <= d < r + 1 implies is_moved(self.from_space(), #[trigger] given[d])
                    && values@[d] == relocated(self.from_space(), given[d]) by {
                    if d < r {
                        assert(is_moved(step.from_space(), given[d]));
                    }
                }
            }
            r += 1;
        }
        proof {
            assert(given.subrange(0, given.len() as int) =~= given);
            assert(values@ =~= relocate_all(self.from_space(), given));
        }
    }

    /// Moves what a variable holds, as `walk` does. A variable that is
    /// bound to others holds a handle to the reference cell they share: the
    /// cell moves once, whichever of them is walked first.
    pub fn walk_ref(&mut self, value: &mut ValueRef)
        requires
            old(self).wf(),
            old(value).value.in_bounds(old(self).origin().len()),
        ensures
            final(self).visited(old(self), old(value).value, final(value).value),
    {
        let mut held = value.value;
        self.walk_cell(&mut held);
        value.value = held;
    }

    fn walk_cell(&mut self, value: &mut Value)
        requires
            old(self).wf(),
            old(value).in_bounds(old(self).origin().len()),
        ensures
            final(self).visited(old(self), *old(value), *final(value)),
    {
        self.walk(value)
    }

    /// Ends the collection: the to-space is the heap from now on.
    pub fn finish(self) -> (heap: Heap)
        requires
            self.wf(),
        ensures
            heap.wf(),
            heap@ == self.to_space(),
            is_collection(
                self.origin(),
                self.shown(),
                heap@,
                relocate_all(self.from_space(), self.shown()),
                self.moves(),
            ),
    {
        proof {
            self.lemma_collection();
        }
        Heap::from_arena(self.to)
    }

    /// Between two roots, the to-space is the collection of the heap so far.
    pub proof fn lemma_collection(&self)
        requires
            self.wf(),
        ensures
            well_formed(self.to_space()),
            is_collection(
                self.origin(),
                self.shown(),
                self.to_space(),
                relocate_all(self.from_space(), self.shown()),
                self.moves(),
            ),
    {
        let f = self.from_space();
        let t = self.to_space();
        let o = self.origin();
        let moves = self.moves();
        assert forall|v: Value| is_moved(f, v) implies relocated(f, v) == moved_handle(moves, v)
            && (v matches Value::Ptr(j) ==> moves.dom().contains(j as int) && moves[j as int] < t.len()) by {
            if let Value::Ptr(j) = v {
                assert(self.from_ok(j as int));
            }
        }
        assert forall|vs: Seq<Value>| all_moved(f, vs) implies #[trigger] relocate_all(f, vs) == moved_handles(moves, vs)
            && handles_within(moves, vs) by {
            assert forall|c: int| 0 <= c < vs.len() implies relocated(f, vs[c]) == moved_handle(moves, vs[c]) by {
                assert(is_moved(f, vs[c]));
            }
            assert(relocate_all(f, vs) =~= moved_handles(moves, vs));
            assert forall|c: int| 0 <= c < vs.len() implies ((#[trigger] vs[c]) matches Value::Ptr(slot)
                ==> moves.dom().contains(slot as int)) by {
                assert(is_moved(f, vs[c]));
            }
        }
        assert forall|slot: int| moves.dom().contains(slot) implies #[trigger] moved_ok(o, self.shown(), t, moves, slot) by {
            assert(self.from_ok(slot));
            let k = moves[slot];
            assert(self.to_ok(k));
            assert(all_moved(f, o[slot].children()));
            assert(relocate_all(f, o[slot].children()) == moved_handles(moves, o[slot].children()));
        }
        assert forall|i: int, j: int|
            moves.dom().contains(i) && moves.dom().contains(j) && #[trigger] moves[i] == #[trigger] moves[j] implies i
            == j by {
            assert(self.from_ok(i));
            assert(self.from_ok(j));
        }
        assert forall|place: int| 0 <= place < t.len() implies #[trigger] has_source(moves, place) by {
            assert(self.source_ok(place));
            assert(moves.dom().contains(self.source()[place]));
            assert(moves[self.source()[place]] == place);
        }
        assert(all_moved(f, self.shown()));
        assert(relocate_all(f, self.shown()) == moved_handles(moves, self.shown()));
        assert forall|slot: int| 0 <= slot < o.len() && #[trigger] reachable(o, self.shown(), slot) implies moves.dom().contains(
            slot,
        ) by {
            let n = choose|n: nat| reachable_within(o, self.shown(), slot, n);
            self.lemma_reachable_moved(slot, n);
        }
        assert forall|k: int| 0 <= k < t.len() implies #[trigger] cell_ok(t, k) by {
            assert(self.source_ok(k));
            assert(self.to_ok(k));
            let i = self.source()[k];
            assert(cell_ok(o, i));
            let cs = o[i].children();
            assert(all_moved(f, cs));
            assert(relocate_all(f, cs) == moved_handles(moves, cs));
            assert forall|c: int| 0 <= c < t[k].children().len() implies (#[trigger] t[k].children()[c]).in_bounds(
                t.len(),
            ) by {
                assert(is_moved(f, cs[c]));
                assert(t[k].children()[c] == relocated(f, cs[c]));
            }
            if let CellView::ThawOnWrite(Value::Ptr(target)) = t[k] {
                assert(is_moved(f, cs[0]));
                let j = cs[0]->Ptr_0;
                assert(self.from_ok(j as int));
                assert(self.to_ok(target as int));
                assert(self.source_ok(target as int));
            }
        }
    }

    /// Between two roots, every cell within reach of a root has moved.
    proof fn lemma_reachable_moved(&self, slot: int, steps: nat)
        requires
            self.wf(),
            0 <= slot < self.origin().len(),
            reachable_within(self.origin(), self.shown(), slot, steps),
        ensures
            self.from_space()[slot] is Copied,
        decreases steps,
    {
        let o = self.origin();
        let f = self.from_space();
        if is_root(self.shown(), slot) {
            let r = choose|r: int| 0 <= r < self.shown().len() && self.shown()[r] == Value::Ptr(slot as usize);
            assert(is_moved(f, self.shown()[r]));
        } else {
            let via = choose|via: int|
                #![trigger points_to(o, via, slot)]
                points_to(o, via, slot) && reachable_within(o, self.shown(), via, (steps - 1) as nat);
            self.lemma_reachable_moved(via, (steps - 1) as nat);
            assert(self.from_ok(via));
            let k = self.moves()[via];
            assert(self.to_ok(k));
            let c = choose|c: int| 0 <= c < o[via].children().len() && o[via].children()[c] == Value::Ptr(slot as usize);
            assert(is_moved(f, o[via].children()[c]));
        }
    }

    /// Moves the cell that `value` points to, and all that it reaches, and
    /// returns the cell's handle in the to-space. A handle whose cell has
    /// moved already gets the place recorded then, and nothing is allocated.
    fn adjust_cell(&mut self, value: Value) -> (moved: Value)
        requires
            old(self).inv(),
            value.in_bounds(old(self).origin().len()),
            handle_reachable(old(self).origin(), old(self).shown(), value),
        ensures
            final(self).inv(),
            final(self).extends(old(self)),
            is_moved(final(self).from_space(), value),
            moved == relocated(final(self).from_space(), value),
            is_moved(old(self).from_space(), value) ==> {
                &&& final(self).from_space() == old(self).from_space()
                &&& final(self).to_space() == old(self).to_space()
                &&& final(self).source() == old(self).source()
            },
            !is_moved(old(self).from_space(), value) ==> (moved matches Value::Ptr(place) && place == old(self).to_space().len()),
        decreases unmigrated(old(self).from_space()), 0nat,
    {
        let slot = match value {
            Value::Frozen(_) => {
                return value;
            },
            Value::Ptr(slot) => slot,
        };
        assert(old(self).from_ok(slot as int));
        if let ValueMem::Copied(target) = self.from.get(slot) {
            return *target;
        }
        let ghost entry = *self;
        let ghost source_cell = self.origin@[slot as int];
        let place = self.to.allocate(ValueMem::Blackhole);
        let target = Value::Ptr(place);
        let cell = self.from.replace(slot, ValueMem::Copied(target));
        proof {
            self.source = Ghost(self.source@.push(slot as int));
            assert(cell@ == source_cell);
            assert(cell_ok(self.origin@, slot as int));
            lemma_unmigrated_mark(entry.from_space(), slot as int, target);
            assert(self.from_space() =~= entry.from_space().update(slot as int, CellView::Copied(target)));
            assert(self.to_space() =~= entry.to_space().push(CellView::Blackhole));
            assert(markers_kept(entry.from_space(), self.from_space()));
            assert forall|k: int| 0 <= k < self.to_space().len() implies #[trigger] self.source_ok(k) by {
                if k < place {
                    assert(entry.source_ok(k));
                }
            }
            assert forall|i: int| 0 <= i < self.from_space().len() implies #[trigger] self.from_ok(i) by {
                assert(entry.from_ok(i));
            }
            assert forall|k: int| 0 <= k < self.to_space().len() implies #[trigger] self.to_ok(k) by {
                if k < place {
                    assert(entry.to_ok(k));
                    assert(entry.source_ok(k));
                    if !(entry.to_space()[k] is Blackhole) {
                        lemma_settled_kept(
                            entry.from_space(),
                            self.from_space(),
                            entry.origin()[entry.source()[k]],
                            entry.to_space()[k],
                        );
                    }
                }
            }
        }
        let ghost marked = *self;
        proof {
            assert(marked.extends(&marked));
            lemma_children_reachable(self.origin@, self.shown@, slot as int);
            if source_cell.children().len() > 0 {
                assert(source_cell.children()[0].in_bounds(self.origin@.len()));
                assert(handle_reachable(self.origin@, self.shown@, source_cell.children()[0]));
            }
        }
        let copy = match cell {
            ValueMem::Ref(inner) => ValueMem::Ref(self.adjust_cell(inner)),
            ValueMem::ThawOnWrite(inner) => ValueMem::ThawOnWrite(self.adjust_cell(inner)),
            ValueMem::Mutable(payload) => ValueMem::Mutable(self.adjust_payload(payload)),
            ValueMem::Pseudo(payload) => ValueMem::Pseudo(self.adjust_payload(payload)),
            other => other,
        };
        let ghost walked = *self;
        proof {
            assert(walked.extends(&marked));
            assert(marked.from_space()[slot as int] is Copied);
            assert(walked.from_space()[slot as int] == CellView::Copied(target));
            assert(settled(walked.from_space(), source_cell, copy@)) by {
                assert(relocate_all(walked.from_space(), source_cell.children()) =~= copy@.children());
            }
            assert(walked.to_space()[place as int] == marked.to_space()[place as int]);
        }
        self.to.replace(place, copy);
        proof {
            assert(self.to_space() =~= walked.to_space().update(place as int, copy@));
            assert forall|k: int| 0 <= k < self.to_space().len() implies #[trigger] self.source_ok(k) by {
                assert(walked.source_ok(k));
            }
            assert forall|i: int| 0 <= i < self.from_space().len() implies #[trigger] self.from_ok(i) by {
                assert(walked.from_ok(i));
            }
            assert forall|k: int| 0 <= k < self.to_space().len() implies #[trigger] self.to_ok(k) by {
                assert(walked.to_ok(k));
                assert(walked.source()[place as int] == slot);
            }
        }
        target
    }

    /// Moves all that `payload` owns, and returns it with each handle
    /// replaced by the handle's new place.
    fn adjust_payload(&mut self, payload: Payload<Value>) -> (moved: Payload<Value>)
        requires
            old(self).inv(),
            all_in_bounds(payload@.children, old(self).origin().len()),
            all_reachable(old(self).origin(), old(self).shown(), payload@.children),
        ensures
            final(self).inv(),
            final(self).extends(old(self)),
            all_moved(final(self).from_space(), payload@.children),
            moved@ == (PayloadView {
                children: relocate_all(final(self).from_space(), payload@.children),
                ..payload@
            }),
        decreases unmigrated(old(self).from_space()), 1nat,
    {
        let ghost entry = *self;
        let ghost given = payload@;
        let ghost before = given.children;
        let mut payload = payload;
        let mut c: usize = 0;
        while c < payload.children.len()
            invariant
                self.inv(),
                self.extends(&entry),
                entry == *old(self),
                c <= before.len(),
                payload@.children.len() == before.len(),
                payload@.kind == given.kind,
                payload@.naturally_mutable == given.naturally_mutable,
                payload@.scalar == given.scalar,
                all_in_bounds(before, self.origin().len()),
                all_reachable(self.origin(), self.shown(), before),
                forall|d: int| 0 <= d < c ==> is_moved(self.from_space(), #[trigger] before[d])
                    && payload@.children[d] == relocated(self.from_space(), before[d]),
                forall|d: int| c <= d < before.len() ==> payload@.children[d] == #[trigger] before[d],
            decreases before.len() - c,
        {
            let ghost step = *self;
            assert(before[c as int].in_bounds(self.origin().len()));
            assert(handle_reachable(self.origin(), self.shown(), before[c as int]));
            let child = payload.children[c];
            let moved = self.adjust_cell(child);
            payload.children[c] = moved;
            proof {
                assert forall|d: int| 0 <= d < c + 1 implies is_moved(self.from_space(), #[trigger] before[d])
                    && payload@.children[d] == relocated(self.from_space(), before[d]) by {
                    if d < c {
                        assert(is_moved(step.from_space(), before[d]));
                    }
                }
            }
            c += 1;
        }
        proof {
            assert(payload@.children =~= relocate_all(self.from_space(), before));
        }
        payload
    }
}

impl Payload<Value> {
    /// Shows all that the value owns to a collection, and points each
    /// handle to the new place of its cell.
    pub fn walk(&mut self, walker: &mut Walker)
        requires
            old(walker).wf(),
            all_in_bounds(old(self)@.children, old(walker).origin().len()),
        ensures
            final(walker).wf(),
            final(walker).origin() == old(walker).origin(),
            final(walker).shown() == old(walker).shown() + old(self)@.children,
            markers_kept(old(walker).from_space(), final(walker).from_space()),
            grown_from(final(walker).to_space(), old(walker).to_space()),
            all_moved(final(walker).from_space(), old(self)@.children),
            final(self)@ == (PayloadView {
                children: relocate_all(final(walker).from_space(), old(self)@.children),
                ..old(self)@
            }),
    {
        walker.walk_all(&mut self.children);
    }
}

} // verus!
