//! Freezing: the one-way move of values from the heap under evaluation
//! into a frozen heap.
//!
//! A cell that has been frozen leaves a `Forward` marker behind, which holds
//! its frozen handle, so a cell that is reached twice is frozen once.

use vstd::prelude::*;
use vstd::pervasive::unreached;
use crate::values::frozen_heap::{FrozenHeap, FrozenHeapRef};
use crate::values::heap::{cell_ok, well_formed, Heap};
use crate::values::typed::{AllocFrozenValue, FrozenAllocation};
use crate::values::value::{
    CellView, FrozenCellView, FrozenValue, FrozenValueMem, HeapId, Payload, PayloadView, Value, ValueMem,
};
use crate::values::walker::{
    grown_from, has_source, is_collection, lemma_with_children, moved_handle, moved_handles, moved_ok,
};

verus! {

/// Whether `v` is frozen already, or points to a cell that has been.
pub open spec fn is_forwarded(cells: Seq<CellView>, v: Value) -> bool {
    match v {
        Value::Frozen(_) => true,
        Value::Ptr(slot) => slot < cells.len() && cells[slot as int] is Forward,
    }
}

/// The frozen handle that the `Forward` marker in the slot of `v` holds.
pub open spec fn forwarded(cells: Seq<CellView>, v: Value) -> FrozenValue {
    match v {
        Value::Frozen(f) => f,
        Value::Ptr(slot) => match cells[slot as int] {
            CellView::Forward(f) => f,
            _ => FrozenValue::Unassigned,
        },
    }
}

/// Whether freezing `v` has nothing left to do: `v` is frozen, its cell
/// has been, or its cell stands for something of which that holds.
pub open spec fn is_frozen(cells: Seq<CellView>, v: Value) -> bool {
    match v {
        Value::Frozen(_) => true,
        Value::Ptr(slot) => slot < cells.len() && match cells[slot as int] {
            CellView::ThawOnWrite(target) => is_forwarded(cells, target),
            cell => cell is Forward,
        },
    }
}

/// What `v` freezes to. A thaw-on-write cell freezes to what its target
/// freezes to; any other cell to what its `Forward` marker holds.
pub open spec fn frozen_handle(cells: Seq<CellView>, v: Value) -> FrozenValue {
    match v {
        Value::Frozen(f) => f,
        Value::Ptr(slot) => match cells[slot as int] {
            CellView::ThawOnWrite(target) => forwarded(cells, target),
            _ => forwarded(cells, v),
        },
    }
}

/// `is_frozen` holds of each of `vs`.
pub open spec fn all_frozen(cells: Seq<CellView>, vs: Seq<Value>) -> bool {
    forall|c: int| 0 <= c < vs.len() ==> is_frozen(cells, #[trigger] vs[c])
}

/// Each of `vs` as `frozen_handle` gives it.
pub open spec fn freeze_all(cells: Seq<CellView>, vs: Seq<Value>) -> Seq<FrozenValue> {
    Seq::new(vs.len(), |c: int| frozen_handle(cells, vs[c]))
}

/// The frozen counterpart of the value `p`: the same value, each handle
/// frozen.
pub open spec fn frozen_payload(cells: Seq<CellView>, p: PayloadView<Value>) -> PayloadView<FrozenValue> {
    PayloadView {
        kind: p.kind,
        naturally_mutable: p.naturally_mutable,
        scalar: p.scalar,
        children: freeze_all(cells, p.children),
    }
}

/// A cell with a value of its own, which freezing moves.
pub open spec fn moves_on_freeze(cell: CellView) -> bool {
    cell is Str || cell is Immutable || cell is Mutable || cell is Pseudo
}

/// The frozen cell that `cell` becomes: a string stays the string, an
/// immutable value stays as it is, a mutable or pseudo-mutable value becomes
/// the immutable value with each handle frozen.
pub open spec fn frozen_cell(cells: Seq<CellView>, cell: CellView) -> FrozenCellView {
    match cell {
        CellView::Str(s) => FrozenCellView::Str(s),
        CellView::Immutable(p) => FrozenCellView::Immutable(p),
        CellView::Mutable(p) => FrozenCellView::Immutable(frozen_payload(cells, p)),
        CellView::Pseudo(p) => FrozenCellView::Immutable(frozen_payload(cells, p)),
        _ => FrozenCellView::Blackhole,
    }
}

/// The handles of a cell that freezing follows.
pub open spec fn frozen_children(cell: CellView) -> Seq<Value> {
    match cell {
        CellView::Mutable(p) => p.children,
        CellView::Pseudo(p) => p.children,
        _ => Seq::empty(),
    }
}

/// A handle that can be frozen: it is frozen, or it points to a cell that
/// holds a value, a thaw-on-write cell, or a `Forward` marker.
pub open spec fn freezable_handle(cells: Seq<CellView>, v: Value) -> bool {
    v matches Value::Ptr(slot) ==> slot < cells.len() && (moves_on_freeze(cells[slot as int])
        || cells[slot as int] is ThawOnWrite || cells[slot as int] is Forward)
}

/// `freezable_handle` holds of each of `vs`.
pub open spec fn all_freezable(cells: Seq<CellView>, vs: Seq<Value>) -> bool {
    forall|c: int| 0 <= c < vs.len() ==> freezable_handle(cells, #[trigger] vs[c])
}

/// Every handle that freezing would follow from the cell in `slot` can be
/// frozen, and a thaw-on-write cell does not stand for another one.
pub open spec fn freezable_cell(cells: Seq<CellView>, slot: int) -> bool {
    match cells[slot] {
        CellView::Mutable(p) => all_freezable(cells, p.children),
        CellView::Pseudo(p) => all_freezable(cells, p.children),
        CellView::ThawOnWrite(target) => freezable_handle(cells, target) && (target matches Value::Ptr(t)
            ==> !(cells[t as int] is ThawOnWrite)),
        _ => true,
    }
}

/// A heap in which freezing meets no cell that it cannot take.
pub open spec fn freezable(cells: Seq<CellView>) -> bool {
    forall|slot: int| 0 <= slot < cells.len() ==> #[trigger] freezable_cell(cells, slot)
}

/// The handles of a cell that freezing goes on to: what a mutable or
/// pseudo-mutable value owns, and what a thaw-on-write cell stands for.
pub open spec fn freeze_follows(cell: CellView) -> Seq<Value> {
    match cell {
        CellView::Mutable(p) => p.children,
        CellView::Pseudo(p) => p.children,
        CellView::ThawOnWrite(target) => seq![target],
        _ => Seq::empty(),
    }
}

/// Freezing the cell in slot `from` goes on to the cell in slot `to`.
pub open spec fn freeze_edge(cells: Seq<CellView>, from: int, to: int) -> bool {
    &&& 0 <= from < cells.len()
    &&& 0 <= to <= usize::MAX
    &&& freeze_follows(cells[from]).contains(Value::Ptr(to as usize))
}

/// Freezing `value` comes to the cell in `slot` after at most `steps` cells.
pub open spec fn freeze_reaches_within(cells: Seq<CellView>, value: Value, slot: int, steps: nat) -> bool
    decreases steps,
{
    ||| value matches Value::Ptr(s) && s == slot
    ||| steps > 0 && exists|via: int|
        #![trigger freeze_edge(cells, via, slot)]
        freeze_edge(cells, via, slot) && freeze_reaches_within(cells, value, via, (steps - 1) as nat)
}

/// Freezing `value` comes to the cell in `slot`.
pub open spec fn freeze_reaches(cells: Seq<CellView>, value: Value, slot: int) -> bool {
    exists|steps: nat| freeze_reaches_within(cells, value, slot, steps)
}

/// Freezing `value` meets no cell that it cannot take: `value` can be
/// frozen, and so can every handle that freezing goes on to from a cell
/// that it comes to.
pub open spec fn can_freeze(cells: Seq<CellView>, value: Value) -> bool {
    &&& freezable_handle(cells, value)
    &&& forall|slot: int| #[trigger]
        freeze_reaches(cells, value, slot) ==> 0 <= slot < cells.len() && freezable_cell(cells, slot)
}

/// `can_freeze` holds of each of `vs`.
pub open spec fn all_can_freeze(cells: Seq<CellView>, vs: Seq<Value>) -> bool {
    forall|c: int| 0 <= c < vs.len() ==> can_freeze(cells, #[trigger] vs[c])
}

/// Freezing one of `vs` comes to the cell in `slot`.
pub open spec fn freeze_reaches_any(cells: Seq<CellView>, vs: Seq<Value>, slot: int) -> bool {
    exists|c: int| 0 <= c < vs.len() && freeze_reaches(cells, #[trigger] vs[c], slot)
}

/// No cell was frozen between `before` and `after` but those that freezing
/// `value` comes to.
pub open spec fn froze_within(before: Seq<CellView>, after: Seq<CellView>, value: Value) -> bool {
    forall|slot: int| #[trigger] newly_frozen(before, after, slot) ==> freeze_reaches(before, value, slot)
}

/// No cell was frozen between `before` and `after` but those that freezing
/// one of `vs` comes to.
pub open spec fn froze_within_any(before: Seq<CellView>, after: Seq<CellView>, vs: Seq<Value>) -> bool {
    forall|slot: int| #[trigger] newly_frozen(before, after, slot) ==> freeze_reaches_any(before, vs, slot)
}

/// The number of cells of `cells` that have not been frozen.
pub open spec fn unforwarded(cells: Seq<CellView>) -> nat
    decreases cells.len(),
{
    if cells.len() == 0 {
        0
    } else {
        unforwarded(cells.drop_last()) + if cells.last() is Forward { 0nat } else { 1nat }
    }
}

/// 1 where `v` points to a thaw-on-write cell, else 0.
pub open spec fn thaw_rank(cells: Seq<CellView>, v: Value) -> nat {
    match v {
        Value::Ptr(slot) => if slot < cells.len() && cells[slot as int] is ThawOnWrite { 1 } else { 0 },
        Value::Frozen(_) => 0,
    }
}

/// The cell in `slot` was frozen between `before` and `after`.
pub open spec fn newly_frozen(before: Seq<CellView>, after: Seq<CellView>, slot: int) -> bool {
    &&& 0 <= slot < before.len()
    &&& !(before[slot] is Forward)
    &&& after[slot] is Forward
}

/// What became of the cell in `slot` between two states of a heap and of
/// the frozen heap `id`, which had `was` cells and now holds `now`: it is
/// as it was, or it was frozen: it held a value of its own, and a frozen
/// cell that was not there before holds that value now.
pub open spec fn cell_step_ok(
    before: Seq<CellView>,
    after: Seq<CellView>,
    id: HeapId,
    was: nat,
    now: Seq<FrozenCellView>,
    slot: int,
) -> bool {
    if newly_frozen(before, after, slot) {
        &&& moves_on_freeze(before[slot])
        &&& after[slot] matches CellView::Forward(FrozenValue::Ptr { heap, slot: place })
        &&& heap == id
        &&& was <= place < now.len()
        &&& now[place as int] == frozen_cell(after, before[slot])
        &&& all_frozen(after, frozen_children(before[slot]))
    } else {
        after[slot] == before[slot]
    }
}

/// The cell in `slot` holds a `Forward` marker to slot `place` of the
/// frozen heap `id`.
pub open spec fn frozen_to(after: Seq<CellView>, id: HeapId, slot: int, place: int) -> bool {
    after[slot] matches CellView::Forward(FrozenValue::Ptr { heap, slot: p }) && heap == id && p == place
}

/// Some cell was frozen between `before` and `after` into slot `place` of
/// the frozen heap `id`.
pub open spec fn has_origin(before: Seq<CellView>, after: Seq<CellView>, id: HeapId, place: int) -> bool {
    exists|slot: int|
        #![trigger newly_frozen(before, after, slot)]
        newly_frozen(before, after, slot) && frozen_to(after, id, slot, place)
}

/// What freezing does between two states of a heap (`before`, `after`) and
/// of the frozen heap `id` (`was`, `now`).
///
/// The frozen heap keeps the cells it had and gains one for each cell that
/// was frozen, and no other. A cell of the heap that was not frozen is as it
/// was. A cell that was frozen holds a `Forward` marker to a frozen cell of
/// its own, which holds what the cell held, each handle frozen.
pub open spec fn is_freeze(
    before: Seq<CellView>,
    after: Seq<CellView>,
    id: HeapId,
    was: Seq<FrozenCellView>,
    now: Seq<FrozenCellView>,
) -> bool {
    &&& before.len() == after.len()
    &&& grown_from(now, was)
    &&& forall|slot: int| 0 <= slot < before.len() ==> #[trigger] cell_step_ok(before, after, id, was.len(), now, slot)
    &&& forall|i: int, j: int|
        #![trigger newly_frozen(before, after, i), newly_frozen(before, after, j)]
        newly_frozen(before, after, i) && newly_frozen(before, after, j) && after[i] == after[j] ==> i == j
    &&& forall|place: int| was.len() <= place < now.len() ==> #[trigger] has_origin(before, after, id, place)
    &&& unforwarded(after) <= unforwarded(before)
}

/// Between `before` and `after` no cell changed, but that some that held a
/// value of their own were frozen.
pub open spec fn only_frozen(before: Seq<CellView>, after: Seq<CellView>) -> bool {
    &&& before.len() == after.len()
    &&& forall|slot: int|
        0 <= slot < before.len() ==> #[trigger] after[slot] == before[slot] || (newly_frozen(before, after, slot)
            && moves_on_freeze(before[slot]))
}

/// A handle that can be frozen can be frozen after more cells were.
pub proof fn lemma_handle_kept(before: Seq<CellView>, after: Seq<CellView>, v: Value)
    requires
        only_frozen(before, after),
        freezable_handle(before, v),
    ensures
        freezable_handle(after, v),
        (v matches Value::Ptr(s) && !(before[s as int] is ThawOnWrite)) ==> !(after[v->Ptr_0 as int] is ThawOnWrite),
{
    if let Value::Ptr(s) = v {
        assert(after[s as int] == before[s as int] || (newly_frozen(before, after, s as int) && moves_on_freeze(
            before[s as int],
        )));
    }
}

proof fn lemma_reaches_back(before: Seq<CellView>, after: Seq<CellView>, v: Value, slot: int, steps: nat)
    requires
        only_frozen(before, after),
        freeze_reaches_within(after, v, slot, steps),
    ensures
        freeze_reaches_within(before, v, slot, steps),
    decreases steps,
{
    if !(v matches Value::Ptr(s) && s == slot) {
        let via = choose|via: int|
            #![trigger freeze_edge(after, via, slot)]
            freeze_edge(after, via, slot) && freeze_reaches_within(after, v, via, (steps - 1) as nat);
        lemma_reaches_back(before, after, v, via, (steps - 1) as nat);
        assert(after[via] == before[via] || (newly_frozen(before, after, via) && moves_on_freeze(before[via])));
        assert(freeze_edge(before, via, slot));
    }
}

/// What can be frozen can be frozen after more cells were.
pub proof fn lemma_can_freeze_kept(before: Seq<CellView>, after: Seq<CellView>, v: Value)
    requires
        only_frozen(before, after),
        can_freeze(before, v),
    ensures
        can_freeze(after, v),
{
    lemma_handle_kept(before, after, v);
    assert forall|slot: int| #[trigger] freeze_reaches(after, v, slot) implies 0 <= slot < after.len()
        && freezable_cell(after, slot) by {
        let steps = choose|steps: nat| freeze_reaches_within(after, v, slot, steps);
        lemma_reaches_back(before, after, v, slot, steps);
        assert(freeze_reaches(before, v, slot));
        assert(freezable_cell(before, slot));
        assert(after[slot] == before[slot] || (newly_frozen(before, after, slot) && moves_on_freeze(before[slot])));
        if after[slot] == before[slot] {
            match before[slot] {
                CellView::Mutable(p) => {
                    assert forall|c: int| 0 <= c < p.children.len() implies freezable_handle(
                        after,
                        #[trigger] p.children[c],
                    ) by {
                        lemma_handle_kept(before, after, p.children[c]);
                    }
                },
                CellView::Pseudo(p) => {
                    assert forall|c: int| 0 <= c < p.children.len() implies freezable_handle(
                        after,
                        #[trigger] p.children[c],
                    ) by {
                        lemma_handle_kept(before, after, p.children[c]);
                    }
                },
                CellView::ThawOnWrite(target) => {
                    lemma_handle_kept(before, after, target);
                },
                _ => {},
            }
        }
    }
}

/// What can be frozen can be frozen after more cells were, all of it.
pub proof fn lemma_all_can_freeze_kept(before: Seq<CellView>, after: Seq<CellView>, vs: Seq<Value>)
    requires
        only_frozen(before, after),
        all_can_freeze(before, vs),
    ensures
        all_can_freeze(after, vs),
{
    assert forall|c: int| 0 <= c < vs.len() implies can_freeze(after, #[trigger] vs[c]) by {
        lemma_can_freeze_kept(before, after, vs[c]);
    }
}

proof fn lemma_reaches_from_child(cells: Seq<CellView>, value: Value, child: Value, slot: int, steps: nat)
    requires
        value matches Value::Ptr(s) && s < cells.len() && freeze_follows(cells[s as int]).contains(child),
        freeze_reaches_within(cells, child, slot, steps),
    ensures
        freeze_reaches_within(cells, value, slot, steps + 1),
    decreases steps,
{
    let s = value->Ptr_0 as int;
    if child matches Value::Ptr(t) && t == slot {
        assert(freeze_edge(cells, s, slot));
        assert(freeze_reaches_within(cells, value, s, ((steps + 1) - 1) as nat));
    } else {
        let via = choose|via: int|
            #![trigger freeze_edge(cells, via, slot)]
            freeze_edge(cells, via, slot) && freeze_reaches_within(cells, child, via, (steps - 1) as nat);
        lemma_reaches_from_child(cells, value, child, via, (steps - 1) as nat);
        assert(freeze_reaches_within(cells, value, via, ((steps + 1) - 1) as nat));
    }
}

/// Where a value can be frozen, so can everything that freezing goes on to
/// from its cell.
pub proof fn lemma_can_freeze_child(cells: Seq<CellView>, value: Value, child: Value)
    requires
        can_freeze(cells, value),
        value matches Value::Ptr(s) && s < cells.len() && freeze_follows(cells[s as int]).contains(child),
    ensures
        can_freeze(cells, child),
        (cells[value->Ptr_0 as int] is ThawOnWrite && child is Ptr) ==> !(cells[child->Ptr_0 as int] is ThawOnWrite),
{
    let s = value->Ptr_0 as int;
    assert(freeze_reaches_within(cells, value, s, 0));
    assert(freeze_reaches(cells, value, s));
    assert(freezable_cell(cells, s));
    let c = choose|c: int| 0 <= c < freeze_follows(cells[s]).len() && freeze_follows(cells[s])[c] == child;
    assert(freezable_handle(cells, freeze_follows(cells[s])[c]));
    assert forall|slot: int| #[trigger] freeze_reaches(cells, child, slot) implies 0 <= slot < cells.len()
        && freezable_cell(cells, slot) by {
        let steps = choose|steps: nat| freeze_reaches_within(cells, child, slot, steps);
        lemma_reaches_from_child(cells, value, child, slot, steps);
        assert(freeze_reaches(cells, value, slot));
    }
}

/// What freezing comes to after more cells were frozen, it came to before.
pub proof fn lemma_reaches_kept(before: Seq<CellView>, after: Seq<CellView>, v: Value, slot: int)
    requires
        only_frozen(before, after),
        freeze_reaches(after, v, slot),
    ensures
        freeze_reaches(before, v, slot),
{
    let steps = choose|steps: nat| freeze_reaches_within(after, v, slot, steps);
    lemma_reaches_back(before, after, v, slot, steps);
}

/// What freezing comes to from something that a cell owns, it comes to
/// from the cell.
pub proof fn lemma_reaches_via(cells: Seq<CellView>, value: Value, child: Value, slot: int)
    requires
        value matches Value::Ptr(s) && s < cells.len() && freeze_follows(cells[s as int]).contains(child),
        freeze_reaches(cells, child, slot),
    ensures
        freeze_reaches(cells, value, slot),
{
    let steps = choose|steps: nat| freeze_reaches_within(cells, child, slot, steps);
    lemma_reaches_from_child(cells, value, child, slot, steps);
}

proof fn lemma_reaches_in_bounds(cells: Seq<CellView>, v: Value, slot: int, steps: nat)
    requires
        freezable(cells),
        freezable_handle(cells, v),
        freeze_reaches_within(cells, v, slot, steps),
    ensures
        0 <= slot < cells.len(),
    decreases steps,
{
    if !(v matches Value::Ptr(s) && s == slot) {
        let via = choose|via: int|
            #![trigger freeze_edge(cells, via, slot)]
            freeze_edge(cells, via, slot) && freeze_reaches_within(cells, v, via, (steps - 1) as nat);
        assert(freezable_cell(cells, via));
        let follows = freeze_follows(cells[via]);
        let c = choose|c: int| 0 <= c < follows.len() && follows[c] == Value::Ptr(slot as usize);
        assert(freezable_handle(cells, follows[c]));
    }
}

/// In a heap that is fit for freezing, every handle that can be frozen
/// can be frozen with all that it reaches.
pub proof fn lemma_freezable_can_freeze(cells: Seq<CellView>, v: Value)
    requires
        freezable(cells),
        freezable_handle(cells, v),
    ensures
        can_freeze(cells, v),
{
    assert forall|slot: int| #[trigger] freeze_reaches(cells, v, slot) implies 0 <= slot < cells.len()
        && freezable_cell(cells, slot) by {
        let steps = choose|steps: nat| freeze_reaches_within(cells, v, slot, steps);
        lemma_reaches_in_bounds(cells, v, slot, steps);
    }
}

/// Marking a cell that was not frozen leaves one less to freeze.
proof fn lemma_unforwarded_mark(cells: Seq<CellView>, slot: int, target: FrozenValue)
    requires
        0 <= slot < cells.len(),
        !(cells[slot] is Forward),
    ensures
        unforwarded(cells.update(slot, CellView::Forward(target))) + 1 == unforwarded(cells),
    decreases cells.len(),
{
    let marked = cells.update(slot, CellView::Forward(target));
    if slot == cells.len() - 1 {
        assert(marked.drop_last() =~= cells.drop_last());
    } else {
        lemma_unforwarded_mark(cells.drop_last(), slot, target);
        assert(marked.drop_last() =~= cells.drop_last().update(slot, CellView::Forward(target)));
    }
}

/// What is frozen stays frozen, to the same handle.
pub proof fn lemma_frozen_for_good(before: Seq<CellView>, after: Seq<CellView>, v: Value)
    requires
        only_frozen(before, after),
        is_frozen(before, v),
    ensures
        is_frozen(after, v),
        frozen_handle(after, v) == frozen_handle(before, v),
{
    if let Value::Ptr(slot) = v {
        assert(after[slot as int] == before[slot as int]);
        if let CellView::ThawOnWrite(Value::Ptr(t)) = before[slot as int] {
            assert(after[t as int] == before[t as int]);
        }
    }
}

/// What is frozen stays frozen, to the same handles, all of it.
pub proof fn lemma_all_frozen_for_good(before: Seq<CellView>, after: Seq<CellView>, vs: Seq<Value>)
    requires
        only_frozen(before, after),
        all_frozen(before, vs),
    ensures
        all_frozen(after, vs),
        freeze_all(after, vs) == freeze_all(before, vs),
{
    assert forall|c: int| 0 <= c < vs.len() implies is_frozen(after, #[trigger] vs[c]) && frozen_handle(
        after,
        vs[c],
    ) == frozen_handle(before, vs[c]) by {
        lemma_frozen_for_good(before, after, vs[c]);
    }
    assert(freeze_all(after, vs) =~= freeze_all(before, vs));
}

/// A freeze changes no cell but those that it freezes.
pub proof fn lemma_freeze_only_freezes(
    before: Seq<CellView>,
    after: Seq<CellView>,
    id: HeapId,
    was: Seq<FrozenCellView>,
    now: Seq<FrozenCellView>,
)
    requires
        is_freeze(before, after, id, was, now),
    ensures
        only_frozen(before, after),
{
    assert forall|slot: int| 0 <= slot < before.len() implies #[trigger] after[slot] == before[slot] || (
    newly_frozen(before, after, slot) && moves_on_freeze(before[slot])) by {
        assert(cell_step_ok(before, after, id, was.len(), now, slot));
    }
}

/// Doing nothing is a freeze.
pub proof fn lemma_freeze_nothing(cells: Seq<CellView>, id: HeapId, frozen: Seq<FrozenCellView>)
    ensures
        is_freeze(cells, cells, id, frozen, frozen),
{
}

/// One freeze after another is a freeze.
pub proof fn lemma_freeze_then_freeze(
    h0: Seq<CellView>,
    h1: Seq<CellView>,
    h2: Seq<CellView>,
    id: HeapId,
    f0: Seq<FrozenCellView>,
    f1: Seq<FrozenCellView>,
    f2: Seq<FrozenCellView>,
)
    requires
        is_freeze(h0, h1, id, f0, f1),
        is_freeze(h1, h2, id, f1, f2),
    ensures
        is_freeze(h0, h2, id, f0, f2),
{
    lemma_freeze_only_freezes(h0, h1, id, f0, f1);
    lemma_freeze_only_freezes(h1, h2, id, f1, f2);
    assert forall|slot: int| 0 <= slot < h0.len() implies #[trigger] cell_step_ok(h0, h2, id, f0.len(), f2, slot) by {
        assert(cell_step_ok(h0, h1, id, f0.len(), f1, slot));
        assert(cell_step_ok(h1, h2, id, f1.len(), f2, slot));
        if newly_frozen(h0, h1, slot) {
            lemma_all_frozen_for_good(h1, h2, frozen_children(h0[slot]));
        }
    }
    assert forall|i: int, j: int|
        #![trigger newly_frozen(h0, h2, i), newly_frozen(h0, h2, j)]
        newly_frozen(h0, h2, i) && newly_frozen(h0, h2, j) && h2[i] == h2[j] implies i == j by {
        assert(cell_step_ok(h0, h1, id, f0.len(), f1, i));
        assert(cell_step_ok(h1, h2, id, f1.len(), f2, i));
        assert(cell_step_ok(h0, h1, id, f0.len(), f1, j));
        assert(cell_step_ok(h1, h2, id, f1.len(), f2, j));
        if newly_frozen(h0, h1, i) && newly_frozen(h0, h1, j) {
        } else if newly_frozen(h1, h2, i) && newly_frozen(h1, h2, j) {
        }
    }
    assert forall|place: int| f0.len() <= place < f2.len() implies #[trigger] has_origin(h0, h2, id, place) by {
        if place < f1.len() {
            assert(has_origin(h0, h1, id, place));
            let slot = choose|slot: int|
                #![trigger newly_frozen(h0, h1, slot)]
                newly_frozen(h0, h1, slot) && frozen_to(h1, id, slot, place);
            assert(cell_step_ok(h1, h2, id, f1.len(), f2, slot));
            assert(newly_frozen(h0, h2, slot));
        } else {
            assert(has_origin(h1, h2, id, place));
            let slot = choose|slot: int|
                #![trigger newly_frozen(h1, h2, slot)]
                newly_frozen(h1, h2, slot) && frozen_to(h2, id, slot, place);
            assert(cell_step_ok(h0, h1, id, f0.len(), f1, slot));
            assert(newly_frozen(h0, h2, slot));
        }
    }
}

/// Freezing has nothing left to do in `slot`: the cell there is frozen, or
/// it is a thaw-on-write cell that stands for something frozen.
pub open spec fn slot_frozen(cells: Seq<CellView>, slot: int) -> bool {
    0 <= slot < cells.len() && match cells[slot] {
        CellView::ThawOnWrite(target) => is_forwarded(cells, target),
        cell => cell is Forward,
    }
}

proof fn lemma_reached_is_frozen(
    before: Seq<CellView>,
    after: Seq<CellView>,
    id: HeapId,
    was: Seq<FrozenCellView>,
    now: Seq<FrozenCellView>,
    value: Value,
    slot: int,
    steps: nat,
)
    requires
        is_freeze(before, after, id, was, now),
        can_freeze(before, value),
        is_frozen(after, value),
        freeze_reaches_within(before, value, slot, steps),
    ensures
        slot_frozen(after, slot),
    decreases steps,
{
    assert(freeze_reaches(before, value, slot));
    if !(value matches Value::Ptr(s) && s == slot) {
        let via = choose|via: int|
            #![trigger freeze_edge(before, via, slot)]
            freeze_edge(before, via, slot) && freeze_reaches_within(before, value, via, (steps - 1) as nat);
        lemma_reached_is_frozen(before, after, id, was, now, value, via, (steps - 1) as nat);
        assert(cell_step_ok(before, after, id, was.len(), now, via));
        let follows = freeze_follows(before[via]);
        let c = choose|c: int| 0 <= c < follows.len() && follows[c] == Value::Ptr(slot as usize);
        match before[via] {
            CellView::Mutable(p) => {
                assert(is_frozen(after, frozen_children(before[via])[c]));
            },
            CellView::Pseudo(p) => {
                assert(is_frozen(after, frozen_children(before[via])[c]));
            },
            _ => {},
        }
    }
}

/// Freezing leaves nothing unfrozen that it comes to: every cell that
/// freezing `value` comes to and that holds a value of its own is frozen
/// afterwards. With `froze_within`, the cells that a freeze freezes are
/// those that it comes to and that were not frozen before, and no others.
pub proof fn lemma_freeze_reaches_all(
    before: Seq<CellView>,
    after: Seq<CellView>,
    id: HeapId,
    was: Seq<FrozenCellView>,
    now: Seq<FrozenCellView>,
    value: Value,
    slot: int,
)
    requires
        is_freeze(before, after, id, was, now),
        can_freeze(before, value),
        is_frozen(after, value),
        freeze_reaches(before, value, slot),
    ensures
        slot_frozen(after, slot),
        moves_on_freeze(before[slot]) ==> newly_frozen(before, after, slot),
{
    let steps = choose|steps: nat| freeze_reaches_within(before, value, slot, steps);
    lemma_reached_is_frozen(before, after, id, was, now, value, slot, steps);
    assert(cell_step_ok(before, after, id, was.len(), now, slot));
}

/// Every cell that a freeze adds to the frozen heap holds a string or an
/// immutable value: none is left reserved, and none can change.
pub proof fn lemma_freeze_fills(
    before: Seq<CellView>,
    after: Seq<CellView>,
    id: HeapId,
    was: Seq<FrozenCellView>,
    now: Seq<FrozenCellView>,
    place: int,
)
    requires
        is_freeze(before, after, id, was, now),
        was.len() <= place < now.len(),
    ensures
        now[place] is Str || now[place] is Immutable,
{
    assert(has_origin(before, after, id, place));
    let slot = choose|slot: int|
        #![trigger newly_frozen(before, after, slot)]
        newly_frozen(before, after, slot) && frozen_to(after, id, slot, place);
    assert(cell_step_ok(before, after, id, was.len(), now, slot));
}

/// The frozen counterpart of a cell owns, in place of each handle that the
/// cell owned, what that handle froze to. So a cell that held a handle to
/// itself freezes to a cell that holds a handle to itself.
pub proof fn lemma_frozen_handles_follow(
    before: Seq<CellView>,
    after: Seq<CellView>,
    id: HeapId,
    was: Seq<FrozenCellView>,
    now: Seq<FrozenCellView>,
    slot: int,
    c: int,
)
    requires
        is_freeze(before, after, id, was, now),
        newly_frozen(before, after, slot),
        0 <= c < frozen_children(before[slot]).len(),
    ensures
        after[slot] matches CellView::Forward(FrozenValue::Ptr { heap, slot: place }) && heap == id && place
            < now.len() && (now[place as int] matches FrozenCellView::Immutable(p) && p.children.len()
            == frozen_children(before[slot]).len() && p.children[c] == frozen_handle(
            after,
            frozen_children(before[slot])[c],
        )),
        (frozen_children(before[slot])[c] matches Value::Ptr(s) && s == slot) ==> (now[after[slot]->Forward_0->slot as int]
            matches FrozenCellView::Immutable(p) && p.children[c] == after[slot]->Forward_0),
{
    assert(cell_step_ok(before, after, id, was.len(), now, slot));
}

/// Freezing leaves the heap fit for a collection.
pub proof fn lemma_freeze_keeps_well_formed(before: Seq<CellView>, after: Seq<CellView>)
    requires
        only_frozen(before, after),
        well_formed(before),
    ensures
        well_formed(after),
{
    assert forall|slot: int| 0 <= slot < after.len() implies #[trigger] cell_ok(after, slot) by {
        assert(cell_ok(before, slot));
        assert(after[slot] == before[slot] || (newly_frozen(before, after, slot) && moves_on_freeze(before[slot])));
        if after[slot] == before[slot] {
            if let CellView::ThawOnWrite(Value::Ptr(target)) = after[slot] {
                assert(before[slot].children()[0] == Value::Ptr(target));
                assert(after[target as int] == before[target as int] || (newly_frozen(before, after, target as int)
                    && moves_on_freeze(before[target as int])));
            }
        } else {
            assert(after[slot].children() =~= Seq::<Value>::empty());
        }
    }
}

/// A heap stays fit for freezing when a cell is added whose handles can be
/// frozen.
pub proof fn lemma_alloc_keeps_freezable(cells: Seq<CellView>, cell: CellView)
    requires
        freezable(cells),
        freezable_cell(cells.push(cell), cells.len() as int),
    ensures
        freezable(cells.push(cell)),
{
    let grown = cells.push(cell);
    assert forall|slot: int| 0 <= slot < grown.len() implies #[trigger] freezable_cell(grown, slot) by {
        if slot < cells.len() {
            assert(freezable_cell(cells, slot));
            match cells[slot] {
                CellView::Mutable(p) => {
                    assert forall|c: int| 0 <= c < p.children.len() implies freezable_handle(
                        grown,
                        #[trigger] p.children[c],
                    ) by {
                        assert(freezable_handle(cells, p.children[c]));
                    }
                },
                CellView::Pseudo(p) => {
                    assert forall|c: int| 0 <= c < p.children.len() implies freezable_handle(
                        grown,
                        #[trigger] p.children[c],
                    ) by {
                        assert(freezable_handle(cells, p.children[c]));
                    }
                },
                _ => {},
            }
        }
    }
}

/// A collection leaves the heap fit for freezing, and what could be frozen
/// can be frozen afterwards.
pub proof fn lemma_collection_keeps_freezable(
    before: Seq<CellView>,
    roots: Seq<Value>,
    after: Seq<CellView>,
    new_roots: Seq<Value>,
    moves: Map<int, int>,
)
    requires
        is_collection(before, roots, after, new_roots, moves),
        freezable(before),
    ensures
        freezable(after),
        forall|r: int|
            0 <= r < roots.len() && freezable_handle(before, #[trigger] roots[r]) ==> freezable_handle(
                after,
                new_roots[r],
            ),
{
    assert forall|v: Value| freezable_handle(before, v) && (v matches Value::Ptr(j) ==> moves.dom().contains(j as int))
        implies freezable_handle(after, moved_handle(moves, v)) && ((v matches Value::Ptr(j) && !(before[j as int] is ThawOnWrite))
        ==> (moved_handle(moves, v) matches Value::Ptr(k) && !(after[k as int] is ThawOnWrite))) by {
        if let Value::Ptr(j) = v {
            assert(moved_ok(before, roots, after, moves, j as int));
        }
    }
    assert forall|place: int| 0 <= place < after.len() implies #[trigger] freezable_cell(after, place) by {
        assert(has_source(moves, place));
        let slot = choose|slot: int| moves.dom().contains(slot) && #[trigger] moves[slot] == place;
        assert(moved_ok(before, roots, after, moves, slot));
        assert(freezable_cell(before, slot));
        let cs = before[slot].children();
        lemma_with_children(before[slot], moved_handles(moves, cs));
        match before[slot] {
            CellView::Mutable(p) => {
                assert forall|c: int| 0 <= c < cs.len() implies freezable_handle(
                    after,
                    #[trigger] after[place].children()[c],
                ) by {
                    assert(freezable_handle(before, p.children[c]));
                }
                assert(after[place] is Mutable);
                assert(after[place]->Mutable_0.children == after[place].children());
            },
            CellView::Pseudo(p) => {
                assert forall|c: int| 0 <= c < cs.len() implies freezable_handle(
                    after,
                    #[trigger] after[place].children()[c],
                ) by {
                    assert(freezable_handle(before, p.children[c]));
                }
                assert(after[place] is Pseudo);
                assert(after[place]->Pseudo_0.children == after[place].children());
            },
            CellView::ThawOnWrite(target) => {
                assert(cs[0] == target);
                assert(after[place].children()[0] == moved_handle(moves, target));
            },
            _ => {},
        }
    }
    assert forall|r: int| 0 <= r < roots.len() && freezable_handle(before, #[trigger] roots[r]) implies freezable_handle(
        after,
        new_roots[r],
    ) by {
        assert(new_roots[r] == moved_handle(moves, roots[r]));
    }
}

/// Every frozen handle that freezing would copy out of the cell in `slot`
/// is one that `frozen` can follow.
pub open spec fn cell_refers_within(cells: Seq<CellView>, frozen: FrozenHeap, slot: int) -> bool {
    match cells[slot] {
        CellView::Immutable(p) => frozen.knows_all(p.children),
        CellView::Mutable(p) => forall|c: int|
            0 <= c < p.children.len() ==> ((#[trigger] p.children[c]) matches Value::Frozen(f) ==> frozen.knows(f)),
        CellView::Pseudo(p) => forall|c: int|
            0 <= c < p.children.len() ==> ((#[trigger] p.children[c]) matches Value::Frozen(f) ==> frozen.knows(f)),
        CellView::ThawOnWrite(Value::Frozen(f)) => frozen.knows(f),
        CellView::Forward(f) => frozen.knows(f),
        _ => true,
    }
}

/// The heap points into no frozen heap but those that `frozen` can follow.
pub open spec fn refers_within(cells: Seq<CellView>, frozen: FrozenHeap) -> bool {
    forall|slot: int| 0 <= slot < cells.len() ==> #[trigger] cell_refers_within(cells, frozen, slot)
}

/// A frozen heap that more cells were added to follows what it followed.
pub proof fn lemma_knows_more(was: FrozenHeap, now: FrozenHeap, value: FrozenValue)
    requires
        now.id() == was.id(),
        now.deps() == was.deps(),
        was.cells().len() <= now.cells().len(),
        was.knows(value),
    ensures
        now.knows(value),
{
    assert(now.dep_ids() =~= was.dep_ids());
}

/// Freezing from a heap that points into no frozen heap but the one being
/// filled and those that it keeps alive leaves the frozen heap closed:
/// whatever it points into, it keeps alive.
pub proof fn lemma_freeze_keeps_closed(before: Seq<CellView>, after: Seq<CellView>, was: FrozenHeap, now: FrozenHeap)
    requires
        is_freeze(before, after, was.id(), was.cells(), now.cells()),
        now.id() == was.id(),
        now.deps() == was.deps(),
        was.closed(),
        refers_within(before, was),
    ensures
        now.closed(),
        refers_within(after, now),
{
    let id = was.id();
    assert forall|v: FrozenValue| was.knows(v) implies now.knows(v) by {
        lemma_knows_more(was, now, v);
    }
    assert forall|slot: int| 0 <= slot < after.len() implies #[trigger] cell_refers_within(after, now, slot) by {
        assert(cell_refers_within(before, was, slot));
        assert(cell_step_ok(before, after, id, was.cells().len(), now.cells(), slot));
    }
    assert forall|v: Value| is_frozen(after, v) && (v matches Value::Frozen(f) ==> was.knows(f)) implies now.knows(
        frozen_handle(after, v),
    ) by {
        if let Value::Ptr(j) = v {
            assert(cell_refers_within(after, now, j as int));
            if let CellView::ThawOnWrite(Value::Ptr(t)) = after[j as int] {
                assert(cell_refers_within(after, now, t as int));
            }
        }
    }
    assert forall|place: int| 0 <= place < now.cells().len() implies #[trigger] now.cell_closed(place) by {
        if place < was.cells().len() {
            assert(was.cell_closed(place));
            assert(now.cells()[place] == was.cells()[place]);
        } else {
            assert(has_origin(before, after, id, place));
            let slot = choose|slot: int|
                #![trigger newly_frozen(before, after, slot)]
                newly_frozen(before, after, slot) && frozen_to(after, id, slot, place);
            assert(cell_step_ok(before, after, id, was.cells().len(), now.cells(), slot));
            assert(cell_refers_within(before, was, slot));
            match before[slot] {
                CellView::Mutable(p) => {
                    assert forall|c: int| 0 <= c < p.children.len() implies now.knows(
                        #[trigger] freeze_all(after, p.children)[c],
                    ) by {
                        assert(is_frozen(after, p.children[c]));
                    }
                },
                CellView::Pseudo(p) => {
                    assert forall|c: int| 0 <= c < p.children.len() implies now.knows(
                        #[trigger] freeze_all(after, p.children)[c],
                    ) by {
                        assert(is_frozen(after, p.children[c]));
                    }
                },
                _ => {},
            }
        }
    }
}

/// A frozen heap being filled from a heap under evaluation, and one cell
/// of it that was reserved at the start: the magic value, which the
/// embedder may point to before it is known what the cell will hold.
#[derive(Debug)]
pub struct Freezer {
    heap: FrozenHeap,
    magic: usize,
}

impl Freezer {
    /// The magic value is a cell of the frozen heap.
    pub closed spec fn wf(&self) -> bool {
        self.magic < self.heap.cells().len()
    }

    /// The frozen heap as it is now.
    pub closed spec fn frozen(&self) -> FrozenHeap {
        self.heap
    }

    /// The handle to the magic value.
    pub closed spec fn magic(&self) -> FrozenValue {
        FrozenValue::Ptr { heap: self.heap.id(), slot: self.magic }
    }

    /// Every `Forward` marker of `cells` that points into this frozen heap
    /// points to a cell that is there.
    pub open spec fn covers(&self, cells: Seq<CellView>) -> bool {
        forall|slot: int|
            0 <= slot < cells.len() ==> ((#[trigger] cells[slot]) matches CellView::Forward(
                FrozenValue::Ptr { heap, slot: place },
            ) ==> heap == self.frozen().id() ==> place < self.frozen().cells().len())
    }

    /// The cell of the magic value: reserved until `set_magic` fills it.
    pub open spec fn magic_cell(&self) -> FrozenCellView {
        self.frozen().cells()[self.magic()->slot as int]
    }

    /// What a call that freezes leaves of the freezer.
    pub open spec fn continues(&self, before: &Freezer) -> bool {
        &&& before.wf() ==> self.wf() && self.magic_cell() == before.magic_cell()
        &&& self.frozen().id() == before.frozen().id()
        &&& self.frozen().deps() == before.frozen().deps()
        &&& self.magic() == before.magic()
    }

    /// Takes `heap` to fill it, and reserves the magic value in it.
    pub fn new(heap: FrozenHeap) -> (freezer: Self)
        ensures
            freezer.wf(),
            freezer.frozen().id() == heap.id(),
            freezer.frozen().deps() == heap.deps(),
            freezer.frozen().cells() == heap.cells().push(FrozenCellView::Blackhole),
            freezer.magic() matches FrozenValue::Ptr { heap: id, slot } && id == heap.id() && slot == heap.cells().len(),
            freezer.magic_cell() is Blackhole,
    {
        let mut heap = heap;
        let magic = heap.len();
        heap.alloc_raw(FrozenValueMem::Blackhole);
        Freezer { heap, magic }
    }

    /// The handle to the magic value.
    pub fn get_magic(&self) -> (magic: FrozenValue)
        ensures
            magic == self.magic(),
    {
        FrozenValue::Ptr { heap: self.heap.identity(), slot: self.magic }
    }

    /// Whether `set_magic` has said what the magic value is.
    pub fn is_magic_set(&self) -> (set: bool)
        requires
            self.wf(),
        ensures
            set == !(self.magic_cell() is Blackhole),
    {
        match self.heap.get_ref(self.get_magic()) {
            Some(FrozenValueMem::Blackhole) => false,
            _ => true,
        }
    }

    /// Says what the magic value is: once, while its cell is reserved.
    pub fn set_magic(&mut self, val: Payload<FrozenValue>)
        requires
            old(self).wf(),
            old(self).magic_cell() is Blackhole,
        ensures
            final(self).wf(),
            final(self).frozen().id() == old(self).frozen().id(),
            final(self).frozen().deps() == old(self).frozen().deps(),
            final(self).magic() == old(self).magic(),
            final(self).magic_cell() == FrozenCellView::Immutable(val@),
            old(self).magic() matches FrozenValue::Ptr { heap, slot } && slot < old(self).frozen().cells().len()
                && final(self).frozen().cells() == old(self).frozen().cells().update(
                slot as int,
                FrozenCellView::Immutable(val@),
            ),
    {
        self.heap.fill(self.magic, FrozenValueMem::Immutable(val));
    }

    /// Ends the freezing and shares the frozen heap. The magic value has
    /// been said by then: a heap that is shared holds no reserved cell of
    /// the freezer's.
    pub fn into_ref(self) -> (shared: FrozenHeapRef)
        requires
            self.wf(),
            !(self.magic_cell() is Blackhole),
        ensures
            shared.heap() == self.frozen(),
    {
        self.heap.into_ref()
    }

    /// Keeps `heap` alive for as long as the frozen heap lives: to be
    /// called for every heap that a frozen value points into.
    pub fn add_reference(&mut self, heap: &FrozenHeapRef)
        ensures
            old(self).wf() ==> final(self).wf(),
            final(self).frozen().id() == old(self).frozen().id(),
            final(self).frozen().cells() == old(self).frozen().cells(),
            final(self).magic() == old(self).magic(),
            final(self).frozen().deps() == if old(self).frozen().dep_ids().contains(heap.id()) {
                old(self).frozen().deps()
            } else {
                old(self).frozen().deps().push(*heap)
            },
            old(self).frozen().wf() ==> final(self).frozen().wf(),
    {
        self.heap.add_reference(heap);
    }

    /// Whether `value` can be frozen.
    fn takes(heap: &Heap, value: Value) -> (ok: bool)
        ensures
            ok == freezable_handle(heap@, value),
    {
        match heap.get_ref(value) {
            Some(ValueMem::Str(_)) => true,
            Some(ValueMem::Immutable(_)) => true,
            Some(ValueMem::Mutable(_)) => true,
            Some(ValueMem::Pseudo(_)) => true,
            Some(ValueMem::ThawOnWrite(_)) => true,
            Some(ValueMem::Forward(_)) => true,
            Some(_) => false,
            None => match value {
                Value::Frozen(_) => true,
                Value::Ptr(_) => false,
            },
        }
    }

    /// Whether each of `values` can be frozen.
    fn takes_all(heap: &Heap, values: &Vec<Value>) -> (ok: bool)
        ensures
            ok == all_freezable(heap@, values@),
    {
        let mut c: usize = 0;
        while c < values.len()
            invariant
                c <= values@.len(),
                forall|d: int| 0 <= d < c ==> freezable_handle(heap@, #[trigger] values@[d]),
            decreases values@.len() - c,
        {
            if !Self::takes(heap, values[c]) {
                return false;
            }
            c += 1;
        }
        true
    }

    /// Whether `heap` can be frozen from: freezing meets no cell in it that
    /// it cannot take, and every `Forward` marker in it that points into
    /// this freezer's heap points to a cell that is there.
    pub fn accepts(&self, heap: &Heap) -> (ok: bool)
        ensures
            ok == (freezable(heap@) && self.covers(heap@)),
    {
        let mut slot: usize = 0;
        while slot < heap.len()
            invariant
                slot <= heap@.len(),
                forall|s: int| 0 <= s < slot ==> #[trigger] freezable_cell(heap@, s),
                forall|s: int|
                    0 <= s < slot ==> ((#[trigger] heap@[s]) matches CellView::Forward(
                        FrozenValue::Ptr { heap: id, slot: place },
                    ) ==> id == self.frozen().id() ==> place < self.frozen().cells().len()),
            decreases heap@.len() - slot,
        {
            let ok = match heap.cell(slot) {
                ValueMem::Mutable(p) => Self::takes_all(heap, &p.children),
                ValueMem::Pseudo(p) => Self::takes_all(heap, &p.children),
                ValueMem::ThawOnWrite(target) => {
                    Self::takes(heap, *target) && match heap.get_ref(*target) {
                        Some(ValueMem::ThawOnWrite(_)) => false,
                        _ => true,
                    }
                },
                ValueMem::Forward(FrozenValue::Ptr { heap: id, slot: place }) => {
                    *id != self.heap.identity() || *place < self.heap.len()
                },
                _ => true,
            };
            if !ok {
                assert(!freezable_cell(heap@, slot as int) || !self.covers(heap@));
                return false;
            }
            slot += 1;
        }
        true
    }

    /// Whether `value`, a handle of `heap`, can be frozen.
    pub fn accepts_value(&self, heap: &Heap, value: Value) -> (ok: bool)
        ensures
            ok == freezable_handle(heap@, value),
    {
        Self::takes(heap, value)
    }

    /// Puts a value that is new, and frozen from the start, on the frozen
    /// heap.
    pub fn alloc_value<T: AllocFrozenValue>(&mut self, val: T) -> (value: FrozenValue)
        ensures
            final(self).continues(old(self)),
            match val.frozen_allocation() {
                FrozenAllocation::Cell(cell) => {
                    &&& value matches FrozenValue::Ptr { heap: id, slot } && id == old(self).frozen().id() && slot
                        == old(self).frozen().cells().len()
                    &&& final(self).frozen().cells() == old(self).frozen().cells().push(cell)
                },
                FrozenAllocation::Immediate(immediate) => {
                    &&& value == immediate
                    &&& final(self).frozen().cells() == old(self).frozen().cells()
                },
            },
    {
        val.alloc_frozen_value(&mut self.heap)
    }

    /// Freezes `value`, a handle of `heap`, and all that it reaches, and
    /// returns the frozen handle.
    ///
    /// A frozen handle is returned as it is. A cell that was frozen before
    /// gives the handle recorded then, and nothing is allocated. A
    /// thaw-on-write cell gives what its target freezes to.
    pub fn freeze(&mut self, heap: &mut Heap, value: Value) -> (frozen: FrozenValue)
        requires
            can_freeze(old(heap)@, value),
            old(self).covers(old(heap)@),
        ensures
            final(self).continues(old(self)),
            is_freeze(
                old(heap)@,
                final(heap)@,
                old(self).frozen().id(),
                old(self).frozen().cells(),
                final(self).frozen().cells(),
            ),
            froze_within(old(heap)@, final(heap)@, value),
            freezable(old(heap)@) ==> freezable(final(heap)@),
            final(self).covers(final(heap)@),
            is_frozen(final(heap)@, value),
            frozen == frozen_handle(final(heap)@, value),
            is_frozen(old(heap)@, value) ==> final(heap)@ == old(heap)@ && final(self).frozen().cells() == old(self).frozen().cells(),
            !is_frozen(old(heap)@, value) ==> (frozen matches FrozenValue::Ptr { heap: id, slot } && id == old(self).frozen().id() && slot == old(self).frozen().cells().len()),
        decreases unforwarded(old(heap)@), thaw_rank(old(heap)@, value),
    {
        let ghost id = self.heap.id();
        let ghost h0 = heap@;
        let ghost f0 = self.heap.cells();
        proof {
            lemma_freeze_nothing(h0, id, f0);
        }
        let slot = match value {
            Value::Frozen(x) => {
                return x;
            },
            Value::Ptr(slot) => slot,
        };
        proof {
            assert(freeze_reaches_within(h0, value, slot as int, 0));
            assert(freeze_reaches(h0, value, slot as int));
            assert(freezable_cell(h0, slot as int));
        }
        match heap.cell(slot) {
            ValueMem::Forward(x) => {
                return *x;
            },
            ValueMem::ThawOnWrite(x) => {
                let target = *x;
                proof {
                    assert(freeze_follows(h0[slot as int])[0] == target);
                    lemma_can_freeze_child(h0, value, target);
                }
                let frozen = self.freeze(heap, target);
                proof {
                    assert(cell_step_ok(h0, heap@, id, f0.len(), self.heap.cells(), slot as int));
                    if let Value::Ptr(t) = target {
                        assert(cell_step_ok(h0, heap@, id, f0.len(), self.heap.cells(), t as int));
                    }
                    assert forall|s: int| #[trigger] newly_frozen(h0, heap@, s) implies freeze_reaches(h0, value, s) by {
                        lemma_reaches_via(h0, value, target, s);
                    }
                }
                return frozen;
            },
            _ => {},
        }
        let frozen = self.heap.alloc_raw(FrozenValueMem::Blackhole);
        let ghost place = f0.len() as int;
        let cell = heap.swap_cell(slot, ValueMem::Forward(frozen));
        let ghost h1 = heap@;
        let ghost f1 = self.heap.cells();
        proof {
            lemma_unforwarded_mark(h0, slot as int, frozen);
            lemma_freeze_nothing(h1, id, f1);
            assert(only_frozen(h0, h1));
            assert forall|c: int| 0 <= c < frozen_children(h0[slot as int]).len() implies can_freeze(
                h1,
                #[trigger] frozen_children(h0[slot as int])[c],
            ) by {
                let child = frozen_children(h0[slot as int])[c];
                assert(freeze_follows(h0[slot as int])[c] == child);
                lemma_can_freeze_child(h0, value, child);
                lemma_can_freeze_kept(h0, h1, child);
            }
            assert forall|s: int| freezable(h0) && 0 <= s < h1.len() implies #[trigger] freezable_cell(h1, s) by {
                assert(freezable_cell(h0, s));
                match h0[s] {
                    CellView::Mutable(p) => {
                        assert forall|c: int| 0 <= c < p.children.len() implies freezable_handle(
                            h1,
                            #[trigger] p.children[c],
                        ) by {
                            assert(freezable_handle(h0, p.children[c]));
                        }
                    },
                    CellView::Pseudo(p) => {
                        assert forall|c: int| 0 <= c < p.children.len() implies freezable_handle(
                            h1,
                            #[trigger] p.children[c],
                        ) by {
                            assert(freezable_handle(h0, p.children[c]));
                        }
                    },
                    _ => {},
                }
            }
        }
        let filled = match cell {
            ValueMem::Str(s) => FrozenValueMem::Str(s),
            ValueMem::Immutable(p) => FrozenValueMem::Immutable(p),
            ValueMem::Pseudo(p) => FrozenValueMem::Immutable(p.freeze(self, heap)),
            ValueMem::Mutable(p) => FrozenValueMem::Immutable(p.freeze(self, heap)),
            _ => unreached(),
        };
        let ghost h2 = heap@;
        let ghost f2 = self.heap.cells();
        proof {
            assert(cell_step_ok(h1, h2, id, f1.len(), f2, slot as int));
            assert(froze_within_any(h1, h2, frozen_children(h0[slot as int])));
            assert forall|s: int| #[trigger] newly_frozen(h0, h2, s) implies freeze_reaches(h0, value, s) by {
                if s != slot {
                    assert(h1[s] == h0[s]);
                    assert(newly_frozen(h1, h2, s));
                    let children = frozen_children(h0[slot as int]);
                    assert(freeze_reaches_any(h1, children, s));
                    let c = choose|c: int| 0 <= c < children.len() && freeze_reaches(h1, #[trigger] children[c], s);
                    lemma_reaches_kept(h0, h1, children[c], s);
                    assert(freeze_follows(h0[slot as int])[c] == children[c]);
                    lemma_reaches_via(h0, value, children[c], s);
                }
            }
        }
        self.heap.fill(slot_of(frozen), filled);
        let ghost f3 = self.heap.cells();
        proof {
            assert(filled@ == frozen_cell(h2, h0[slot as int]));
            assert(h2[slot as int] == h1[slot as int]);
            assert(all_frozen(h2, frozen_children(h0[slot as int])));
            assert(f3[place] == frozen_cell(h2, h0[slot as int]));
            assert forall|s: int| 0 <= s < h0.len() implies #[trigger] cell_step_ok(h0, h2, id, f0.len(), f3, s) by {
                assert(cell_step_ok(h1, h2, id, f1.len(), f2, s));
                if s != slot {
                    assert(h1[s] == h0[s]);
                    if newly_frozen(h1, h2, s) {
                        let p = h2[s]->Forward_0->slot;
                        assert(f3[p as int] == f2[p as int]);
                    }
                }
            }
            assert forall|i: int, j: int|
                #![trigger newly_frozen(h0, h2, i), newly_frozen(h0, h2, j)]
                newly_frozen(h0, h2, i) && newly_frozen(h0, h2, j) && h2[i] == h2[j] implies i == j by {
                assert(cell_step_ok(h1, h2, id, f1.len(), f2, i));
                assert(cell_step_ok(h1, h2, id, f1.len(), f2, j));
                if i != slot && j != slot {
                    assert(newly_frozen(h1, h2, i) && newly_frozen(h1, h2, j));
                }
            }
            assert forall|k: int| f0.len() <= k < f3.len() implies #[trigger] has_origin(h0, h2, id, k) by {
                if k == place {
                    assert(newly_frozen(h0, h2, slot as int));
                } else {
                    assert(has_origin(h1, h2, id, k));
                    let s = choose|s: int|
                        #![trigger newly_frozen(h1, h2, s)]
                        newly_frozen(h1, h2, s) && frozen_to(h2, id, s, k);
                    assert(newly_frozen(h0, h2, s));
                }
            }
        }
        frozen
    }

    /// Freezes each of `values`, in their order, and returns the frozen
    /// handles.
    pub fn freeze_each(&mut self, heap: &mut Heap, values: &Vec<Value>) -> (frozen: Vec<FrozenValue>)
        requires
            all_can_freeze(old(heap)@, values@),
            old(self).covers(old(heap)@),
        ensures
            final(self).continues(old(self)),
            is_freeze(
                old(heap)@,
                final(heap)@,
                old(self).frozen().id(),
                old(self).frozen().cells(),
                final(self).frozen().cells(),
            ),
            froze_within_any(old(heap)@, final(heap)@, values@),
            freezable(old(heap)@) ==> freezable(final(heap)@),
            final(self).covers(final(heap)@),
            all_frozen(final(heap)@, values@),
            frozen@ == freeze_all(final(heap)@, values@),
        decreases unforwarded(old(heap)@), 2nat,
    {
        let ghost id = self.frozen().id();
        let ghost h0 = heap@;
        let ghost f0 = self.frozen().cells();
        let ghost given = values@;
        let mut frozen: Vec<FrozenValue> = Vec::new();
        proof {
            lemma_freeze_nothing(h0, id, f0);
        }
        let mut c: usize = 0;
        while c < values.len()
            invariant
                values@ == given,
                h0 == old(heap)@,
                id == old(self).frozen().id(),
                f0 == old(self).frozen().cells(),
                c <= given.len(),
                frozen@.len() == c,
                self.continues(old(self)),
                is_freeze(h0, heap@, id, f0, self.frozen().cells()),
                froze_within_any(h0, heap@, given),
                freezable(h0) ==> freezable(heap@),
                self.covers(heap@),
                all_can_freeze(heap@, given),
                forall|d: int| 0 <= d < c ==> is_frozen(heap@, #[trigger] given[d]) && frozen@[d] == frozen_handle(
                    heap@,
                    given[d],
                ),
            decreases given.len() - c,
        {
            let ghost h1 = heap@;
            let ghost f1 = self.frozen().cells();
            assert(can_freeze(h1, given[c as int]));
            let child = self.freeze(heap, values[c]);
            frozen.push(child);
            proof {
                lemma_freeze_then_freeze(h0, h1, heap@, id, f0, f1, self.frozen().cells());
                lemma_freeze_only_freezes(h1, heap@, id, f1, self.frozen().cells());
                lemma_freeze_only_freezes(h0, h1, id, f0, f1);
                assert forall|s: int| #[trigger] newly_frozen(h0, heap@, s) implies freeze_reaches_any(
                    h0,
                    given,
                    s,
                ) by {
                    if !newly_frozen(h0, h1, s) {
                        assert(cell_step_ok(h0, h1, id, f0.len(), f1, s));
                        assert(newly_frozen(h1, heap@, s));
                        lemma_reaches_kept(h0, h1, given[c as int], s);
                    }
                }
                assert forall|d: int| 0 <= d < c + 1 implies is_frozen(heap@, #[trigger] given[d]) && frozen@[d]
                    == frozen_handle(heap@, given[d]) by {
                    if d < c {
                        lemma_frozen_for_good(h1, heap@, given[d]);
                    }
                }
                lemma_all_can_freeze_kept(h1, heap@, given);
            }
            c += 1;
        }
        proof {
            assert(frozen@ =~= freeze_all(heap@, given));
        }
        frozen
    }
}

/// The slot that a handle into a frozen heap names.
fn slot_of(value: FrozenValue) -> (slot: usize)
    requires
        value is Ptr,
    ensures
        slot == value->slot,
{
    match value {
        FrozenValue::Ptr { heap: _, slot } => slot,
        _ => unreached(),
    }
}

impl Payload<Value> {
    /// Freezes all that the value owns, and returns its frozen counterpart:
    /// the same value, with each handle frozen.
    pub fn freeze(self, freezer: &mut Freezer, heap: &mut Heap) -> (frozen: Payload<FrozenValue>)
        requires
            all_can_freeze(old(heap)@, self@.children),
            old(freezer).covers(old(heap)@),
        ensures
            final(freezer).continues(old(freezer)),
            is_freeze(
                old(heap)@,
                final(heap)@,
                old(freezer).frozen().id(),
                old(freezer).frozen().cells(),
                final(freezer).frozen().cells(),
            ),
            froze_within_any(old(heap)@, final(heap)@, self@.children),
            freezable(old(heap)@) ==> freezable(final(heap)@),
            final(freezer).covers(final(heap)@),
            all_frozen(final(heap)@, self@.children),
            frozen@ == frozen_payload(final(heap)@, self@),
        decreases unforwarded(old(heap)@), 3nat,
    {
        let Payload { kind, naturally_mutable, scalar, children } = self;
        let children = freezer.freeze_each(heap, &children);
        Payload { kind, naturally_mutable, scalar, children }
    }
}

impl Value {
    /// Freezes the value: `Freezer::freeze`, from the value's side.
    pub fn freeze(self, freezer: &mut Freezer, heap: &mut Heap) -> (frozen: FrozenValue)
        requires
            can_freeze(old(heap)@, self),
            old(freezer).covers(old(heap)@),
        ensures
            final(freezer).continues(old(freezer)),
            is_freeze(
                old(heap)@,
                final(heap)@,
                old(freezer).frozen().id(),
                old(freezer).frozen().cells(),
                final(freezer).frozen().cells(),
            ),
            froze_within(old(heap)@, final(heap)@, self),
            freezable(old(heap)@) ==> freezable(final(heap)@),
            final(freezer).covers(final(heap)@),
            is_frozen(final(heap)@, self),
            frozen == frozen_handle(final(heap)@, self),
    {
        freezer.freeze(heap, self)
    }
}

} // verus!
