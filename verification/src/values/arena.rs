//! An append-only store of cells of one type.
//!
//! A cell is named by the slot it was allocated in. Slots are handed out in
//! order and never reused, so a slot stays valid for as long as the arena
//! lives; reclaiming dead cells means building a new arena.

use vstd::prelude::*;

verus! {

#[derive(Debug)]
pub struct Arena<T> {
    cells: Vec<T>,
}

impl<T> View for Arena<T> {
    type V = Seq<T>;

    closed spec fn view(&self) -> Seq<T> {
        self.cells@
    }
}

/// The bytes taken by `len` cells of `cell_size` bytes each, or `usize::MAX`
/// where that does not fit.
pub open spec fn footprint(len: nat, cell_size: nat) -> nat {
    if len * cell_size <= usize::MAX {
        len * cell_size
    } else {
        usize::MAX as nat
    }
}

impl<T> Arena<T> {
    /// An empty arena.
    pub fn new() -> (arena: Self)
        ensures
            arena@ == Seq::<T>::empty(),
    {
        Arena { cells: Vec::new() }
    }

    /// Appends `value` and returns its slot.
    pub fn allocate(&mut self, value: T) -> (slot: usize)
        ensures
            slot == old(self)@.len(),
            final(self)@ == old(self)@.push(value),
    {
        let slot = self.cells.len();
        self.cells.push(value);
        slot
    }

    /// The number of slots ever allocated.
    pub fn len(&self) -> (n: usize)
        ensures
            n == self@.len(),
    {
        self.cells.len()
    }

    /// The cell in `slot`.
    pub fn get(&self, slot: usize) -> (cell: &T)
        requires
            slot < self@.len(),
        ensures
            *cell == self@[slot as int],
    {
        &self.cells[slot]
    }

    /// Puts `value` in `slot` and returns what was there.
    pub fn replace(&mut self, slot: usize, value: T) -> (previous: T)
        requires
            slot < old(self)@.len(),
        ensures
            previous == old(self)@[slot as int],
            final(self)@ == old(self)@.update(slot as int, value),
    {
        let mut value = value;
        core::mem::swap(&mut self.cells[slot], &mut value);
        value
    }

    /// Calls `visitor` on every slot ever allocated, in allocation order.
    pub fn for_each<F: Fn(&T)>(&self, visitor: F)
        requires
            forall|i: int| 0 <= i < self@.len() ==> call_requires(visitor, (&#[trigger] self@[i],)),
        ensures
            forall|i: int| 0 <= i < self@.len() ==> call_ensures(visitor, (&#[trigger] self@[i],), ()),
    {
        let mut i: usize = 0;
        while i < self.cells.len()
            invariant
                i <= self@.len(),
                forall|j: int| 0 <= j < self@.len() ==> call_requires(visitor, (&#[trigger] self@[j],)),
                forall|j: int| 0 <= j < i ==> call_ensures(visitor, (&#[trigger] self@[j],), ()),
            decreases self.cells.len() - i,
        {
            assert(call_requires(visitor, (&self@[i as int],)));
            visitor(&self.cells[i]);
            i += 1;
        }
    }

    /// The footprint of the cells allocated so far.
    pub fn allocated_bytes(&self) -> (bytes: usize)
        ensures
            bytes == footprint(self@.len(), vstd::layout::size_of::<T>()),
    {
        let n = self.cells.len();
        match n.checked_mul(core::mem::size_of::<T>()) {
            Some(bytes) => bytes,
            None => usize::MAX,
        }
    }
}

} // verus!
