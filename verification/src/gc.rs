//! Allocation and the collector's entry points.
//!
//! An allocation first looks at the heap's counters: where more bytes are in
//! use than the threshold allows, a full collection runs before the new cell
//! is linked in, and the threshold grows if the collection freed too little.

use vstd::prelude::*;
use vstd::layout::size_of;
use std::marker::PhantomData;
use crate::cell::{CellView, GcBox, GcNullableBox};
use crate::collect::{finalized_each, grow_threshold, grown_threshold};
use crate::heap::{GcState, HeapView};
use crate::reference::{GcNullableRef, GcRef};
use crate::roots::{
    iterate_roots,
    root_addresses,
    root_addrs,
    roots_of_chain,
    Root,
    RootError,
    ShadowStack,
};
use crate::trace::GcTrace;

verus! {

impl<T: GcTrace> HeapView<T> {
    /// The heap as an allocation leaves it before it links in the new cell,
    /// where `roots` are the roots of the moment: collected, with the
    /// threshold grown as needed, if a collection was due, and untouched if
    /// none was.
    pub open spec fn prepared(self, roots: Seq<usize>) -> HeapView<T> {
        if self.collection_due() {
            let swept = self.collected(roots);
            HeapView {
                threshold: grown_threshold(swept.bytes_allocated, swept.threshold),
                ..swept
            }
        } else {
            self
        }
    }
}

/// The heap into which an allocation links its new cell, given what root
/// discovery makes of the chain.
pub open spec fn allocation_base<T: GcTrace>(
    before: HeapView<T>,
    found: Result<Seq<Root>, RootError>,
) -> HeapView<T> {
    match found {
        Ok(roots) => before.prepared(root_addrs(roots)),
        Err(_) => before,
    }
}

/// What an allocation that puts its cell at `addr` does to the heap
/// `before`, given what root discovery makes of the chain: the heap with the
/// new cell. Where a collection is due, the chain has to be one that can be
/// trusted.
pub open spec fn allocation<T: GcTrace>(
    before: HeapView<T>,
    found: Result<Seq<Root>, RootError>,
    addr: usize,
    cell: CellView<T>,
) -> HeapView<T>
    recommends
        before.collection_due() ==> found is Ok,
{
    allocation_base(before, found).allocated(addr, cell)
}

/// Rooted cells outlive an allocation: where every cell of `rooted` is named
/// by a root of the chain, an allocation leaves each of them as it was, and
/// gives the new cell an address of its own.
pub proof fn lemma_rooted_cells_survive<T: GcTrace>(
    before: HeapView<T>,
    after: HeapView<T>,
    found: Result<Seq<Root>, RootError>,
    rooted: Seq<usize>,
    addr: usize,
    cell: CellView<T>,
)
    requires
        allocation(before, found, addr, cell) == after,
        before.collection_due() ==> found is Ok,
        !allocation_base(before, found).contains(addr),
        forall|k: int| 0 <= k < rooted.len() ==> before.contains(#[trigger] rooted[k]),
        found matches Ok(roots) ==> forall|k: int|
            0 <= k < rooted.len() ==> root_addrs(roots).contains(#[trigger] rooted[k]),
    ensures
        after.cells[addr] == cell,
        after.contains(addr),
        forall|k: int|
            0 <= k < rooted.len() ==> {
                &&& after.contains(#[trigger] rooted[k])
                &&& after.cells[rooted[k]] == before.cells[rooted[k]]
                &&& rooted[k] != addr
            },
{
    if before.collection_due() {
        let roots = root_addrs(found->Ok_0);
        let kept = before.collected(roots);
        let prepared = before.prepared(roots);
        assert(prepared.cells == kept.cells);
        assert forall|k: int| 0 <= k < rooted.len() implies kept.contains(#[trigger] rooted[k])
            && kept.cells[rooted[k]] == before.cells[rooted[k]] by {
            before.lemma_root_reachable(roots, rooted[k]);
            before.lemma_collected_keeps(roots, rooted[k]);
        }
        assert forall|k: int| 0 <= k < rooted.len() implies after.contains(#[trigger] rooted[k])
            && after.cells[rooted[k]] == before.cells[rooted[k]] && rooted[k] != addr by {
            assert(kept.contains(rooted[k]));
        }
    } else {
        assert forall|k: int| 0 <= k < rooted.len() implies after.contains(#[trigger] rooted[k])
            && after.cells[rooted[k]] == before.cells[rooted[k]] && rooted[k] != addr by {
            assert(before.contains(rooted[k]));
        }
    }
}

/// The heap has room for `cells` allocations in a row without a collection
/// coming due before any of them.
pub open spec fn room_for<T>(heap: HeapView<T>, cells: int) -> bool {
    cells <= 0 || heap.bytes_allocated + (cells - 1) * size_of::<GcBox<T>>() <= heap.threshold
}

/// In a heap with room for some cells no collection is due, and an
/// allocation leaves room for one cell less.
pub proof fn lemma_room_for<T: GcTrace>(
    before: HeapView<T>,
    found: Result<Seq<Root>, RootError>,
    addr: usize,
    cell: CellView<T>,
    cells: int,
)
    requires
        cells >= 1,
        room_for(before, cells),
        before.bytes_allocated + size_of::<GcBox<T>>() <= usize::MAX,
    ensures
        !before.collection_due(),
        room_for(allocation(before, found, addr, cell), cells - 1),
        room_for(before, cells - 1),
{
    let size = size_of::<GcBox<T>>();
    assert((cells - 1) * size >= 0) by (nonlinear_arith)
        requires
            cells >= 1,
            size >= 0,
    {}
    if cells >= 2 {
        assert((cells - 1) * size == (cells - 2) * size + size) by (nonlinear_arith);
        assert((cells - 2) * size >= 0) by (nonlinear_arith)
            requires
                cells >= 2,
                size >= 0,
        {}
    }
}

/// An allocation adds at most the bytes of one cell to the bytes in use.
pub proof fn lemma_allocation_bytes<T: GcTrace>(
    before: HeapView<T>,
    after: HeapView<T>,
    found: Result<Seq<Root>, RootError>,
    addr: usize,
    cell: CellView<T>,
)
    requires
        allocation(before, found, addr, cell) == after,
        before.bytes_allocated == before.order.len() * size_of::<GcBox<T>>(),
        before.bytes_allocated + size_of::<GcBox<T>>() <= usize::MAX,
    ensures
        after.bytes_allocated <= before.bytes_allocated + size_of::<GcBox<T>>(),
{
    if before.collection_due() {
        let roots = root_addrs(found->Ok_0);
        before.order.lemma_filter_len(|addr: usize| before.reachable(roots, addr));
        let size = size_of::<GcBox<T>>();
        let left = before.survivors(roots).len();
        let held = before.order.len();
        assert(left * size <= held * size) by (nonlinear_arith)
            requires
                left <= held,
        {}
    }
}

impl<T: GcTrace> GcState<T> {
    /// Makes room where the threshold asks for it, then links in a new cell
    /// for `data`.
    pub(crate) fn allocate(&mut self, stack: &ShadowStack, nullable: bool, data: T) -> (addr:
        usize)
        requires
            old(self).wf(),
            old(self)@.bytes_allocated + size_of::<GcBox<T>>() <= usize::MAX,
            old(self)@.collection_due() ==> roots_of_chain(stack.head) is Ok,
        ensures
            final(self).wf(),
            final(self)@ == allocation(
                old(self)@,
                roots_of_chain(stack.head),
                addr,
                CellView::fresh(nullable, data),
            ),
            final(self)@.contains(addr),
            !allocation_base(old(self)@, roots_of_chain(stack.head)).contains(addr),
    {
        proof {
            GcState::<T>::lemma_views();
        }
        if self.bytes_allocated > self.threshold {
            let roots = iterate_roots(stack);
            let addrs = root_addresses(&roots);
            let _reclaimed = self.collect_garbage(&addrs);
            self.set_threshold(grow_threshold(self.bytes_allocated, self.threshold));
            proof {
                old(self).lemma_wf();
                old(self)@.order.lemma_filter_len(
                    |addr: usize| old(self)@.reachable(addrs@, addr),
                );
                let size = size_of::<GcBox<T>>();
                let kept = self.order@.len();
                let held = old(self).order@.len();
                assert(kept * size <= held * size) by (nonlinear_arith)
                    requires
                        kept <= held,
                {}
            }
        }
        let ghost prepared = *self;
        let addr = self.link(nullable, data);
        proof {
            assert forall|other: usize| #[trigger] self.live(other) implies !self.marked(other) by {
                if other != addr {
                    assert(prepared.live(other));
                    assert(!prepared.marked(other));
                }
            }
        }
        addr
    }
}

/// The allocator's front.
pub struct Gc<T> {
    phantom: PhantomData<T>,
}

impl<T: GcTrace> Gc<T> {
    /// Allocates a cell for `b` and returns a reference to it.
    ///
    /// Where the heap holds more bytes than its threshold allows, the roots
    /// are read off `stack` and a collection runs first; the chain then has
    /// to be one that can be trusted, for which `check_chain` is the test.
    /// The new cell is linked in at the head of the list, unborrowed, at an
    /// address that names no other live cell.
    pub fn new(state: &mut GcState<T>, stack: &ShadowStack, b: T) -> (gc_ref: GcRef<T>)
        requires
            old(state).wf(),
            old(state)@.bytes_allocated + size_of::<GcBox<T>>() <= usize::MAX,
            old(state)@.collection_due() ==> roots_of_chain(stack.head) is Ok,
        ensures
            final(state).wf(),
            final(state)@ == allocation(
                old(state)@,
                roots_of_chain(stack.head),
                gc_ref@,
                CellView::fresh(false, b),
            ),
            final(state)@.contains(gc_ref@),
            !allocation_base(old(state)@, roots_of_chain(stack.head)).contains(gc_ref@),
    {
        GcBox::ref_from_ptr(state.allocate(stack, false, b))
    }

    /// Allocates a cell whose payload can be moved out later, under the same
    /// rules as `new`.
    pub fn new_nullable(state: &mut GcState<T>, stack: &ShadowStack, b: T) -> (gc_ref: GcNullableRef<T>)
        requires
            old(state).wf(),
            old(state)@.bytes_allocated + size_of::<GcBox<T>>() <= usize::MAX,
            old(state)@.collection_due() ==> roots_of_chain(stack.head) is Ok,
        ensures
            final(state).wf(),
            final(state)@ == allocation(
                old(state)@,
                roots_of_chain(stack.head),
                gc_ref@,
                CellView::fresh(true, b),
            ),
            final(state)@.contains(gc_ref@),
            !allocation_base(old(state)@, roots_of_chain(stack.head)).contains(gc_ref@),
    {
        GcNullableBox::ref_from_ptr(state.allocate(stack, true, b))
    }
}

/// Runs a collection now, whatever the counters say.
///
/// The roots are read off `stack`, which has to be a chain that can be
/// trusted; `check_chain` is the test. The cells that no root reaches leave
/// the heap, and their payloads are returned in list order, each after its
/// cleanup.
pub fn force_collect<T: GcTrace>(state: &mut GcState<T>, stack: &ShadowStack) -> (reclaimed: Vec<T>)
    requires
        old(state).wf(),
        roots_of_chain(stack.head) is Ok,
    ensures
        final(state).wf(),
        final(state)@ == old(state)@.collected(root_addrs(roots_of_chain(stack.head)->Ok_0)),
        finalized_each(
            old(state)@.payloads(
                old(state)@.garbage(root_addrs(roots_of_chain(stack.head)->Ok_0)),
            ),
            reclaimed@,
        ),
{
    let roots = iterate_roots(stack);
    let addrs = root_addresses(&roots);
    state.collect_garbage(&addrs)
}

/// The number of live cells.
pub fn boxes_len<T>(state: &GcState<T>) -> (len: usize)
    requires
        state.wf(),
    ensures
        len == state@.order.len(),
{
    state.boxes_len()
}

} // verus!
