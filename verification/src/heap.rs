//! The state of one managed heap: an arena of cells, the heap-wide list that
//! threads through them from the newest to the oldest, and the counters that
//! decide when a collection is due.
//!
//! A heap belongs to one execution context. Cells are named by their address
//! in the arena; the address of a cell stays the same for as long as the cell
//! lives, and may name another cell after it has been reclaimed.

use vstd::prelude::*;
use vstd::layout::size_of;
use crate::borrow::{exclusive_acquired, shared_acquired, BorrowFlag};
use crate::cell::{CellView, GcBox, GcNullableBox, Slot};

verus! {

/// The collection threshold of a new heap, in bytes.
pub const INITIAL_THRESHOLD: usize = 100;

/// One heap: its counters, the head of the cell list, and the arena.
pub struct GcState<T> {
    pub(crate) bytes_allocated: usize,
    pub(crate) threshold: usize,
    pub(crate) boxes_start: Option<usize>,
    pub(crate) slots: Vec<Slot<T>>,
    /// The addresses of the empty slots that the next allocations will fill.
    pub(crate) free: Vec<usize>,
    /// The addresses on the cell list, from the head on.
    pub(crate) order: Ghost<Seq<usize>>,
}

/// What a heap holds: the live cells by address, the order of the cell list
/// from the newest cell to the oldest, and the two counters.
pub struct HeapView<T> {
    pub cells: Map<usize, CellView<T>>,
    pub order: Seq<usize>,
    pub bytes_allocated: usize,
    pub threshold: usize,
}

impl<T> HeapView<T> {
    pub open spec fn contains(self, addr: usize) -> bool {
        self.cells.dom().contains(addr)
    }

    /// The heap with one more cell, linked in at the head of the list.
    pub open spec fn allocated(self, addr: usize, cell: CellView<T>) -> HeapView<T> {
        HeapView {
            cells: self.cells.insert(addr, cell),
            order: seq![addr] + self.order,
            bytes_allocated: (self.bytes_allocated + size_of::<GcBox<T>>()) as usize,
            threshold: self.threshold,
        }
    }

    /// The heap with the cell at `addr` replaced.
    pub open spec fn with_cell(self, addr: usize, cell: CellView<T>) -> HeapView<T> {
        HeapView { cells: self.cells.insert(addr, cell), ..self }
    }

    /// The heap with another borrow counter in the cell at `addr`.
    pub open spec fn with_flag(self, addr: usize, borrow_flag: BorrowFlag) -> HeapView<T> {
        self.with_cell(addr, CellView { borrow_flag, ..self.cells[addr] })
    }

    /// The heap with another payload, or none, in the cell at `addr`.
    pub open spec fn with_payload(self, addr: usize, payload: Option<T>) -> HeapView<T> {
        self.with_cell(addr, CellView { payload, ..self.cells[addr] })
    }

    /// A cell lives at `addr` and still holds its payload.
    pub open spec fn holds(self, addr: usize) -> bool {
        self.contains(addr) && self.cells[addr].payload is Some
    }

    /// The payload of the cell at `addr`.
    pub open spec fn payload(self, addr: usize) -> T
        recommends
            self.holds(addr),
    {
        self.cells[addr].payload->0
    }

    /// A cell whose payload stays in place lives at `addr`.
    pub open spec fn plain_at(self, addr: usize) -> bool {
        self.contains(addr) && !self.cells[addr].nullable
    }

    /// A cell whose payload can be moved out lives at `addr`.
    pub open spec fn nullable_at(self, addr: usize) -> bool {
        self.contains(addr) && self.cells[addr].nullable
    }

    /// The heap after one more shared borrow of the cell at `addr`, or
    /// `None` where the borrow is refused.
    pub open spec fn shared_borrowed(self, addr: usize) -> Option<HeapView<T>> {
        if self.contains(addr) {
            match shared_acquired(self.cells[addr].borrow_flag) {
                Some(flag) => Some(self.with_flag(addr, flag)),
                None => None,
            }
        } else {
            None
        }
    }

    /// The heap after an exclusive borrow of the cell at `addr`, or `None`
    /// where the borrow is refused.
    pub open spec fn exclusive_borrowed(self, addr: usize) -> Option<HeapView<T>> {
        if self.contains(addr) {
            match exclusive_acquired(self.cells[addr].borrow_flag) {
                Some(flag) => Some(self.with_flag(addr, flag)),
                None => None,
            }
        } else {
            None
        }
    }

    /// Whether the next allocation starts with a collection.
    pub open spec fn collection_due(self) -> bool {
        self.bytes_allocated > self.threshold
    }
}

impl<T> View for GcState<T> {
    type V = HeapView<T>;

    closed spec fn view(&self) -> HeapView<T> {
        self.model()
    }
}

impl<T> GcState<T> {
    /// Whether a cell lives at `addr`.
    pub(crate) open spec fn live(&self, addr: usize) -> bool {
        addr < self.slots@.len() && self.slots@[addr as int].occupied()
    }

    /// The address that follows position `i` of the list.
    pub(crate) open spec fn successor(order: Seq<usize>, i: int) -> Option<usize> {
        if i + 1 < order.len() {
            Some(order[i + 1])
        } else {
            None
        }
    }

    pub(crate) open spec fn head_of(order: Seq<usize>) -> Option<usize> {
        if order.len() > 0 {
            Some(order[0])
        } else {
            None
        }
    }

    /// The cell at position `i` of the list points to the cell that follows.
    pub(crate) open spec fn linked(&self, i: int) -> bool {
        self.slots@[self.order@[i] as int].header().next == Self::successor(self.order@, i)
    }

    /// The list runs through exactly the occupied slots, once through each;
    /// the free list names empty slots only; the byte counter is the number
    /// of cells times the size of one.
    pub(crate) open spec fn list_wf(&self) -> bool {
        let order = self.order@;
        &&& order.no_duplicates()
        &&& forall|i: int| 0 <= i < order.len() ==> self.live(#[trigger] order[i])
        &&& forall|i: int| 0 <= i < order.len() ==> #[trigger] self.linked(i)
        &&& forall|addr: usize| #[trigger] self.live(addr) ==> order.contains(addr)
        &&& self.boxes_start == Self::head_of(order)
        &&& self.free@.no_duplicates()
        &&& forall|j: int|
            0 <= j < self.free@.len() ==> (#[trigger] self.free@[j]) < self.slots@.len()
                && !self.slots@[self.free@[j] as int].occupied()
        &&& order.len() + self.free@.len() <= self.slots@.len()
        &&& self.slots@.len() <= usize::MAX
        &&& self.bytes_allocated == order.len() * size_of::<GcBox<T>>()
    }

    pub(crate) open spec fn marked(&self, addr: usize) -> bool {
        self.slots@[addr as int].header().marked
    }

    /// No cell carries a mark: the state between two collections.
    pub(crate) open spec fn unmarked(&self) -> bool {
        forall|addr: usize| #[trigger] self.live(addr) ==> !self.marked(addr)
    }

    pub(crate) open spec fn model(&self) -> HeapView<T> {
        HeapView {
            cells: Map::new(
                |addr: usize| self.live(addr),
                |addr: usize| self.slots@[addr as int].cell(),
            ),
            order: self.order@,
            bytes_allocated: self.bytes_allocated,
            threshold: self.threshold,
        }
    }

    /// The heap is consistent and no collection is under way.
    pub closed spec fn wf(&self) -> bool {
        self.list_wf() && self.unmarked()
    }

    pub(crate) proof fn lemma_view(&self)
        ensures
            self@ == self.model(),
            self.wf() == (self.list_wf() && self.unmarked()),
    {
    }

    /// What `lemma_view` says, of every heap at once.
    pub(crate) proof fn lemma_views()
        ensures
            forall|any: GcState<T>| #[trigger] any@ == any.model(),
            forall|any: GcState<T>| #[trigger] any.wf() == (any.list_wf() && any.unmarked()),
    {
        assert forall|any: GcState<T>| #[trigger] any@ == any.model() by {
            any.lemma_view();
        }
        assert forall|any: GcState<T>| #[trigger] any.wf() == (any.list_wf()
            && any.unmarked()) by {
            any.lemma_view();
        }
    }

    /// In a consistent heap the list names every live cell once, and the
    /// bytes allocated are the number of cells times the size of one.
    pub proof fn lemma_wf(&self)
        requires
            self.wf(),
        ensures
            self@.order.no_duplicates(),
            forall|addr: usize| self@.order.contains(addr) <==> self@.contains(addr),
            self@.order.len() <= usize::MAX,
            self@.bytes_allocated == self@.order.len() * size_of::<GcBox<T>>(),
    {
        let order = self.order@;
        assert forall|addr: usize| order.contains(addr) implies self@.contains(addr) by {
            let i = choose|i: int| 0 <= i < order.len() && order[i] == addr;
            assert(self.live(order[i]));
        }
    }

    /// A heap holds no more distinct cells than its list is long.
    pub proof fn lemma_distinct_cells(&self, addrs: Seq<usize>)
        requires
            self.wf(),
            addrs.no_duplicates(),
            forall|i: int| 0 <= i < addrs.len() ==> self@.contains(#[trigger] addrs[i]),
        ensures
            addrs.len() <= self@.order.len(),
    {
        let order = self.order@;
        self.lemma_wf();
        addrs.unique_seq_to_set();
        order.unique_seq_to_set();
        vstd::seq_lib::seq_to_set_is_finite(order);
        assert(addrs.to_set().subset_of(order.to_set())) by {
            assert forall|addr: usize| addrs.to_set().contains(addr) implies order.to_set().contains(
                addr,
            ) by {
                let i = choose|i: int| 0 <= i < addrs.len() && addrs[i] == addr;
                assert(self@.contains(addrs[i]));
            }
        }
        vstd::set_lib::lemma_len_subset(addrs.to_set(), order.to_set());
    }

    /// An empty heap.
    pub fn new() -> (state: GcState<T>)
        ensures
            state.wf(),
            state@.cells == Map::<usize, CellView<T>>::empty(),
            state@.order == Seq::<usize>::empty(),
            state@.bytes_allocated == 0,
            state@.threshold == INITIAL_THRESHOLD,
    {
        let state = GcState {
            bytes_allocated: 0,
            threshold: INITIAL_THRESHOLD,
            boxes_start: None,
            slots: Vec::new(),
            free: Vec::new(),
            order: Ghost(Seq::empty()),
        };
        assert(state.model().cells =~= Map::<usize, CellView<T>>::empty());
        state
    }

    pub fn bytes_allocated(&self) -> (bytes: usize)
        ensures
            bytes == self@.bytes_allocated,
    {
        self.bytes_allocated
    }

    pub fn threshold(&self) -> (threshold: usize)
        ensures
            threshold == self@.threshold,
    {
        self.threshold
    }

    /// Whether a cell lives at `addr`.
    pub fn contains(&self, addr: usize) -> (live: bool)
        ensures
            live == self@.contains(addr),
    {
        addr < self.slots.len() && !self.slots[addr].is_free()
    }

    /// Puts a new cell into the arena and links it in at the head of the
    /// list. The cell takes the place of an emptied slot where there is one.
    pub(crate) fn link(&mut self, nullable: bool, data: T) -> (addr: usize)
        requires
            old(self).list_wf(),
            old(self).bytes_allocated + size_of::<GcBox<T>>() <= usize::MAX,
        ensures
            final(self).list_wf(),
            !old(self).live(addr),
            final(self).live(addr),
            !final(self).marked(addr),
            forall|other: usize| #[trigger]
                old(self).live(other) ==> final(self).live(other) && final(self).slots@[other as int]
                    == old(self).slots@[other as int],
            forall|other: usize| #[trigger]
                final(self).live(other) ==> other == addr || old(self).live(other),
            final(self).model() == old(self).model().allocated(
                addr,
                CellView::fresh(nullable, data),
            ),
    {
        let next = self.boxes_start;
        let slot = if nullable {
            Slot::Nullable(GcNullableBox::new(next, data))
        } else {
            Slot::Plain(GcBox::new(next, data))
        };
        let reused = self.free.pop();
        let addr = match reused {
            Some(addr) => {
                assert(old(self).free@[old(self).free@.len() - 1] == addr);
                self.slots[addr] = slot;
                addr
            },
            None => {
                self.slots.push(slot);
                self.slots.len() - 1
            },
        };
        self.boxes_start = Some(addr);
        self.bytes_allocated = self.bytes_allocated + core::mem::size_of::<GcBox<T>>();
        proof {
            let before = old(self).order@;
            self.order@ = seq![addr] + before;
            let order = self.order@;
            assert(!old(self).live(addr));
            assert forall|i: int| 0 <= i < before.len() implies before[i] != addr by {
                assert(old(self).live(before[i]));
            }
            assert forall|i: int| 0 <= i < order.len() implies self.live(#[trigger] order[i]) by {
                if i > 0 {
                    assert(order[i] == before[i - 1]);
                    assert(old(self).live(before[i - 1]));
                }
            }
            assert forall|i: int| 0 <= i < order.len() implies #[trigger] self.linked(i) by {
                if i > 0 {
                    assert(order[i] == before[i - 1]);
                    assert(old(self).linked(i - 1));
                    assert(old(self).live(before[i - 1]));
                }
            }
            assert forall|other: usize| #[trigger] self.live(other) implies order.contains(
                other,
            ) by {
                if other == addr {
                    assert(order[0] == addr);
                } else {
                    assert(old(self).live(other));
                    let i = choose|i: int| 0 <= i < before.len() && before[i] == other;
                    assert(order[i + 1] == other);
                }
            }
            assert forall|j: int| 0 <= j < self.free@.len() implies (#[trigger] self.free@[j])
                < self.slots@.len() && !self.slots@[self.free@[j] as int].occupied() by {
                assert(self.free@[j] == old(self).free@[j]);
            }
            assert((before.len() + 1) * size_of::<GcBox<T>>() == before.len() * size_of::<
                GcBox<T>,
            >() + size_of::<GcBox<T>>()) by (nonlinear_arith);
            assert(self.model().cells =~= old(self).model().cells.insert(
                addr,
                CellView::fresh(nullable, data),
            ));
        }
        addr
    }

    /// `self` is `before` with the payload and the borrow counter of the
    /// cell at `addr` replaced.
    pub(crate) open spec fn cell_replaced(
        &self,
        before: &Self,
        addr: usize,
        payload: Option<T>,
        borrow_flag: BorrowFlag,
    ) -> bool {
        &&& self.slots@ == before.slots@.update(
            addr as int,
            before.slots@[addr as int].with_cell(payload, borrow_flag),
        )
        &&& self.free@ == before.free@
        &&& self.boxes_start == before.boxes_start
        &&& self.bytes_allocated == before.bytes_allocated
        &&& self.threshold == before.threshold
        &&& self.order@ == before.order@
    }

    /// Replacing what a cell holds changes that cell in the heap's view and
    /// nothing else, and keeps the heap consistent.
    pub(crate) proof fn lemma_cell_replaced(&self, addr: usize)
        requires
            self.live(addr),
        ensures
            forall|after: Self, payload: Option<T>, borrow_flag: BorrowFlag| #[trigger]
                after.cell_replaced(self, addr, payload, borrow_flag) && (payload is Some
                    || self.slots@[addr as int].cell().nullable) ==> {
                    &&& self.list_wf() ==> after.list_wf()
                    &&& self.unmarked() ==> after.unmarked()
                    &&& after.model() == self.model().with_cell(
                        addr,
                        CellView {
                            nullable: self.slots@[addr as int].cell().nullable,
                            payload,
                            borrow_flag,
                        },
                    )
                },
    {
        assert forall|after: Self, payload: Option<T>, borrow_flag: BorrowFlag| #[trigger]
            after.cell_replaced(self, addr, payload, borrow_flag) && (payload is Some
                || self.slots@[addr as int].cell().nullable) implies {
            &&& self.list_wf() ==> after.list_wf()
            &&& self.unmarked() ==> after.unmarked()
            &&& after.model() == self.model().with_cell(
                addr,
                CellView { nullable: self.slots@[addr as int].cell().nullable, payload, borrow_flag },
            )
        } by {
            let order = self.order@;
            assert forall|other: usize| after.live(other) == self.live(other) by {}
            if self.list_wf() {
                assert forall|i: int| 0 <= i < order.len() implies after.live(
                    #[trigger] order[i],
                ) by {
                    assert(self.live(order[i]));
                }
                assert forall|i: int| 0 <= i < order.len() implies #[trigger] after.linked(i) by {
                    assert(self.linked(i));
                    assert(self.live(order[i]));
                }
                assert forall|other: usize| #[trigger] after.live(other) implies order.contains(
                    other,
                ) by {
                    assert(self.live(other));
                }
                assert forall|j: int| 0 <= j < after.free@.len() implies (#[trigger] after.free@[j])
                    < after.slots@.len() && !after.slots@[after.free@[j] as int].occupied() by {
                    assert(self.free@[j] < self.slots@.len());
                }
            }
            if self.unmarked() {
                assert forall|other: usize| #[trigger] after.live(other) implies !after.marked(
                    other,
                ) by {
                    assert(self.live(other));
                    assert(!self.marked(other));
                }
            }
            assert(after.model().cells =~= self.model().cells.insert(
                addr,
                CellView { nullable: self.slots@[addr as int].cell().nullable, payload, borrow_flag },
            ));
        }
    }

    pub(crate) fn set_threshold(&mut self, threshold: usize)
        ensures
            old(self).list_wf() ==> final(self).list_wf(),
            old(self).unmarked() ==> final(self).unmarked(),
            final(self).model() == (HeapView { threshold, ..old(self).model() }),
    {
        self.threshold = threshold;
        proof {
            let order = self.order@;
            assert forall|other: usize| self.live(other) == old(self).live(other) by {}
            if old(self).list_wf() {
                assert forall|i: int| 0 <= i < order.len() implies self.live(
                    #[trigger] order[i],
                ) by {
                    assert(old(self).live(order[i]));
                }
                assert forall|i: int| 0 <= i < order.len() implies #[trigger] self.linked(i) by {
                    assert(old(self).linked(i));
                }
                assert forall|other: usize| #[trigger] self.live(other) implies order.contains(
                    other,
                ) by {
                    assert(old(self).live(other));
                }
                assert forall|j: int| 0 <= j < self.free@.len() implies (#[trigger] self.free@[j])
                    < self.slots@.len() && !self.slots@[self.free@[j] as int].occupied() by {
                    assert(old(self).free@[j] < self.slots@.len());
                }
            }
            if old(self).unmarked() {
                assert forall|other: usize| #[trigger] self.live(other) implies !self.marked(
                    other,
                ) by {
                    assert(old(self).live(other));
                    assert(!old(self).marked(other));
                }
            }
            assert(self.model().cells =~= old(self).model().cells);
        }
    }

    pub(crate) fn flag_at(&self, addr: usize) -> (flag: BorrowFlag)
        requires
            self.live(addr),
        ensures
            flag == self.slots@[addr as int].cell().borrow_flag,
    {
        self.slots[addr].borrow_flag()
    }

    pub(crate) fn set_flag_at(&mut self, addr: usize, flag: BorrowFlag)
        requires
            old(self).live(addr),
        ensures
            final(self).cell_replaced(
                old(self),
                addr,
                old(self).slots@[addr as int].cell().payload,
                flag,
            ),
    {
        self.slots[addr].set_borrow_flag(flag);
    }

    pub(crate) fn payload_at(&self, addr: usize) -> (data: &T)
        requires
            self.live(addr),
            self.slots@[addr as int].cell().payload is Some,
        ensures
            self.slots@[addr as int].cell().payload == Some(*data),
    {
        match self.slots[addr].payload() {
            Some(data) => data,
            None => unreached(),
        }
    }

    pub(crate) fn payload_mut_at(&mut self, addr: usize) -> (data: &mut T)
        requires
            old(self).live(addr),
            old(self).slots@[addr as int].cell().payload is Some,
        ensures
            old(self).slots@[addr as int].cell().payload == Some(*data),
            final(self).cell_replaced(
                old(self),
                addr,
                Some(*final(data)),
                old(self).slots@[addr as int].cell().borrow_flag,
            ),
    {
        match self.slots[addr].payload_mut() {
            Some(data) => data,
            None => unreached(),
        }
    }

    pub(crate) fn box_at(&self, addr: usize) -> (gc_box: &GcBox<T>)
        requires
            self.live(addr),
            !self.slots@[addr as int].cell().nullable,
        ensures
            gc_box@ == self.slots@[addr as int].cell(),
    {
        match &self.slots[addr] {
            Slot::Plain(gc_box) => {
                proof {
                    gc_box.lemma_view();
                }
                gc_box
            },
            _ => unreached(),
        }
    }

    pub(crate) fn nullable_box_at(&self, addr: usize) -> (gc_box: &GcNullableBox<T>)
        requires
            self.live(addr),
            self.slots@[addr as int].cell().nullable,
        ensures
            gc_box@ == self.slots@[addr as int].cell(),
    {
        match &self.slots[addr] {
            Slot::Nullable(gc_box) => {
                proof {
                    gc_box.lemma_view();
                }
                gc_box
            },
            _ => unreached(),
        }
    }

    pub(crate) fn take_at(&mut self, addr: usize) -> (data: Option<T>)
        requires
            old(self).live(addr),
            old(self).slots@[addr as int].cell().nullable,
        ensures
            data == old(self).slots@[addr as int].cell().payload,
            final(self).cell_replaced(
                old(self),
                addr,
                None,
                old(self).slots@[addr as int].cell().borrow_flag,
            ),
    {
        self.slots[addr].take()
    }

    /// Takes the cell at position `k` of the list out of the list and out of
    /// the arena. The cell before it, or the head of the list where there is
    /// none, is made to point past it.
    pub(crate) fn unlink(&mut self, prev: Option<usize>, addr: usize, Ghost(k): Ghost<int>) -> (slot:
        Slot<T>)
        requires
            old(self).list_wf(),
            0 <= k < old(self).order@.len(),
            old(self).order@[k] == addr,
            prev == (if k > 0 {
                Some(old(self).order@[k - 1])
            } else {
                None
            }),
        ensures
            final(self).list_wf(),
            final(self).order@ == old(self).order@.remove(k),
            slot == old(self).slots@[addr as int],
            !final(self).live(addr),
            final(self).slots@.len() == old(self).slots@.len(),
            forall|other: int|
                0 <= other < old(self).slots@.len() && other != addr ==> {
                    &&& (#[trigger] final(self).slots@[other]).occupied() == old(self).slots@[other].occupied()
                    &&& final(self).slots@[other].cell() == old(self).slots@[other].cell()
                    &&& final(self).slots@[other].header().marked == old(self).slots@[other].header().marked
                },
            final(self).threshold == old(self).threshold,
    {
        let ghost before = old(self).order@;
        assert(self.live(before[k]));
        assert(self.linked(k));
        let next = self.slots[addr].next();
        match prev {
            None => {
                self.boxes_start = next;
            },
            Some(p) => {
                assert(self.live(before[k - 1]));
                self.slots[p].set_next(next);
            },
        }
        let mut slot = Slot::Free;
        std::mem::swap(&mut slot, &mut self.slots[addr]);
        self.free.push(addr);
        proof {
            assert(before.len() * size_of::<GcBox<T>>() == (before.len() - 1) * size_of::<
                GcBox<T>,
            >() + size_of::<GcBox<T>>()) by (nonlinear_arith);
        }
        self.bytes_allocated = self.bytes_allocated - core::mem::size_of::<GcBox<T>>();
        proof {
            self.order@ = before.remove(k);
            let order = self.order@;
            assert forall|i: int| 0 <= i < order.len() implies order[i] == before[if i < k {
                i
            } else {
                i + 1
            }] by {}
            assert forall|i: int| 0 <= i < order.len() implies self.live(#[trigger] order[i]) by {
                let i0 = if i < k {
                    i
                } else {
                    i + 1
                };
                assert(old(self).live(before[i0]));
                assert(before[i0] != addr);
            }
            assert forall|i: int| 0 <= i < order.len() implies #[trigger] self.linked(i) by {
                let i0 = if i < k {
                    i
                } else {
                    i + 1
                };
                assert(old(self).linked(i0));
                assert(old(self).live(before[i0]));
                assert(before[i0] != addr);
                if i == k - 1 {
                    assert(order[i] == prev->0);
                } else if k > 0 {
                    assert(before[i0] != before[k - 1]);
                }
            }
            assert forall|other: usize| #[trigger] self.live(other) implies order.contains(
                other,
            ) by {
                assert(old(self).live(other));
                let i0 = choose|i0: int| 0 <= i0 < before.len() && before[i0] == other;
                let i = if i0 < k {
                    i0
                } else {
                    i0 - 1
                };
                assert(order[i] == other);
            }
            assert(order.no_duplicates());
            let free = self.free@;
            assert forall|j: int| 0 <= j < free.len() implies (#[trigger] free[j])
                < self.slots@.len() && !self.slots@[free[j] as int].occupied() by {
                if j < free.len() - 1 {
                    assert(free[j] == old(self).free@[j]);
                    assert(!old(self).slots@[old(self).free@[j] as int].occupied());
                }
            }
            assert forall|i: int, j: int| 0 <= i < free.len() && 0 <= j < free.len() && i
                != j implies free[i] != free[j] by {
                if i < free.len() - 1 {
                    assert(free[i] == old(self).free@[i]);
                    assert(!old(self).slots@[old(self).free@[i] as int].occupied());
                }
                if j < free.len() - 1 {
                    assert(free[j] == old(self).free@[j]);
                    assert(!old(self).slots@[old(self).free@[j] as int].occupied());
                }
            }
        }
        slot
    }

    /// The number of cells on the heap's list.
    pub fn boxes_len(&self) -> (len: usize)
        requires
            self.wf(),
        ensures
            len == self@.order.len(),
    {
        let slots = self.slots.len();
        let mut len: usize = 0;
        let mut a_box = self.boxes_start;
        while a_box.is_some()
            invariant
                self.list_wf(),
                self.order@.len() <= slots,
                len <= self.order@.len(),
                a_box == (if len < self.order@.len() {
                    Some(self.order@[len as int])
                } else {
                    None
                }),
            decreases self.order@.len() - len,
        {
            let addr = a_box.unwrap();
            assert(self.live(self.order@[len as int]));
            assert(self.linked(len as int));
            a_box = self.slots[addr].next();
            len = len + 1;
        }
        len
    }
}

} // verus!
