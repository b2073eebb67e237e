//! Borrow guards: the tokens that stand for one granted borrow of a cell.
//!
//! A guard is obtained from the heap under the rules of the borrow counter,
//! gives access to the payload for as long as it is held, and is handed back
//! to the heap, which then restores the counter.

use vstd::prelude::*;
use std::marker::PhantomData;
use crate::borrow::{
    acquire_exclusive,
    acquire_shared,
    exclusive_released,
    release_exclusive,
    release_shared,
    shared_released,
    EXCLUSIVE,
    UNUSED,
};
use crate::heap::{GcState, HeapView};

verus! {

/// One shared borrow of a cell.
pub struct GcBorrow<T> {
    target: usize,
    phantom: PhantomData<T>,
}

/// The exclusive borrow of a cell.
pub struct GcBorrowMut<T> {
    target: usize,
    phantom: PhantomData<T>,
}

impl<T> View for GcBorrow<T> {
    type V = usize;

    /// The address of the borrowed cell.
    closed spec fn view(&self) -> usize {
        self.target
    }
}

impl<T> View for GcBorrowMut<T> {
    type V = usize;

    /// The address of the borrowed cell.
    closed spec fn view(&self) -> usize {
        self.target
    }
}

impl<T> GcBorrow<T> {
    /// Asks for a shared borrow of the cell at `addr`.
    ///
    /// The borrow is granted unless no cell lives there, an exclusive borrow
    /// is outstanding, or the counter cannot count one more. A refusal
    /// leaves the heap as it was.
    pub fn new(state: &mut GcState<T>, addr: usize) -> (guard: Option<GcBorrow<T>>)
        ensures
            match old(state)@.shared_borrowed(addr) {
                Some(after) => guard matches Some(granted) && granted@ == addr && final(state)@
                    == after,
                None => guard is None && final(state)@ == old(state)@,
            },
            old(state).wf() ==> final(state).wf(),
    {
        proof {
            state.lemma_view();
        }
        if !state.contains(addr) {
            return None;
        }
        match acquire_shared(state.flag_at(addr)) {
            None => None,
            Some(flag) => {
                proof {
                    state.lemma_cell_replaced(addr);
                }
                state.set_flag_at(addr, flag);
                proof {
                    state.lemma_view();
                }
                Some(GcBorrow { target: addr, phantom: PhantomData })
            },
        }
    }

    /// The address of the borrowed cell.
    pub fn target(&self) -> (addr: usize)
        ensures
            addr == self@,
    {
        self.target
    }

    /// The borrowed payload.
    pub fn deref<'a>(&self, state: &'a GcState<T>) -> (data: &'a T)
        requires
            state@.holds(self@),
        ensures
            *data == state@.payload(self@),
    {
        proof {
            state.lemma_view();
        }
        state.payload_at(self.target)
    }

    /// Hands the borrow back: the counter of the cell goes down by one.
    pub fn release(self, state: &mut GcState<T>)
        requires
            old(state)@.contains(self@),
            old(state)@.cells[self@].borrow_flag > UNUSED,
        ensures
            final(state)@ == old(state)@.with_flag(
                self@,
                shared_released(old(state)@.cells[self@].borrow_flag),
            ),
            old(state).wf() ==> final(state).wf(),
    {
        proof {
            state.lemma_view();
            state.lemma_cell_replaced(self.target);
        }
        let flag = release_shared(state.flag_at(self.target));
        state.set_flag_at(self.target, flag);
        proof {
            state.lemma_view();
        }
    }
}

impl<T> GcBorrowMut<T> {
    /// Asks for the exclusive borrow of the cell at `addr`.
    ///
    /// The borrow is granted only where a cell lives there that nobody
    /// borrows. A refusal leaves the heap as it was.
    pub fn new(state: &mut GcState<T>, addr: usize) -> (guard: Option<GcBorrowMut<T>>)
        ensures
            match old(state)@.exclusive_borrowed(addr) {
                Some(after) => guard matches Some(granted) && granted@ == addr && final(state)@
                    == after,
                None => guard is None && final(state)@ == old(state)@,
            },
            old(state).wf() ==> final(state).wf(),
    {
        proof {
            state.lemma_view();
        }
        if !state.contains(addr) {
            return None;
        }
        match acquire_exclusive(state.flag_at(addr)) {
            None => None,
            Some(flag) => {
                proof {
                    state.lemma_cell_replaced(addr);
                }
                state.set_flag_at(addr, flag);
                proof {
                    state.lemma_view();
                }
                Some(GcBorrowMut { target: addr, phantom: PhantomData })
            },
        }
    }

    /// The address of the borrowed cell.
    pub fn target(&self) -> (addr: usize)
        ensures
            addr == self@,
    {
        self.target
    }

    /// The borrowed payload.
    pub fn deref<'a>(&self, state: &'a GcState<T>) -> (data: &'a T)
        requires
            state@.holds(self@),
        ensures
            *data == state@.payload(self@),
    {
        proof {
            state.lemma_view();
        }
        state.payload_at(self.target)
    }

    /// The borrowed payload, to be changed in place.
    pub fn deref_mut<'a>(&mut self, state: &'a mut GcState<T>) -> (data: &'a mut T)
        requires
            old(state)@.holds(old(self)@),
        ensures
            final(self)@ == old(self)@,
            *data == old(state)@.payload(old(self)@),
            final(state)@ == old(state)@.with_payload(old(self)@, Some(*final(data))),
            old(state).wf() ==> final(state).wf(),
    {
        proof {
            state.lemma_view();
            state.lemma_cell_replaced(self.target);
            GcState::<T>::lemma_views();
        }
        state.payload_mut_at(self.target)
    }

    /// Hands the borrow back: the counter of the cell returns to unborrowed.
    pub fn release(self, state: &mut GcState<T>)
        requires
            old(state)@.contains(self@),
            old(state)@.cells[self@].borrow_flag < UNUSED,
        ensures
            final(state)@ == old(state)@.with_flag(
                self@,
                exclusive_released(old(state)@.cells[self@].borrow_flag),
            ),
            old(state).wf() ==> final(state).wf(),
    {
        proof {
            state.lemma_view();
            state.lemma_cell_replaced(self.target);
        }
        let flag = release_exclusive(state.flag_at(self.target));
        state.set_flag_at(self.target, flag);
        proof {
            state.lemma_view();
        }
    }
}

/// Shared borrows of one cell coexist and see the same payload; while one
/// is outstanding an exclusive borrow is refused; once both are handed back
/// the exclusive borrow is granted.
pub proof fn lemma_borrow_aliasing<T>(heap: HeapView<T>, addr: usize)
    requires
        heap.contains(addr),
        heap.cells[addr].borrow_flag == UNUSED,
    ensures
        heap.shared_borrowed(addr) matches Some(once) && once.shared_borrowed(addr) matches Some(
            twice,
        ) && {
            &&& once.cells[addr].payload == heap.cells[addr].payload
            &&& twice.cells[addr].payload == heap.cells[addr].payload
            &&& once.exclusive_borrowed(addr) is None
            &&& twice.exclusive_borrowed(addr) is None
            &&& twice.with_flag(addr, shared_released(twice.cells[addr].borrow_flag)).with_flag(
                addr,
                shared_released(shared_released(twice.cells[addr].borrow_flag)),
            ).exclusive_borrowed(addr) matches Some(exclusive)
            &&& exclusive.cells[addr].borrow_flag == EXCLUSIVE
            &&& exclusive.cells[addr].payload == heap.cells[addr].payload
        },
{
}

} // verus!
