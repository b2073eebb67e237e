//! References to cells. A reference is a small value that can be copied
//! freely; it names a cell by its address and does nothing to keep the cell
//! alive. Two references are equal when they name the same address.

use vstd::prelude::*;
use vstd::layout::size_of;
use std::marker::PhantomData;
use crate::borrow::BorrowFlag;
use crate::cell::{CellView, GcBox, GcNullableBox};
use crate::gc::{allocation, allocation_base, Gc};
use crate::guard::{GcBorrow, GcBorrowMut};
use crate::heap::{GcState, HeapView};
use crate::roots::{roots_of_chain, ShadowStack};
use crate::trace::{Finalize, GcTrace, Tracer};

verus! {

/// A reference to a cell whose payload stays in place.
#[derive(Debug, Hash)]
pub struct GcRef<T> {
    obj_ref: usize,
    phantom: PhantomData<T>,
}

/// A reference to a cell whose payload can be moved out once.
#[derive(Debug, Hash)]
pub struct GcNullableRef<T> {
    obj_ref: usize,
    phantom: PhantomData<T>,
}

impl<T> View for GcRef<T> {
    type V = usize;

    /// The address of the cell.
    closed spec fn view(&self) -> usize {
        self.obj_ref
    }
}

impl<T> View for GcNullableRef<T> {
    type V = usize;

    /// The address of the cell.
    closed spec fn view(&self) -> usize {
        self.obj_ref
    }
}

impl<T> Clone for GcRef<T> {
    fn clone(&self) -> (copy: Self)
        ensures
            copy == *self,
    {
        GcRef { obj_ref: self.obj_ref, phantom: PhantomData }
    }
}

impl<T> Copy for GcRef<T> {

}

impl<T> PartialEq for GcRef<T> {
    fn eq(&self, other: &Self) -> (equal: bool) {
        self.obj_ref == other.obj_ref
    }
}

impl<T> Eq for GcRef<T> {

}

impl<T> vstd::std_specs::cmp::PartialEqSpecImpl for GcRef<T> {
    open spec fn obeys_eq_spec() -> bool {
        true
    }

    open spec fn eq_spec(&self, other: &Self) -> bool {
        self@ == other@
    }
}

impl<T> Clone for GcNullableRef<T> {
    fn clone(&self) -> (copy: Self)
        ensures
            copy == *self,
    {
        GcNullableRef { obj_ref: self.obj_ref, phantom: PhantomData }
    }
}

impl<T> Copy for GcNullableRef<T> {

}

impl<T> PartialEq for GcNullableRef<T> {
    fn eq(&self, other: &Self) -> (equal: bool) {
        self.obj_ref == other.obj_ref
    }
}

impl<T> Eq for GcNullableRef<T> {

}

impl<T> vstd::std_specs::cmp::PartialEqSpecImpl for GcNullableRef<T> {
    open spec fn obeys_eq_spec() -> bool {
        true
    }

    open spec fn eq_spec(&self, other: &Self) -> bool {
        self@ == other@
    }
}

impl<T> Finalize for GcRef<T> {
    open spec fn finalized(pre: Self, post: Self) -> bool {
        post == pre
    }

    fn finalize(&mut self) {
    }
}

impl<T> GcTrace for GcRef<T> {
    open spec fn refs(&self) -> Seq<usize> {
        seq![self@]
    }

    fn trace(&self, tracer: &mut Tracer) {
        tracer.mark(self.obj_ref);
    }
}

impl<T> Finalize for GcNullableRef<T> {
    open spec fn finalized(pre: Self, post: Self) -> bool {
        post == pre
    }

    fn finalize(&mut self) {
    }
}

impl<T> GcTrace for GcNullableRef<T> {
    open spec fn refs(&self) -> Seq<usize> {
        seq![self@]
    }

    fn trace(&self, tracer: &mut Tracer) {
        tracer.mark(self.obj_ref);
    }
}

impl<T> GcBox<T> {
    /// The reference that names the cell at `ptr`.
    pub fn ref_from_ptr(ptr: usize) -> (gc_ref: GcRef<T>)
        ensures
            gc_ref@ == ptr,
    {
        GcRef { obj_ref: ptr, phantom: PhantomData }
    }
}

impl<T> GcNullableBox<T> {
    /// The reference that names the cell at `ptr`.
    pub fn ref_from_ptr(ptr: usize) -> (gc_ref: GcNullableRef<T>)
        ensures
            gc_ref@ == ptr,
    {
        GcNullableRef { obj_ref: ptr, phantom: PhantomData }
    }
}

impl<T> GcRef<T> {
    /// The address of the cell.
    pub fn as_ptr(&self) -> (addr: usize)
        ensures
            addr == self@,
    {
        self.obj_ref
    }

    /// The payload of the cell, without a look at its borrow counter.
    pub fn as_ref<'a>(&self, state: &'a GcState<T>) -> (data: &'a T)
        requires
            state@.holds(self@),
        ensures
            *data == state@.payload(self@),
    {
        proof {
            state.lemma_view();
        }
        state.payload_at(self.obj_ref)
    }

    /// The payload of the cell, to be changed in place, without a look at
    /// its borrow counter.
    pub fn as_mut<'a>(&mut self, state: &'a mut GcState<T>) -> (data: &'a mut T)
        requires
            old(state)@.holds(old(self)@),
        ensures
            final(self)@ == old(self)@,
            *data == old(state)@.payload(old(self)@),
            final(state)@ == old(state)@.with_payload(old(self)@, Some(*final(data))),
            old(state).wf() ==> final(state).wf(),
    {
        proof {
            state.lemma_view();
            state.lemma_cell_replaced(self.obj_ref);
            GcState::<T>::lemma_views();
        }
        state.payload_mut_at(self.obj_ref)
    }

    /// The borrow counter of the cell.
    pub fn borrow_flag(&self, state: &GcState<T>) -> (flag: BorrowFlag)
        requires
            state@.contains(self@),
        ensures
            flag == state@.cells[self@].borrow_flag,
    {
        proof {
            state.lemma_view();
        }
        state.flag_at(self.obj_ref)
    }

    /// The cell itself.
    pub fn as_box<'a>(&self, state: &'a GcState<T>) -> (gc_box: &'a GcBox<T>)
        requires
            state@.plain_at(self@),
        ensures
            gc_box@ == state@.cells[self@],
    {
        proof {
            state.lemma_view();
        }
        state.box_at(self.obj_ref)
    }

    /// Takes a shared borrow of the cell.
    pub fn borrow(&self, state: &mut GcState<T>) -> (guard: GcBorrow<T>)
        requires
            old(state)@.shared_borrowed(self@) is Some,
        ensures
            guard@ == self@,
            Some(final(state)@) == old(state)@.shared_borrowed(self@),
            old(state).wf() ==> final(state).wf(),
    {
        match GcBorrow::new(state, self.obj_ref) {
            Some(guard) => guard,
            None => unreached(),
        }
    }

    /// Takes the exclusive borrow of the cell.
    pub fn borrow_mut(&mut self, state: &mut GcState<T>) -> (guard: GcBorrowMut<T>)
        requires
            old(state)@.exclusive_borrowed(old(self)@) is Some,
        ensures
            final(self)@ == old(self)@,
            guard@ == old(self)@,
            Some(final(state)@) == old(state)@.exclusive_borrowed(old(self)@),
            old(state).wf() ==> final(state).wf(),
    {
        match GcBorrowMut::new(state, self.obj_ref) {
            Some(guard) => guard,
            None => unreached(),
        }
    }
}

impl<T: GcTrace> GcRef<T> {
    /// Allocates a cell for `b`; see `Gc::new`.
    pub fn new(state: &mut GcState<T>, stack: &ShadowStack, b: T) -> (gc_ref: GcRef<T>)
        requires
            old(state).wf(),
            old(state)@.bytes_allocated + size_of::<GcBox<T>>() <= usize::MAX,
            old(state)@.collection_due() ==> roots_of_chain(stack.head) is Ok,
        ensures
            final(state).wf(),
            final(state)@ == allocation(
                old(state)@,
                roots_of_chain(stack.head),
                gc_ref@,
                CellView::fresh(false, b),
            ),
            final(state)@.contains(gc_ref@),
            !allocation_base(old(state)@, roots_of_chain(stack.head)).contains(gc_ref@),
    {
        Gc::new(state, stack, b)
    }
}

impl<T> GcNullableRef<T> {
    /// The address of the cell.
    pub fn as_ptr(&self) -> (addr: usize)
        ensures
            addr == self@,
    {
        self.obj_ref
    }

    /// The payload of the cell, without a look at its borrow counter.
    pub fn as_ref<'a>(&self, state: &'a GcState<T>) -> (data: &'a T)
        requires
            state@.holds(self@),
        ensures
            *data == state@.payload(self@),
    {
        proof {
            state.lemma_view();
        }
        state.payload_at(self.obj_ref)
    }

    /// The payload of the cell, to be changed in place, without a look at
    /// its borrow counter.
    pub fn as_mut<'a>(&mut self, state: &'a mut GcState<T>) -> (data: &'a mut T)
        requires
            old(state)@.holds(old(self)@),
        ensures
            final(self)@ == old(self)@,
            *data == old(state)@.payload(old(self)@),
            final(state)@ == old(state)@.with_payload(old(self)@, Some(*final(data))),
            old(state).wf() ==> final(state).wf(),
    {
        proof {
            state.lemma_view();
            state.lemma_cell_replaced(self.obj_ref);
            GcState::<T>::lemma_views();
        }
        state.payload_mut_at(self.obj_ref)
    }

    /// The borrow counter of the cell.
    pub fn borrow_flag(&self, state: &GcState<T>) -> (flag: BorrowFlag)
        requires
            state@.contains(self@),
        ensures
            flag == state@.cells[self@].borrow_flag,
    {
        proof {
            state.lemma_view();
        }
        state.flag_at(self.obj_ref)
    }

    /// The cell itself.
    pub fn as_box<'a>(&self, state: &'a GcState<T>) -> (gc_box: &'a GcNullableBox<T>)
        requires
            state@.nullable_at(self@),
        ensures
            gc_box@ == state@.cells[self@],
    {
        proof {
            state.lemma_view();
        }
        state.nullable_box_at(self.obj_ref)
    }

    /// Whether the payload has been moved out of the cell.
    pub fn is_null(&self, state: &GcState<T>) -> (null: bool)
        requires
            state@.contains(self@),
        ensures
            null == !state@.holds(self@),
    {
        proof {
            state.lemma_view();
        }
        state.slots[self.obj_ref].payload().is_none()
    }

    /// Takes a shared borrow of the cell.
    pub fn borrow(&self, state: &mut GcState<T>) -> (guard: GcBorrow<T>)
        requires
            old(state)@.shared_borrowed(self@) is Some,
        ensures
            guard@ == self@,
            Some(final(state)@) == old(state)@.shared_borrowed(self@),
            old(state).wf() ==> final(state).wf(),
    {
        match GcBorrow::new(state, self.obj_ref) {
            Some(guard) => guard,
            None => unreached(),
        }
    }

    /// Takes the exclusive borrow of the cell.
    pub fn borrow_mut(&mut self, state: &mut GcState<T>) -> (guard: GcBorrowMut<T>)
        requires
            old(state)@.exclusive_borrowed(old(self)@) is Some,
        ensures
            final(self)@ == old(self)@,
            guard@ == old(self)@,
            Some(final(state)@) == old(state)@.exclusive_borrowed(old(self)@),
            old(state).wf() ==> final(state).wf(),
    {
        match GcBorrowMut::new(state, self.obj_ref) {
            Some(guard) => guard,
            None => unreached(),
        }
    }

    /// Moves the payload out of the cell. The first call returns it and
    /// leaves the cell empty for good; every later call returns nothing.
    pub fn remove(&mut self, state: &mut GcState<T>) -> (data: Option<T>)
        requires
            old(state)@.nullable_at(old(self)@),
        ensures
            final(self)@ == old(self)@,
            data == old(state)@.cells[old(self)@].payload,
            final(state)@ == old(state)@.with_payload(old(self)@, None),
            old(state).wf() ==> final(state).wf(),
    {
        proof {
            state.lemma_view();
            state.lemma_cell_replaced(self.obj_ref);
        }
        let data = state.take_at(self.obj_ref);
        proof {
            state.lemma_view();
        }
        data
    }
}

/// A root whose payload type is not known: the address of a cell and the
/// kind of the cell.
#[derive(Debug, Hash, Clone, Copy, PartialEq, Eq, Structural)]
pub enum GcMaybeNullableRoot {
    BoxRef(usize),
    NullableBoxRef(usize),
}

/// A root of a collection, named without the type of its payload.
#[derive(Debug, Hash, Clone, Copy, PartialEq, Eq, Structural)]
pub struct GcUntypedRoot {
    pub gc_ref: GcMaybeNullableRoot,
}

impl GcUntypedRoot {
    /// The root that names the plain cell at `gc_ref`.
    pub fn new(gc_ref: usize) -> (root: GcUntypedRoot)
        ensures
            root.gc_ref == GcMaybeNullableRoot::BoxRef(gc_ref),
    {
        GcUntypedRoot { gc_ref: GcMaybeNullableRoot::BoxRef(gc_ref) }
    }

    /// The address that the root names.
    pub fn addr(&self) -> (addr: usize)
        ensures
            addr == match self.gc_ref {
                GcMaybeNullableRoot::BoxRef(ptr) => ptr,
                GcMaybeNullableRoot::NullableBoxRef(ptr) => ptr,
            },
    {
        match self.gc_ref {
            GcMaybeNullableRoot::BoxRef(ptr) => ptr,
            GcMaybeNullableRoot::NullableBoxRef(ptr) => ptr,
        }
    }
}

} // verus!
