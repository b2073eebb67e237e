//! A container of one integer, shared by reference.

use vstd::prelude::*;
use vstd::layout::size_of;
use crate::cell::{CellView, GcBox};
use crate::gc::{allocation, allocation_base};
use crate::heap::GcState;
use crate::reference::GcRef;
use crate::roots::{roots_of_chain, ShadowStack};
use crate::trace::{Finalize, GcTrace, Tracer};

verus! {

#[derive(Debug, Clone, Copy, PartialEq, Eq, Structural)]
pub struct IntContainer {
    pub n: i32,
}

impl Finalize for IntContainer {
    open spec fn finalized(pre: Self, post: Self) -> bool {
        post == pre
    }

    fn finalize(&mut self) {
    }
}

impl GcTrace for IntContainer {
    open spec fn refs(&self) -> Seq<usize> {
        Seq::empty()
    }

    fn trace(&self, tracer: &mut Tracer) {
    }
}

/// Stores `n` in the container that `c` names. Every reference to the
/// container sees the new value.
pub fn set(state: &mut GcState<IntContainer>, c: GcRef<IntContainer>, n: i32)
    requires
        old(state)@.holds(c@),
    ensures
        final(state)@ == old(state)@.with_payload(c@, Some(IntContainer { n })),
        old(state).wf() ==> final(state).wf(),
{
    let mut c = c;
    c.as_mut(state).n = n;
}

/// Allocates a container, copies the reference to it, and stores through
/// both copies in turn: the container ends up with the value stored last.
pub fn test(state: &mut GcState<IntContainer>, stack: &ShadowStack) -> (c: GcRef<IntContainer>)
    requires
        old(state).wf(),
        old(state)@.bytes_allocated + size_of::<GcBox<IntContainer>>() <= usize::MAX,
        old(state)@.collection_due() ==> roots_of_chain(stack.head) is Ok,
    ensures
        final(state).wf(),
        final(state)@ == allocation(
            old(state)@,
            roots_of_chain(stack.head),
            c@,
            CellView::fresh(false, IntContainer { n: 43 }),
        ),
{
    let c1 = GcRef::new(state, stack, IntContainer { n: 42 });
    let c2 = c1;
    let ghost allocated = state@;
    set(state, c2, 42);
    set(state, c1, 43);
    proof {
        let before = CellView::fresh(false, IntContainer { n: 42 });
        let cell = CellView::fresh(false, IntContainer { n: 43 });
        assert(state@.cells =~= allocated.cells.insert(c1@, cell));
        let prepared = allocation_base(old(state)@, roots_of_chain(stack.head));
        assert(allocated == prepared.allocated(c1@, before));
        assert(prepared.cells.insert(c1@, before).insert(c1@, cell) =~= prepared.cells.insert(
            c1@,
            cell,
        ));
        assert(state@ == prepared.allocated(c1@, cell));
    }
    c1
}

} // verus!
