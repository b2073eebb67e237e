//! The cells of the managed heap. A cell is a header followed by a payload;
//! the header comes first, so that the collector finds it whatever the
//! payload is.
//!
//! All cells of one heap hold the same type of payload, and the collector
//! traces and cleans up a cell through that type. A program whose cells are
//! of several kinds makes the payload type an enum: the variant then says
//! what a cell holds.

use vstd::prelude::*;
use crate::borrow::{BorrowFlag, UNUSED};
use crate::trace::{GcTrace, Tracer};

verus! {

/// What the collector keeps in front of every payload.
pub struct GcBoxHeader {
    /// The next cell of the heap-wide list, which runs from the newest cell
    /// to the oldest.
    pub(crate) next: Option<usize>,
    /// Set while a collection has found the cell reachable.
    pub(crate) marked: bool,
}

/// A cell whose payload is always present.
pub struct GcBox<T> {
    pub(crate) header: GcBoxHeader,
    pub(crate) borrow_flag: BorrowFlag,
    pub(crate) data: T,
}

/// A cell whose payload can be moved out once, after which the cell stays
/// empty.
pub struct GcNullableBox<T> {
    pub(crate) header: GcBoxHeader,
    pub(crate) borrow_flag: BorrowFlag,
    pub(crate) data: Option<T>,
}

/// A place of the arena: empty, or holding a cell of either kind.
pub(crate) enum Slot<T> {
    Free,
    Plain(GcBox<T>),
    Nullable(GcNullableBox<T>),
}

/// What a cell holds, apart from the collector's bookkeeping.
pub struct CellView<T> {
    /// Whether the payload can be moved out.
    pub nullable: bool,
    /// The payload; `None` once it has been moved out.
    pub payload: Option<T>,
    pub borrow_flag: BorrowFlag,
}

impl<T> CellView<T> {
    /// The cell as it is right after allocation.
    pub open spec fn fresh(nullable: bool, data: T) -> CellView<T> {
        CellView { nullable, payload: Some(data), borrow_flag: UNUSED }
    }
}

impl<T: GcTrace> CellView<T> {
    /// The addresses that the payload refers to. An emptied cell refers to
    /// nothing.
    pub open spec fn refs(self) -> Seq<usize> {
        match self.payload {
            Some(data) => data.refs(),
            None => Seq::empty(),
        }
    }
}

impl<T> View for GcBox<T> {
    type V = CellView<T>;

    closed spec fn view(&self) -> CellView<T> {
        CellView { nullable: false, payload: Some(self.data), borrow_flag: self.borrow_flag }
    }
}

impl<T> View for GcNullableBox<T> {
    type V = CellView<T>;

    closed spec fn view(&self) -> CellView<T> {
        CellView { nullable: true, payload: self.data, borrow_flag: self.borrow_flag }
    }
}

impl<T> GcBox<T> {
    /// The collector's bookkeeping in front of the payload.
    pub closed spec fn link(&self) -> GcBoxHeader {
        self.header
    }

    pub(crate) proof fn lemma_view(&self)
        ensures
            self@ == (CellView {
                nullable: false,
                payload: Some(self.data),
                borrow_flag: self.borrow_flag,
            }),
    {
    }

    pub(crate) fn new(next: Option<usize>, data: T) -> (b: GcBox<T>)
        ensures
            b.header.next == next,
            !b.header.marked,
            b.borrow_flag == UNUSED,
            b.data == data,
    {
        GcBox { header: GcBoxHeader { next, marked: false }, borrow_flag: UNUSED, data }
    }

    pub fn as_ref(&self) -> (data: &T)
        ensures
            self@.payload == Some(*data),
    {
        &self.data
    }

    pub fn as_mut(&mut self) -> (data: &mut T)
        ensures
            old(self)@.payload == Some(*data),
            final(self)@ == (CellView { payload: Some(*final(data)), ..old(self)@ }),
            final(self).link() == old(self).link(),
    {
        &mut self.data
    }

    pub fn data(&self) -> (data: &T)
        ensures
            self@.payload == Some(*data),
    {
        &self.data
    }

    pub fn borrow_flag(&self) -> (flag: BorrowFlag)
        ensures
            flag == self@.borrow_flag,
    {
        self.borrow_flag
    }
}

impl<T> GcNullableBox<T> {
    /// The collector's bookkeeping in front of the payload.
    pub closed spec fn link(&self) -> GcBoxHeader {
        self.header
    }

    pub(crate) proof fn lemma_view(&self)
        ensures
            self@ == (CellView {
                nullable: true,
                payload: self.data,
                borrow_flag: self.borrow_flag,
            }),
    {
    }

    pub(crate) fn new(next: Option<usize>, data: T) -> (b: GcNullableBox<T>)
        ensures
            b.header.next == next,
            !b.header.marked,
            b.borrow_flag == UNUSED,
            b.data == Some(data),
    {
        GcNullableBox {
            header: GcBoxHeader { next, marked: false },
            borrow_flag: UNUSED,
            data: Some(data),
        }
    }

    /// Whether the payload has been moved out.
    pub fn is_null(&self) -> (b: bool)
        ensures
            b == (self@.payload is None),
    {
        self.data.is_none()
    }

    /// Moves the payload out. Only the first call finds one.
    pub fn take(&mut self) -> (data: Option<T>)
        ensures
            data == old(self)@.payload,
            final(self)@ == (CellView { payload: None, ..old(self)@ }),
            final(self).link() == old(self).link(),
    {
        self.data.take()
    }

    pub fn as_ref(&self) -> (data: &T)
        requires
            self@.payload is Some,
        ensures
            self@.payload == Some(*data),
    {
        self.data.as_ref().unwrap()
    }

    pub fn as_mut(&mut self) -> (data: &mut T)
        requires
            old(self)@.payload is Some,
        ensures
            old(self)@.payload == Some(*data),
            final(self)@ == (CellView { payload: Some(*final(data)), ..old(self)@ }),
            final(self).link() == old(self).link(),
    {
        self.data.as_mut().unwrap()
    }

    pub fn borrow_flag(&self) -> (flag: BorrowFlag)
        ensures
            flag == self@.borrow_flag,
    {
        self.borrow_flag
    }
}

impl<T: GcTrace> GcBox<T> {
    /// Visits the cell for the marking phase: a cell that carries no mark
    /// yet gets one and names what its payload refers to; a marked cell is
    /// left alone.
    pub(crate) fn trace_inner(&mut self, tracer: &mut Tracer)
        ensures
            final(self).header.marked,
            final(self).header.next == old(self).header.next,
            final(self).borrow_flag == old(self).borrow_flag,
            final(self).data == old(self).data,
            final(tracer)@ == (if old(self).header.marked {
                old(tracer)@
            } else {
                old(tracer)@ + old(self).data.refs()
            }),
    {
        let marked = self.header.marked;
        if !marked {
            self.header.marked = true;
            self.data.trace(tracer);
        }
    }
}

impl<T: GcTrace> GcNullableBox<T> {
    /// Visits the cell for the marking phase. An emptied cell names nothing.
    pub(crate) fn trace_inner(&mut self, tracer: &mut Tracer)
        ensures
            final(self).header.marked,
            final(self).header.next == old(self).header.next,
            final(self).borrow_flag == old(self).borrow_flag,
            final(self).data == old(self).data,
            final(tracer)@ == (if old(self).header.marked {
                old(tracer)@
            } else {
                old(tracer)@ + old(self).data.refs()
            }),
    {
        let marked = self.header.marked;
        if !marked {
            self.header.marked = true;
            self.data.trace(tracer);
        }
    }
}

impl<T: GcTrace> Slot<T> {
    /// Visits the cell in the slot, if there is one, for the marking phase.
    pub(crate) fn trace_inner(&mut self, tracer: &mut Tracer)
        ensures
            final(self).occupied() == old(self).occupied(),
            final(self).cell() == old(self).cell(),
            final(self).header().next == old(self).header().next,
            final(self).header().marked == old(self).occupied(),
            final(tracer)@ == (if old(self).occupied() && !old(self).header().marked {
                old(tracer)@ + old(self).cell().refs()
            } else {
                old(tracer)@
            }),
    {
        match self {
            Slot::Free => {},
            Slot::Plain(b) => b.trace_inner(tracer),
            Slot::Nullable(b) => b.trace_inner(tracer),
        }
    }
}

impl<T> Slot<T> {
    pub(crate) open spec fn occupied(self) -> bool {
        !(self is Free)
    }

    pub(crate) open spec fn header(self) -> GcBoxHeader {
        match self {
            Slot::Free => GcBoxHeader { next: None, marked: false },
            Slot::Plain(b) => b.header,
            Slot::Nullable(b) => b.header,
        }
    }

    pub(crate) open spec fn cell(self) -> CellView<T> {
        match self {
            Slot::Free => CellView { nullable: false, payload: None, borrow_flag: UNUSED },
            Slot::Plain(b) => CellView {
                nullable: false,
                payload: Some(b.data),
                borrow_flag: b.borrow_flag,
            },
            Slot::Nullable(b) => CellView {
                nullable: true,
                payload: b.data,
                borrow_flag: b.borrow_flag,
            },
        }
    }

    /// The slot with another header and the same cell.
    pub(crate) open spec fn with_header(self, header: GcBoxHeader) -> Slot<T> {
        match self {
            Slot::Free => Slot::Free,
            Slot::Plain(b) => Slot::Plain(GcBox { header, ..b }),
            Slot::Nullable(b) => Slot::Nullable(GcNullableBox { header, ..b }),
        }
    }

    /// The slot with another cell behind the same header. An empty slot stays
    /// empty, and no cell changes its kind.
    pub(crate) open spec fn with_cell(self, payload: Option<T>, borrow_flag: BorrowFlag) -> Slot<T> {
        match self {
            Slot::Free => Slot::Free,
            Slot::Plain(b) => match payload {
                Some(data) => Slot::Plain(GcBox { header: b.header, borrow_flag, data }),
                None => Slot::Plain(GcBox { borrow_flag, ..b }),
            },
            Slot::Nullable(b) => Slot::Nullable(
                GcNullableBox { header: b.header, borrow_flag, data: payload },
            ),
        }
    }

    pub(crate) fn borrow_flag(&self) -> (flag: BorrowFlag)
        ensures
            flag == self.cell().borrow_flag,
    {
        match self {
            Slot::Free => UNUSED,
            Slot::Plain(b) => b.borrow_flag(),
            Slot::Nullable(b) => b.borrow_flag(),
        }
    }

    pub(crate) fn set_borrow_flag(&mut self, flag: BorrowFlag)
        ensures
            *final(self) == old(self).with_cell(old(self).cell().payload, flag),
    {
        match self {
            Slot::Free => {},
            Slot::Plain(b) => {
                b.borrow_flag = flag;
            },
            Slot::Nullable(b) => {
                b.borrow_flag = flag;
            },
        }
    }

    pub(crate) fn is_nullable(&self) -> (nullable: bool)
        ensures
            nullable == self.cell().nullable,
    {
        match self {
            Slot::Nullable(_) => true,
            _ => false,
        }
    }

    pub(crate) fn payload(&self) -> (data: Option<&T>)
        ensures
            match self.cell().payload {
                Some(held) => data == Some(&held),
                None => data is None,
            },
    {
        match self {
            Slot::Free => None,
            Slot::Plain(b) => Some(b.as_ref()),
            Slot::Nullable(b) => if b.is_null() {
                None
            } else {
                Some(b.as_ref())
            },
        }
    }

    pub(crate) fn payload_mut(&mut self) -> (data: Option<&mut T>)
        ensures
            match old(self).cell().payload {
                Some(held) => data matches Some(place) && *place == held && *final(self) == old(self).with_cell(Some(*final(place)), old(self).cell().borrow_flag),
                None => data is None && *final(self) == *old(self),
            },
    {
        match self {
            Slot::Free => None,
            Slot::Plain(b) => Some(b.as_mut()),
            Slot::Nullable(b) => if b.is_null() {
                None
            } else {
                Some(b.as_mut())
            },
        }
    }

    /// Moves the payload out of a cell that allows it.
    pub(crate) fn take(&mut self) -> (data: Option<T>)
        ensures
            old(self).cell().nullable ==> data == old(self).cell().payload && *final(self) == old(self).with_cell(None, old(self).cell().borrow_flag),
            !old(self).cell().nullable ==> data is None && *final(self) == *old(self),
    {
        match self {
            Slot::Nullable(b) => b.take(),
            _ => None,
        }
    }

    pub(crate) fn next(&self) -> (next: Option<usize>)
        ensures
            next == self.header().next,
    {
        match self {
            Slot::Free => None,
            Slot::Plain(b) => b.header.next,
            Slot::Nullable(b) => b.header.next,
        }
    }

    pub(crate) fn is_marked(&self) -> (marked: bool)
        ensures
            marked == self.header().marked,
    {
        match self {
            Slot::Free => false,
            Slot::Plain(b) => b.header.marked,
            Slot::Nullable(b) => b.header.marked,
        }
    }

    pub(crate) fn is_free(&self) -> (free: bool)
        ensures
            free == !self.occupied(),
    {
        match self {
            Slot::Free => true,
            _ => false,
        }
    }

    pub(crate) fn set_next(&mut self, next: Option<usize>)
        ensures
            *final(self) == old(self).with_header(
                GcBoxHeader { next, marked: old(self).header().marked },
            ),
    {
        match self {
            Slot::Free => {},
            Slot::Plain(b) => {
                b.header.next = next;
            },
            Slot::Nullable(b) => {
                b.header.next = next;
            },
        }
    }

    pub(crate) fn set_marked(&mut self, marked: bool)
        ensures
            *final(self) == old(self).with_header(
                GcBoxHeader { next: old(self).header().next, marked },
            ),
    {
        match self {
            Slot::Free => {},
            Slot::Plain(b) => {
                b.header.marked = marked;
            },
            Slot::Nullable(b) => {
                b.header.marked = marked;
            },
        }
    }
}

} // verus!
