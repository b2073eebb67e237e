//! A document: the shapes of a drawing, from the bottom one to the top one.

use vstd::prelude::*;
use crate::reference::GcRef;
use crate::trace::{Finalize, GcTrace, Tracer};

verus! {

/// What lives in the heap of a drawing: documents, and shapes of type `S`.
pub enum DrawObject<S> {
    Document(Document<S>),
    Shape(S),
}

pub struct Document<S> {
    pub shapes: Vec<GcRef<DrawObject<S>>>,
}

impl<S> View for Document<S> {
    type V = Seq<usize>;

    /// The addresses of the shapes, from the bottom one to the top one.
    open spec fn view(&self) -> Seq<usize> {
        self.shapes@.map_values(|shape: GcRef<DrawObject<S>>| shape@)
    }
}

/// Position `i` is the lowest at which `shape` occurs in `shapes`.
pub open spec fn lowest_at(shapes: Seq<usize>, shape: usize, i: int) -> bool {
    &&& 0 <= i < shapes.len()
    &&& shapes[i] == shape
    &&& forall|j: int| 0 <= j < i ==> shapes[j] != shape
}

impl<S> Document<S> {
    pub fn new() -> (document: Self)
        ensures
            document@ == Seq::<usize>::empty(),
    {
        let document = Document { shapes: Vec::new() };
        assert(document@ =~= Seq::<usize>::empty());
        document
    }

    /// Puts a shape on top.
    pub fn add_shape(&mut self, shape: GcRef<DrawObject<S>>)
        ensures
            final(self)@ == old(self)@.push(shape@),
    {
        self.shapes.push(shape);
        assert(self@ =~= old(self)@.push(shape@));
    }

    /// Takes the lowest occurrence of a shape out of the document and says
    /// whether there was one.
    pub fn remove_shape(&mut self, shape: GcRef<DrawObject<S>>) -> (found: bool)
        ensures
            found == old(self)@.contains(shape@),
            found ==> exists|i: int| #[trigger]
                lowest_at(old(self)@, shape@, i) && final(self)@ == old(self)@.remove(i),
            !found ==> final(self)@ == old(self)@,
    {
        let mut i: usize = 0;
        while i < self.shapes.len()
            invariant
                i <= self.shapes@.len(),
                *self == *old(self),
                forall|j: int| 0 <= j < i ==> self@[j] != shape@,
            decreases self.shapes@.len() - i,
        {
            if self.shapes[i] == shape {
                self.shapes.remove(i);
                proof {
                    assert(self@ =~= old(self)@.remove(i as int));
                    assert(lowest_at(old(self)@, shape@, i as int));
                }
                return true;
            }
            i = i + 1;
        }
        proof {
            if old(self)@.contains(shape@) {
                let k = choose|k: int| 0 <= k < old(self)@.len() && old(self)@[k] == shape@;
                assert(self@[k] != shape@);
            }
        }
        false
    }
}

impl<S: Finalize> Finalize for Document<S> {
    open spec fn finalized(pre: Self, post: Self) -> bool {
        post == pre
    }

    fn finalize(&mut self) {
    }
}

impl<S: GcTrace> GcTrace for Document<S> {
    /// A document refers to its shapes.
    open spec fn refs(&self) -> Seq<usize> {
        self.shapes.refs()
    }

    fn trace(&self, tracer: &mut Tracer) {
        self.shapes.trace(tracer);
    }
}

impl<S: Finalize> Finalize for DrawObject<S> {
    open spec fn finalized(pre: Self, post: Self) -> bool {
        match pre {
            DrawObject::Document(before) => post matches DrawObject::Document(after)
                && Document::<S>::finalized(before, after),
            DrawObject::Shape(before) => post matches DrawObject::Shape(after) && S::finalized(
                before,
                after,
            ),
        }
    }

    fn finalize(&mut self) {
        match self {
            DrawObject::Document(document) => document.finalize(),
            DrawObject::Shape(shape) => shape.finalize(),
        }
    }
}

impl<S: GcTrace> GcTrace for DrawObject<S> {
    open spec fn refs(&self) -> Seq<usize> {
        match self {
            DrawObject::Document(document) => document.refs(),
            DrawObject::Shape(shape) => shape.refs(),
        }
    }

    fn trace(&self, tracer: &mut Tracer) {
        match self {
            DrawObject::Document(document) => document.trace(tracer),
            DrawObject::Shape(shape) => shape.trace(tracer),
        }
    }
}

} // verus!
