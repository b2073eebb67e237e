//! The command that puts a shape into a document.

use vstd::prelude::*;
use crate::draw::command::Command;
use crate::draw::document::{lowest_at, DrawObject};
use crate::heap::GcState;
use crate::reference::GcRef;

verus! {

pub struct InsertShapeCommand<S> {
    shape: GcRef<DrawObject<S>>,
    document: GcRef<DrawObject<S>>,
}

impl<S> InsertShapeCommand<S> {
    /// The address of the shape to insert.
    pub closed spec fn shape(&self) -> usize {
        self.shape@
    }

    /// The address of the document to insert it into.
    pub closed spec fn document(&self) -> usize {
        self.document@
    }

    pub fn new(shape: GcRef<DrawObject<S>>, document: GcRef<DrawObject<S>>) -> (command: Self)
        ensures
            command.shape() == shape@,
            command.document() == document@,
    {
        InsertShapeCommand { shape, document }
    }

    /// The heap `after` is the heap `env` but for the shapes of the document
    /// of the command, which have become `shapes`.
    pub open spec fn edited(
        &self,
        env: GcState<DrawObject<S>>,
        after: GcState<DrawObject<S>>,
        shapes: Seq<usize>,
    ) -> bool {
        &&& after@.holds(self.document())
        &&& after@.payload(self.document()) matches DrawObject::Document(document)
        &&& document@ == shapes
        &&& after@ == env@.with_payload(self.document(), after@.cells[self.document()].payload)
        &&& env.wf() ==> after.wf()
    }

    /// The shapes of the document of the command.
    pub open spec fn shapes(&self, env: GcState<DrawObject<S>>) -> Seq<usize> {
        env@.payload(self.document())->Document_0@
    }
}

impl<S> Command<GcState<DrawObject<S>>> for InsertShapeCommand<S> {
    /// The document of the command lives in the heap.
    open spec fn applicable(&self, env: &GcState<DrawObject<S>>) -> bool {
        env@.holds(self.document()) && env@.payload(self.document()) is Document
    }

    /// The shape has been put on top of the document.
    open spec fn committed(
        pre: Self,
        env: GcState<DrawObject<S>>,
        post: Self,
        after: GcState<DrawObject<S>>,
    ) -> bool {
        post == pre && pre.edited(env, after, pre.shapes(env).push(pre.shape()))
    }

    /// The lowest occurrence of the shape has left the document, if there
    /// was one.
    open spec fn undone(
        pre: Self,
        env: GcState<DrawObject<S>>,
        post: Self,
        after: GcState<DrawObject<S>>,
    ) -> bool {
        let shapes = pre.shapes(env);
        post == pre && if shapes.contains(pre.shape()) {
            exists|i: int| #[trigger]
                lowest_at(shapes, pre.shape(), i) && pre.edited(env, after, shapes.remove(i))
        } else {
            pre.edited(env, after, shapes)
        }
    }

    open spec fn redone(
        pre: Self,
        env: GcState<DrawObject<S>>,
        post: Self,
        after: GcState<DrawObject<S>>,
    ) -> bool {
        Self::committed(pre, env, post, after)
    }

    fn commit(&mut self, env: &mut GcState<DrawObject<S>>) {
        let mut document = self.document;
        match document.as_mut(env) {
            DrawObject::Document(d) => {
                d.add_shape(self.shape);
            },
            DrawObject::Shape(_) => {},
        }
    }

    fn undo(&mut self, env: &mut GcState<DrawObject<S>>) {
        let mut document = self.document;
        match document.as_mut(env) {
            DrawObject::Document(d) => {
                let _found = d.remove_shape(self.shape);
            },
            DrawObject::Shape(_) => {},
        }
    }

    fn redo(&mut self, env: &mut GcState<DrawObject<S>>) {
        self.commit(env);
    }
}

} // verus!
