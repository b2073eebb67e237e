//! The two stacks of an editor: the commands that can be undone, and those
//! that can be redone.

use vstd::prelude::*;
use crate::draw::command::Command;

verus! {

pub struct UndoManager<C> {
    undo_stack: Vec<C>,
    redo_stack: Vec<C>,
}

impl<C> UndoManager<C> {
    /// The commands that can be undone, the latest last.
    pub closed spec fn undoable(&self) -> Seq<C> {
        self.undo_stack@
    }

    /// The commands that can be redone, the one undone last at the end.
    pub closed spec fn redoable(&self) -> Seq<C> {
        self.redo_stack@
    }

    pub fn new() -> (manager: Self)
        ensures
            manager.undoable() == Seq::<C>::empty(),
            manager.redoable() == Seq::<C>::empty(),
    {
        UndoManager { undo_stack: Vec::new(), redo_stack: Vec::new() }
    }

    /// Records a command that has been committed.
    pub fn push_command(&mut self, cmd: C)
        ensures
            final(self).undoable() == old(self).undoable().push(cmd),
            final(self).redoable() == old(self).redoable(),
    {
        self.undo_stack.push(cmd);
    }

    /// The number of commands that can be undone.
    pub fn undo_len(&self) -> (len: usize)
        ensures
            len == self.undoable().len(),
    {
        self.undo_stack.len()
    }

    /// The number of commands that can be redone.
    pub fn redo_len(&self) -> (len: usize)
        ensures
            len == self.redoable().len(),
    {
        self.redo_stack.len()
    }

    /// Takes back the latest command and keeps it for a redo. With nothing
    /// to undo, nothing happens.
    pub fn undo<E>(&mut self, env: &mut E) where C: Command<E>
        requires
            old(self).undoable().len() > 0 ==> old(self).undoable().last().applicable(old(env)),
        ensures
            old(self).undoable().len() == 0 ==> {
                &&& final(self).undoable() == old(self).undoable()
                &&& final(self).redoable() == old(self).redoable()
                &&& *final(env) == *old(env)
            },
            old(self).undoable().len() > 0 ==> {
                &&& final(self).undoable() == old(self).undoable().drop_last()
                &&& final(self).redoable().len() == old(self).redoable().len() + 1
                &&& final(self).redoable().drop_last() == old(self).redoable()
                &&& C::undone(
                    old(self).undoable().last(),
                    *old(env),
                    final(self).redoable().last(),
                    *final(env),
                )
            },
    {
        let command = self.undo_stack.pop();
        match command {
            Some(c) => {
                let mut c = c;
                c.undo(env);
                self.redo_stack.push(c);
                assert(self.redo_stack@.drop_last() == old(self).redo_stack@);
            },
            None => {},
        }
    }

    /// Applies again the command that was undone last and keeps it for an
    /// undo. With nothing to redo, nothing happens.
    pub fn redo<E>(&mut self, env: &mut E) where C: Command<E>
        requires
            old(self).redoable().len() > 0 ==> old(self).redoable().last().applicable(old(env)),
        ensures
            old(self).redoable().len() == 0 ==> {
                &&& final(self).undoable() == old(self).undoable()
                &&& final(self).redoable() == old(self).redoable()
                &&& *final(env) == *old(env)
            },
            old(self).redoable().len() > 0 ==> {
                &&& final(self).redoable() == old(self).redoable().drop_last()
                &&& final(self).undoable().len() == old(self).undoable().len() + 1
                &&& final(self).undoable().drop_last() == old(self).undoable()
                &&& C::redone(
                    old(self).redoable().last(),
                    *old(env),
                    final(self).undoable().last(),
                    *final(env),
                )
            },
    {
        let command = self.redo_stack.pop();
        match command {
            Some(c) => {
                let mut c = c;
                c.redo(env);
                self.undo_stack.push(c);
                assert(self.undo_stack@.drop_last() == old(self).undo_stack@);
            },
            None => {},
        }
    }
}

} // verus!
