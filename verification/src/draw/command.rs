//! An edit that can be applied, taken back, and applied again.

use vstd::prelude::*;

verus! {

/// An edit of an environment of type `E`.
pub trait Command<E>: Sized {
    /// Whether the command can act on the environment as it is. Unless a
    /// command says otherwise, it always can.
    open spec fn applicable(&self, env: &E) -> bool {
        true
    }

    /// How the command and the environment after `commit` relate to those
    /// before. Unless a command says more, nothing is known of it.
    open spec fn committed(pre: Self, env: E, post: Self, after: E) -> bool {
        true
    }

    /// How the command and the environment after `undo` relate to those
    /// before.
    open spec fn undone(pre: Self, env: E, post: Self, after: E) -> bool {
        true
    }

    /// How the command and the environment after `redo` relate to those
    /// before.
    open spec fn redone(pre: Self, env: E, post: Self, after: E) -> bool {
        true
    }

    fn commit(&mut self, env: &mut E)
        requires
            old(self).applicable(old(env)),
        ensures
            Self::committed(*old(self), *old(env), *final(self), *final(env)),
    ;

    fn undo(&mut self, env: &mut E)
        requires
            old(self).applicable(old(env)),
        ensures
            Self::undone(*old(self), *old(env), *final(self), *final(env)),
    ;

    fn redo(&mut self, env: &mut E)
        requires
            old(self).applicable(old(env)),
        ensures
            Self::redone(*old(self), *old(env), *final(self), *final(env)),
    ;
}

} // verus!
