//! A tracing garbage collector: a managed heap whose cells are reclaimed by
//! mark and sweep once no root reaches them, references that police shared
//! and exclusive access at run time, and the protocol by which roots are
//! found in the frame descriptors of the running program.

pub mod borrow;
pub mod trace;
pub mod roots;
pub mod cell;
pub mod heap;
pub mod collect;
pub mod guard;
pub mod reference;
pub mod gc;
pub mod random;
pub mod list;
pub mod city;
pub mod turtles;
pub mod intcontainer;
pub mod draw;

pub use crate::cell::{GcBox, GcNullableBox};
pub use crate::gc::{boxes_len, force_collect, Gc};
pub use crate::guard::{GcBorrow, GcBorrowMut};
pub use crate::heap::GcState;
pub use crate::reference::{GcNullableRef, GcRef, GcUntypedRoot};
pub use crate::roots::{check_chain, RootError, ShadowStack};
pub use crate::trace::{Finalize, GcTrace, Tracer};
