//! A drawing: a document of shapes that is edited through commands which can
//! be undone and redone.

pub mod command;
pub mod document;
pub mod insert_shape_command;
pub mod undo_manager;
