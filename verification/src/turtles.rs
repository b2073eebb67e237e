//! Turtles that live on a campus, breed, and teach their children.

pub mod genetics;
pub mod cookbook;
pub mod magic;
pub mod turtle;
pub mod campus;
