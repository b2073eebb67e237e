//! A city simulation: a plot of land divided into tiles, which are zoned at
//! random as time goes by. The tiles live in the managed heap.

pub mod grid;
pub mod sim;
pub mod tile;
