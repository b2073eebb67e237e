//! The tiles of the plot.

use vstd::prelude::*;
use crate::trace::{Finalize, GcTrace, Tracer};

verus! {

#[derive(Debug, Clone, Copy, PartialEq, Eq, Structural)]
pub enum DevelopmentLevel {
    Rubble,
    Vacant,
    LowDensity,
    HighDensity,
}

/// A square of the plot. A tile is drawn in plain text, as one character.
pub trait Tile {
    /// The character that stands for the tile. Unless a tile says
    /// otherwise, it is drawn as a blank.
    open spec fn glyph(&self) -> char {
        ' '
    }

    fn symbol(&self) -> (c: char)
        ensures
            c == self.glyph(),
    ;
}

#[derive(Debug, Clone, Copy, PartialEq, Eq, Structural)]
pub struct EmptyTile {}

impl Tile for EmptyTile {
    open spec fn glyph(&self) -> char {
        ' '
    }

    fn symbol(&self) -> (c: char) {
        ' '
    }
}

#[derive(Debug, Clone, Copy, PartialEq, Eq, Structural)]
pub struct ZonedTile {
    pub development_level: DevelopmentLevel,
}

impl ZonedTile {
    /// A tile that has been zoned and not yet built on.
    pub fn new() -> (tile: Self)
        ensures
            tile.development_level == DevelopmentLevel::Vacant,
    {
        ZonedTile { development_level: DevelopmentLevel::Vacant }
    }
}

impl Tile for ZonedTile {
    open spec fn glyph(&self) -> char {
        match self.development_level {
            DevelopmentLevel::Rubble => 'R',
            DevelopmentLevel::Vacant => 'V',
            DevelopmentLevel::LowDensity => 'L',
            DevelopmentLevel::HighDensity => 'H',
        }
    }

    fn symbol(&self) -> (c: char) {
        match self.development_level {
            DevelopmentLevel::Rubble => 'R',
            DevelopmentLevel::Vacant => 'V',
            DevelopmentLevel::LowDensity => 'L',
            DevelopmentLevel::HighDensity => 'H',
        }
    }
}

/// A tile of either kind, as it lives in the heap.
#[derive(Debug, Clone, Copy, PartialEq, Eq, Structural)]
pub enum AnyTile {
    Empty(EmptyTile),
    Zoned(ZonedTile),
}

impl Tile for AnyTile {
    open spec fn glyph(&self) -> char {
        match self {
            AnyTile::Empty(tile) => tile.glyph(),
            AnyTile::Zoned(tile) => tile.glyph(),
        }
    }

    fn symbol(&self) -> (c: char) {
        match self {
            AnyTile::Empty(tile) => tile.symbol(),
            AnyTile::Zoned(tile) => tile.symbol(),
        }
    }
}

impl Finalize for AnyTile {
    open spec fn finalized(pre: Self, post: Self) -> bool {
        post == pre
    }

    fn finalize(&mut self) {
    }
}

impl GcTrace for AnyTile {
    open spec fn refs(&self) -> Seq<usize> {
        Seq::empty()
    }

    fn trace(&self, tracer: &mut Tracer) {
    }
}

} // verus!
