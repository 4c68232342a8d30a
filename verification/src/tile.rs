//! One grid cell: whether it blocks movement and whether it blocks sight.

use vstd::prelude::*;

verus! {

/// A single cell of the map. Plain value semantics: copying a tile never
/// aliases state. A freshly allocated grid holds only walls; carving turns
/// cells to floor and never the reverse.
#[derive(Clone, Copy, Debug, PartialEq, Eq, Structural)]
pub struct Tile {
    pub blocked: bool,
    pub block_sight: bool,
}

impl Tile {
    /// The canonical passable floor value.
    pub open spec fn empty_spec() -> Tile {
        Tile { blocked: false, block_sight: false }
    }

    /// The canonical solid wall value.
    pub open spec fn wall_spec() -> Tile {
        Tile { blocked: true, block_sight: true }
    }

    /// A passable floor cell.
    pub fn empty() -> (t: Tile)
        ensures
            t == Tile::empty_spec(),
    {
        Tile { blocked: false, block_sight: false }
    }

    /// A solid wall cell.
    pub fn wall() -> (t: Tile)
        ensures
            t == Tile::wall_spec(),
    {
        Tile { blocked: true, block_sight: true }
    }
}

} // verus!
