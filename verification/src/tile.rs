//! The three tile kinds of a dungeon map.

use vstd::prelude::*;

verus! {

/// A single cell of the map. `Wall` blocks movement, `Floor` is walkable,
/// `StairsDown` is walkable and triggers a transition to the next depth.
#[derive(Clone, Copy, PartialEq, Eq, Structural, Debug)]
pub enum TileType {
    Wall,
    Floor,
    StairsDown,
}

/// A tile the player can stand on.
pub open spec fn walkable(t: TileType) -> bool {
    t == TileType::Floor || t == TileType::StairsDown
}

impl TileType {
    /// Executable counterpart of [`walkable`].
    pub fn is_walkable(&self) -> (r: bool)
        ensures
            r == walkable(*self),
    {
        match self {
            TileType::Wall => false,
            TileType::Floor => true,
            TileType::StairsDown => true,
        }
    }
}

} // verus!
