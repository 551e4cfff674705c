//! Map tiles.

pub mod cache;
pub mod iter;
pub mod vector;

use vstd::prelude::*;

verus! {

/// Width and height of a single tile.
pub const TILE_SIZE: i32 = 256;

/// Maximum tile zoom level.
pub const MAX_ZOOM: u8 = 19;

/// Index uniquely identifying a map tile.
#[derive(Copy, Clone, Debug, PartialEq, Eq, Hash, Structural)]
pub struct TileIndex {
    pub x: u32,
    pub y: u32,
    pub z: u8,
}

impl TileIndex {
    pub fn new(x: u32, y: u32, z: u8) -> (index: Self)
        ensures
            index == (TileIndex { x, y, z }),
    {
        Self { x, y, z }
    }
}

} // verus!
