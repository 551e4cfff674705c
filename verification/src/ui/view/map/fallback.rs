//! Placeholders for tiles which are not loaded yet.

use vstd::arithmetic::power2::*;
use vstd::prelude::*;

use crate::geometry::Point;
use crate::tiles::TileIndex;

verus! {

/// Next bigger tile.
pub open spec fn parent_of(tile: TileIndex) -> TileIndex {
    TileIndex { x: (tile.x as int / 2) as u32, y: (tile.y as int / 2) as u32, z: (tile.z - 1) as u8 }
}

/// Tile which is bigger by a number of zoom levels.
pub open spec fn ancestor_of(tile: TileIndex, levels: int) -> TileIndex
    decreases levels,
{
    if levels <= 0 {
        tile
    } else {
        parent_of(ancestor_of(tile, levels - 1))
    }
}

/// Get all bigger tiles, starting with the smallest one.
pub fn ancestors(tile: TileIndex) -> (tiles: Vec<TileIndex>)
    ensures
        tiles.len() == tile.z,
        forall|i: int| 0 <= i < tiles.len() ==> #[trigger] tiles[i] == ancestor_of(tile, i + 1),
{
    let mut tiles: Vec<TileIndex> = Vec::new();
    let mut index = tile;
    while index.z > 0
        invariant
            index.z <= tile.z,
            tiles.len() == tile.z - index.z,
            index == ancestor_of(tile, tile.z - index.z),
            forall|i: int| 0 <= i < tiles.len() ==> #[trigger] tiles[i] == ancestor_of(tile, i + 1),
        decreases index.z,
    {
        index = TileIndex::new(index.x / 2, index.y / 2, index.z - 1);
        tiles.push(index);
    }
    tiles
}

/// Fallback found by searching all bigger tiles, starting behind the first `n`.
///
/// The search ends with the first tile that is loaded. There is no fallback if a
/// bigger tile has been rendered already.
pub open spec fn fallback_from(
    tile: TileIndex,
    rendered: Seq<TileIndex>,
    loaded: Seq<bool>,
    n: int,
) -> Option<TileIndex>
    decreases loaded.len() - n,
{
    if n < 0 || n >= loaded.len() {
        None
    } else {
        let ancestor = ancestor_of(tile, n + 1);
        if rendered.contains(ancestor) {
            None
        } else if loaded[n] {
            Some(ancestor)
        } else {
            fallback_from(tile, rendered, loaded, n + 1)
        }
    }
}

/// Check whether a tile is in a list.
fn has_tile(tiles: &Vec<TileIndex>, tile: TileIndex) -> (result: bool)
    ensures
        result == tiles@.contains(tile),
{
    let mut i: usize = 0;
    while i < tiles.len()
        invariant
            i <= tiles.len(),
            forall|j: int| 0 <= j < i ==> tiles@[j] != tile,
        decreases tiles.len() - i,
    {
        if tiles[i] == tile {
            assert(tiles@[i as int] == tile);
            return true;
        }
        i += 1;
    }
    false
}

/// Tiles of a frame which are not loaded yet.
pub struct PendingTiles {
    rendered_parent_tiles: Vec<TileIndex>,
    pending_tiles: Vec<TileIndex>,
}

impl PendingTiles {
    /// Oversized tiles which have been rendered.
    pub closed spec fn rendered(&self) -> Seq<TileIndex> {
        self.rendered_parent_tiles@
    }

    /// Tiles which are not loaded yet.
    pub closed spec fn pending(&self) -> Seq<TileIndex> {
        self.pending_tiles@
    }

    pub fn new() -> (tiles: Self)
        ensures
            tiles.rendered() == Seq::<TileIndex>::empty(),
            tiles.pending() == Seq::<TileIndex>::empty(),
    {
        PendingTiles { rendered_parent_tiles: Vec::new(), pending_tiles: Vec::new() }
    }

    /// Start a new frame.
    pub fn clear(&mut self)
        ensures
            final(self).rendered() == Seq::<TileIndex>::empty(),
            final(self).pending() == Seq::<TileIndex>::empty(),
    {
        self.rendered_parent_tiles.clear();
        self.pending_tiles.clear();
    }

    /// Check whether all tiles of the frame are loaded.
    pub fn is_complete(&self) -> (complete: bool)
        ensures
            complete == (self.pending().len() == 0),
    {
        self.pending_tiles.len() == 0
    }

    /// Check whether a tile of the frame was not loaded.
    pub fn is_pending(&self, tile: TileIndex) -> (pending: bool)
        ensures
            pending == self.pending().contains(tile),
    {
        has_tile(&self.pending_tiles, tile)
    }

    /// Find a placeholder for a tile which is not loaded yet.
    ///
    /// The list says for each bigger tile whether it is loaded. Each placeholder
    /// is only used once, since it covers all of its missing subtiles.
    pub fn fallback(&mut self, tile: TileIndex, loaded: &Vec<bool>) -> (fallback: Option<TileIndex>)
        requires
            loaded.len() == tile.z,
        ensures
            fallback == fallback_from(tile, old(self).rendered(), loaded@, 0),
            final(self).pending() == old(self).pending().push(tile),
            final(self).rendered() == (match fallback {
                Some(fallback) => old(self).rendered().push(fallback),
                None => old(self).rendered(),
            }),
    {
        // If the image hasn't loaded yet, add it to the pending tiles.
        self.pending_tiles.push(tile);

        // Search for a bigger tile which is already loaded.
        let mut index = tile;
        let mut n: usize = 0;
        while n < loaded.len()
            invariant
                n <= loaded.len(),
                loaded.len() == tile.z,
                index == ancestor_of(tile, n as int),
                index.z == tile.z - n,
                self.rendered() == old(self).rendered(),
                self.pending() == old(self).pending().push(tile),
                fallback_from(tile, self.rendered(), loaded@, n as int) == fallback_from(
                    tile,
                    self.rendered(),
                    loaded@,
                    0,
                ),
            decreases loaded.len() - n,
        {
            // Get the next bigger tile index.
            index = TileIndex::new(index.x / 2, index.y / 2, index.z - 1);

            if has_tile(&self.rendered_parent_tiles, index) {
                // Skip drawing if the fallback parent was already rendered.
                return None;
            }
            if loaded[n] {
                // Mark tile as rendered, so we can skip rendering if another
                // subtile of this tile is also missing.
                self.rendered_parent_tiles.push(index);
                return Some(index);
            }
            n += 1;
        }
        None
    }
}

/// Position and size of a placeholder for a tile.
///
/// The placeholder is scaled up to match the tile's zoom level, with the tile's
/// part of it at the tile's position.
pub open spec fn placed_fallback(
    tile: TileIndex,
    levels: nat,
    point: Point,
    tile_size: int,
) -> (int, int, int) {
    let scale = pow2(levels) as int;
    (
        point.x - (tile.x as int % scale) * tile_size,
        point.y - (tile.y as int % scale) * tile_size,
        tile_size * scale,
    )
}

/// Get the position and size of a placeholder for a tile.
pub fn place_fallback(tile: TileIndex, fallback: TileIndex, point: Point, tile_size: i32) -> (placed: (
    i64,
    i64,
    i64,
))
    requires
        fallback.z <= tile.z,
        tile.z < 32,
        0 < tile_size,
    ensures
        ({
            let (x, y, size) = placed_fallback(
                tile,
                (tile.z - fallback.z) as nat,
                point,
                tile_size as int,
            );
            placed.0 == x && placed.1 == y && placed.2 == size
        }),
{
    let levels: u8 = tile.z - fallback.z;
    let mut scale: i64 = 1;
    let mut i: u8 = 0;
    proof {
        lemma2_to64();
    }
    while i < levels
        invariant
            i <= levels < 32,
            scale == pow2(i as nat),
            0 < scale <= 0x8000_0000,
        decreases levels - i,
    {
        proof {
            lemma_pow2_unfold((i + 1) as nat);
            lemma_pow2_strictly_increases((i + 1) as nat, 32);
            lemma2_to64();
        }
        scale = scale * 2;
        i += 1;
        proof {
            if i < 31 {
                lemma_pow2_strictly_increases(i as nat, 31);
            }
            lemma2_to64();
        }
    }
    let column: i64 = tile.x as i64 % scale;
    let row: i64 = tile.y as i64 % scale;
    proof {
        lemma_product(column as int, tile_size as int);
        lemma_product(row as int, tile_size as int);
        lemma_product(scale as int, tile_size as int);
        assert(tile_size * scale == scale * tile_size) by (nonlinear_arith);
    }
    (
        point.x as i64 - column * tile_size as i64,
        point.y as i64 - row * tile_size as i64,
        tile_size as i64 * scale,
    )
}

proof fn lemma_product(a: int, b: int)
    requires
        0 <= a <= 0x8000_0000,
        0 < b <= 0x7fff_ffff,
    ensures
        0 <= a * b <= 0x4000_0000_0000_0000,
{
    assert(0 <= a * b <= 0x4000_0000_0000_0000) by (nonlinear_arith)
        requires
            0 <= a <= 0x8000_0000,
            0 < b <= 0x7fff_ffff,
    ;
}

/// No placeholder is rendered twice in a frame.
pub proof fn law_fallback_is_rendered_once(
    tile: TileIndex,
    rendered: Seq<TileIndex>,
    loaded: Seq<bool>,
    n: int,
)
    ensures
        fallback_from(tile, rendered, loaded, n) matches Some(fallback) ==> !rendered.contains(
            fallback,
        ),
    decreases loaded.len() - n,
{
    if 0 <= n < loaded.len() {
        law_fallback_is_rendered_once(tile, rendered, loaded, n + 1);
    }
}

/// A bigger tile covers the same part of the map as the tile itself: its index is
/// the tile's index divided by the number of tiles next to each other inside of
/// it.
pub proof fn law_ancestors_contain_tile(tile: TileIndex, levels: nat)
    requires
        levels <= tile.z,
    ensures
        ({
            let ancestor = ancestor_of(tile, levels as int);
            let scale = pow2(levels) as int;
            &&& ancestor.z == tile.z - levels
            &&& ancestor.x == tile.x as int / scale
            &&& ancestor.y == tile.y as int / scale
        }),
    decreases levels,
{
    lemma2_to64();
    if levels > 0 {
        law_ancestors_contain_tile(tile, (levels - 1) as nat);
        let half = pow2((levels - 1) as nat) as int;
        lemma_pow2_unfold(levels);
        lemma_pow2_pos((levels - 1) as nat);
        assert(pow2(levels) == 2 * half);
        vstd::arithmetic::div_mod::lemma_div_denominator(tile.x as int, half, 2);
        vstd::arithmetic::div_mod::lemma_div_denominator(tile.y as int, half, 2);
        assert(half * 2 == 2 * half);
        vstd::arithmetic::div_mod::lemma_div_is_ordered_by_denominator(tile.x as int, 1, half);
        vstd::arithmetic::div_mod::lemma_div_is_ordered_by_denominator(tile.y as int, 1, half);
        vstd::arithmetic::div_mod::lemma_div_pos_is_pos(tile.x as int, half);
        vstd::arithmetic::div_mod::lemma_div_pos_is_pos(tile.y as int, half);
    }
}

/// The placeholder is the smallest bigger tile which is loaded, unless it or a
/// smaller one was rendered before.
pub proof fn law_fallback_is_smallest_loaded(
    tile: TileIndex,
    rendered: Seq<TileIndex>,
    loaded: Seq<bool>,
    n: int,
    i: int,
)
    requires
        0 <= n <= i < loaded.len(),
        loaded[i],
        forall|j: int| n <= j < i ==> !#[trigger] loaded[j],
        forall|j: int| n <= j <= i ==> !rendered.contains(#[trigger] ancestor_of(tile, j + 1)),
    ensures
        fallback_from(tile, rendered, loaded, n) == Some(ancestor_of(tile, i + 1)),
    decreases i - n,
{
    assert(!rendered.contains(ancestor_of(tile, n + 1)));
    if n < i {
        assert(!loaded[n]);
        law_fallback_is_smallest_loaded(tile, rendered, loaded, n + 1, i);
    }
}

/// There is no placeholder without a loaded tile.
pub proof fn law_no_fallback_without_loaded_tile(
    tile: TileIndex,
    rendered: Seq<TileIndex>,
    loaded: Seq<bool>,
    n: int,
)
    requires
        0 <= n,
        forall|j: int| n <= j < loaded.len() ==> !#[trigger] loaded[j],
    ensures
        fallback_from(tile, rendered, loaded, n) is None,
    decreases loaded.len() - n,
{
    if n < loaded.len() {
        law_no_fallback_without_loaded_tile(tile, rendered, loaded, n + 1);
    }
}

/// The tile's part of its placeholder is drawn exactly where the tile belongs.
pub proof fn law_placeholder_matches_tile(
    tile: TileIndex,
    levels: nat,
    point: Point,
    tile_size: int,
)
    requires
        0 < tile_size,
    ensures
        ({
            let scale = pow2(levels) as int;
            let (x, y, size) = placed_fallback(tile, levels, point, tile_size);
            &&& size == tile_size * scale
            &&& x + (tile.x as int % scale) * tile_size == point.x
            &&& y + (tile.y as int % scale) * tile_size == point.y
            &&& x <= point.x && point.x + tile_size <= x + size
            &&& y <= point.y && point.y + tile_size <= y + size
        }),
{
    let scale = pow2(levels) as int;
    lemma_pow2_pos(levels);
    vstd::arithmetic::div_mod::lemma_mod_bound(tile.x as int, scale);
    vstd::arithmetic::div_mod::lemma_mod_bound(tile.y as int, scale);
    let column = tile.x as int % scale;
    let row = tile.y as int % scale;
    assert(0 <= column * tile_size && column * tile_size + tile_size <= tile_size * scale)
        by (nonlinear_arith)
        requires
            0 <= column < scale,
            0 < tile_size,
    ;
    assert(0 <= row * tile_size && row * tile_size + tile_size <= tile_size * scale)
        by (nonlinear_arith)
        requires
            0 <= row < scale,
            0 < tile_size,
    ;
}

} // verus!
