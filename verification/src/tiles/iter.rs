//! Visible tiles.

use vstd::arithmetic::div_mod::*;
use vstd::arithmetic::mul::*;
use vstd::arithmetic::power2::*;
use vstd::prelude::*;

use crate::geometry::{Point, Size};
use crate::tiles::TileIndex;

verus! {

/// Number of tiles along each side of the map.
pub open spec fn tile_count(zoom: u8) -> int {
    pow2(zoom as nat) as int
}

/// A tile is part of the map.
pub open spec fn on_map(tile: TileIndex) -> bool {
    &&& tile.z < 32
    &&& tile.x < tile_count(tile.z)
    &&& tile.y < tile_count(tile.z)
}

/// Number of whole tiles in a distance, which is zero for negative distances.
pub open spec fn whole_tiles(distance: int, tile_size: int) -> int {
    if distance < 0 {
        0
    } else {
        distance / tile_size
    }
}

/// Visible tiles along one axis of the screen.
pub struct Axis {
    /// Index of the first tile.
    pub first: int,
    /// Screen position of the first tile.
    pub origin: int,
    /// Number of tiles.
    pub tiles: int,
}

/// Visible tiles around a tile along one axis.
///
/// The offset within the tile is at the center of the screen. Tiles in front of
/// it are visible until the edge of the screen or map is reached, and so are
/// the tiles behind it.
pub open spec fn axis(length: int, index: int, offset: int, tile_size: int, count: int) -> Axis {
    let start = length / 2 - offset;
    let before = whole_tiles(start + tile_size - 1, tile_size);
    let delta = if before < index {
        before
    } else {
        index
    };
    let first = index - delta;
    let origin = start - delta * tile_size;
    let fitting = whole_tiles(length - origin + tile_size - 1, tile_size);
    let tiles = if fitting < count - first {
        fitting
    } else {
        count - first
    };
    Axis { first, origin, tiles }
}

/// The positions along one axis can be represented, and the center tile is not
/// completely outside of the screen.
pub open spec fn axis_fits(length: int, index: int, offset: int, tile_size: int, count: int) -> bool {
    let start = length / 2 - offset;
    let end = length - axis(length, index, offset, tile_size, count).origin;
    &&& 0 <= length <= i32::MAX
    &&& 0 < tile_size
    &&& i32::MIN <= start
    &&& -tile_size < start + tile_size - 1
    &&& start + tile_size <= i32::MAX
    &&& -tile_size < end + tile_size - 1
    &&& end + tile_size <= i32::MAX
}

/// Iterator over positioned tiles.
#[derive(Copy, Clone, Debug)]
pub struct TileIter {
    tile_index: TileIndex,
    origin: Point,
    max_tiles_x: u32,
    max_tiles_y: u32,
    tile_size: i32,
    screen_size: Size,
    index: u32,
}

/// Visible tiles of a screen.
pub struct TileIterView {
    pub x: Axis,
    pub y: Axis,
    pub zoom: u8,
    pub tile_size: int,
    pub screen_size: Size,
    /// Number of tiles which have been visited.
    pub index: int,
}

impl TileIterView {
    /// Number of visible tiles.
    pub open spec fn len(self) -> int {
        self.x.tiles * self.y.tiles
    }

    /// Visible tile with its screen position, in row-major order.
    pub open spec fn tile(self, n: int) -> (TileIndex, Point) {
        let column = n % self.x.tiles;
        let row = n / self.x.tiles;
        (
            TileIndex {
                x: (self.x.first + column) as u32,
                y: (self.y.first + row) as u32,
                z: self.zoom,
            },
            Point {
                x: (self.x.origin + column * self.tile_size) as i32,
                y: (self.y.origin + row * self.tile_size) as i32,
            },
        )
    }

    /// All visible tiles are part of the map, and their positions can be
    /// represented.
    pub open spec fn valid(self) -> bool {
        &&& self.zoom < 32
        &&& 0 <= self.x.first < tile_count(self.zoom)
        &&& 0 <= self.x.tiles
        &&& self.x.first + self.x.tiles <= tile_count(self.zoom)
        &&& 0 <= self.y.first < tile_count(self.zoom)
        &&& 0 <= self.y.tiles
        &&& self.y.first + self.y.tiles <= tile_count(self.zoom)
        &&& 0 < self.tile_size
        &&& self.x.origin >= i32::MIN
        &&& self.y.origin >= i32::MIN
        &&& self.screen_size.width <= i32::MAX
        &&& self.screen_size.height <= i32::MAX
        &&& self.x.tiles > 0 ==> self.x.origin + (self.x.tiles - 1) * self.tile_size <= i32::MAX
        &&& self.y.tiles > 0 ==> self.y.origin + (self.y.tiles - 1) * self.tile_size <= i32::MAX
    }

    /// Physical position of a map point in screen coordinates.
    pub open spec fn point(self, tile: TileIndex, offset: Point) -> (int, int) {
        (
            self.x.origin + offset.x + (tile.x - self.x.first) * self.tile_size,
            self.y.origin + offset.y + (tile.y - self.y.first) * self.tile_size,
        )
    }

    /// The position of a map point can be represented.
    pub open spec fn point_fits(self, tile: TileIndex, offset: Point) -> bool {
        let x_delta = (tile.x - self.x.first) * self.tile_size;
        let y_delta = (tile.y - self.y.first) * self.tile_size;
        &&& tile.z == self.zoom
        &&& tile.x <= i32::MAX
        &&& tile.y <= i32::MAX
        &&& i32::MIN <= self.x.origin + offset.x <= i32::MAX
        &&& i32::MIN <= self.y.origin + offset.y <= i32::MAX
        &&& i32::MIN <= x_delta <= i32::MAX
        &&& i32::MIN <= y_delta <= i32::MAX
        &&& i32::MIN <= self.point(tile, offset).0 <= i32::MAX
        &&& i32::MIN <= self.point(tile, offset).1 <= i32::MAX
    }

    /// Columns around the viewport which are part of the map.
    pub open spec fn border_columns(self) -> (int, int) {
        border_range(self.x, tile_count(self.zoom))
    }

    /// Rows around the viewport which are part of the map.
    pub open spec fn border_rows(self) -> (int, int) {
        border_range(self.y, tile_count(self.zoom))
    }

    /// Tiles surrounding the viewport.
    ///
    /// Rows and columns outside of the map are skipped.
    pub open spec fn border(self) -> Seq<TileIndex> {
        let (min_x, end_x) = self.border_columns();
        let (min_y, end_y) = self.border_rows();
        let max_x = self.x.first + self.x.tiles;
        let max_y = self.y.first + self.y.tiles;
        let count = tile_count(self.zoom);
        let top = if self.y.first > 0 {
            row_tiles(min_x, end_x, min_y, self.zoom)
        } else {
            Seq::empty()
        };
        let bottom = if max_y < count {
            row_tiles(min_x, end_x, max_y, self.zoom)
        } else {
            Seq::empty()
        };
        let left = if self.x.first > 0 {
            column_tiles(min_x, min_y, end_y, self.zoom)
        } else {
            Seq::empty()
        };
        let right = if max_x < count {
            column_tiles(max_x, min_y, end_y, self.zoom)
        } else {
            Seq::empty()
        };
        top + bottom + left + right
    }
}

/// Indices from one in front of an axis to one behind it, within the map.
pub open spec fn border_range(axis: Axis, count: int) -> (int, int) {
    let min = if axis.first > 0 {
        axis.first - 1
    } else {
        0
    };
    let end = if axis.first + axis.tiles < count {
        axis.first + axis.tiles + 1
    } else {
        count
    };
    (min, end)
}

/// Tiles of a row.
pub open spec fn row_tiles(start: int, end: int, y: int, zoom: u8) -> Seq<TileIndex> {
    Seq::new(
        if start < end {
            (end - start) as nat
        } else {
            0
        },
        |i: int| TileIndex { x: (start + i) as u32, y: y as u32, z: zoom },
    )
}

/// Tiles of a column.
pub open spec fn column_tiles(x: int, start: int, end: int, zoom: u8) -> Seq<TileIndex> {
    Seq::new(
        if start < end {
            (end - start) as nat
        } else {
            0
        },
        |i: int| TileIndex { x: x as u32, y: (start + i) as u32, z: zoom },
    )
}

impl View for TileIter {
    type V = TileIterView;

    closed spec fn view(&self) -> TileIterView {
        TileIterView {
            x: Axis {
                first: self.tile_index.x as int,
                origin: self.origin.x as int,
                tiles: self.max_tiles_x as int,
            },
            y: Axis {
                first: self.tile_index.y as int,
                origin: self.origin.y as int,
                tiles: self.max_tiles_y as int,
            },
            zoom: self.tile_index.z,
            tile_size: self.tile_size as int,
            screen_size: self.screen_size,
            index: self.index as int,
        }
    }
}

/// Get the number of tiles along each side of the map.
fn count_tiles(zoom: u8) -> (count: u32)
    requires
        zoom < 32,
    ensures
        count == tile_count(zoom),
{
    let mut count: u32 = 1;
    let mut z: u8 = 0;
    proof {
        lemma2_to64();
    }
    while z < zoom
        invariant
            z <= zoom < 32,
            count == pow2(z as nat),
        decreases zoom - z,
    {
        proof {
            lemma_pow2_unfold((z + 1) as nat);
            lemma_pow2_strictly_increases((z + 1) as nat, 32);
            lemma2_to64();
        }
        count = count * 2;
        z += 1;
    }
    count
}

/// Calculate the visible tiles along one axis.
fn place_axis(length: u32, index: u32, offset: i32, tile_size: i32, count: u32) -> (placed: (
    u32,
    i32,
    u32,
))
    requires
        index < count <= 0x8000_0000,
        axis_fits(length as int, index as int, offset as int, tile_size as int, count as int),
    ensures
        ({
            let axis = axis(
                length as int,
                index as int,
                offset as int,
                tile_size as int,
                count as int,
            );
            &&& placed.0 == axis.first
            &&& placed.1 == axis.origin
            &&& placed.2 == axis.tiles
            &&& 0 <= axis.tiles
            &&& 0 <= axis.first < count
            &&& axis.first + axis.tiles <= count
            &&& axis.tiles > 0 ==> axis.origin + (axis.tiles - 1) * tile_size <= i32::MAX
        }),
{
    // Get position of the tile's top-left on the screen.
    let start: i32 = length as i32 / 2 - offset;

    // Get top-left tile's index and offset.
    let before: i32 = divide(start + tile_size - 1, tile_size);
    let delta: i32 = if before < index as i32 {
        before
    } else {
        index as i32
    };
    proof {
        lemma_tiles_within(start + tile_size - 1, tile_size as int, before as int, delta as int);
    }
    let first: u32 = index - delta as u32;
    let origin: i32 = start - delta * tile_size;

    // Calculate maximum tile index.
    let available: i32 = length as i32 - origin;
    let fitting: i32 = divide(available + tile_size - 1, tile_size);
    let remaining: u32 = count - first;
    let tiles: u32 = if (fitting as u32) < remaining {
        fitting as u32
    } else {
        remaining
    };
    proof {
        if tiles > 0 {
            lemma_tiles_within(
                available + tile_size - 1,
                tile_size as int,
                fitting as int,
                tiles as int,
            );
            assert((tiles - 1) * tile_size == tiles * tile_size - tile_size) by (nonlinear_arith);
        }
    }
    (first, origin, tiles)
}

/// Divide a distance by the tile size.
fn divide(distance: i32, tile_size: i32) -> (tiles: i32)
    requires
        0 < tile_size,
    ensures
        tiles == whole_tiles(distance as int, tile_size as int),
        0 <= tiles,
{
    if distance < 0 {
        0
    } else {
        proof {
            lemma_div_pos_is_pos(distance as int, tile_size as int);
        }
        distance / tile_size
    }
}

/// Tiles do not take up more space than the distance they fit in.
proof fn lemma_tiles_within(distance: int, tile_size: int, tiles: int, some: int)
    requires
        0 < tile_size,
        tiles == whole_tiles(distance, tile_size),
        0 <= some <= tiles,
    ensures
        0 <= some * tile_size,
        distance >= 0 ==> some * tile_size <= distance,
        distance < 0 ==> some * tile_size == 0,
{
    assert(0 <= some * tile_size) by (nonlinear_arith)
        requires
            0 <= some,
            0 < tile_size,
    ;
    if distance >= 0 {
        lemma_fundamental_div_mod(distance, tile_size);
        assert(some * tile_size <= tiles * tile_size) by (nonlinear_arith)
            requires
                some <= tiles,
                0 < tile_size,
        ;
        assert(tiles * tile_size == tile_size * tiles) by (nonlinear_arith);
    }
}

impl TileIter {
    /// Place the visible tiles on the screen.
    ///
    /// The physical offset is the position within the tile which is at the
    /// center of the screen.
    pub fn new(screen_size: Size, tile_index: TileIndex, offset: Point, tile_size: i32) -> (iter: Self)
        requires
            on_map(tile_index),
            axis_fits(
                screen_size.width as int,
                tile_index.x as int,
                offset.x as int,
                tile_size as int,
                tile_count(tile_index.z),
            ),
            axis_fits(
                screen_size.height as int,
                tile_index.y as int,
                offset.y as int,
                tile_size as int,
                tile_count(tile_index.z),
            ),
        ensures
            iter@ == (TileIterView {
                x: axis(
                    screen_size.width as int,
                    tile_index.x as int,
                    offset.x as int,
                    tile_size as int,
                    tile_count(tile_index.z),
                ),
                y: axis(
                    screen_size.height as int,
                    tile_index.y as int,
                    offset.y as int,
                    tile_size as int,
                    tile_count(tile_index.z),
                ),
                zoom: tile_index.z,
                tile_size: tile_size as int,
                screen_size,
                index: 0,
            }),
            iter@.valid(),
    {
        let count = count_tiles(tile_index.z);
        proof {
            lemma_tile_count_bound(tile_index.z);
        }
        let (x, origin_x, max_tiles_x) = place_axis(
            screen_size.width,
            tile_index.x,
            offset.x,
            tile_size,
            count,
        );
        let (y, origin_y, max_tiles_y) = place_axis(
            screen_size.height,
            tile_index.y,
            offset.y,
            tile_size,
            count,
        );
        TileIter {
            tile_index: TileIndex::new(x, y, tile_index.z),
            origin: Point::new(origin_x, origin_y),
            max_tiles_x,
            max_tiles_y,
            tile_size,
            screen_size,
            index: 0,
        }
    }

    /// Get the next tile and its screen position.
    pub fn next(&mut self) -> (tile: Option<(TileIndex, Point)>)
        requires
            old(self)@.valid(),
            old(self)@.x.tiles > 0,
            old(self)@.index < u32::MAX,
        ensures
            final(self)@.valid(),
            old(self)@.index < old(self)@.len() ==> {
                &&& tile == Some(old(self)@.tile(old(self)@.index))
                &&& final(self)@ == (TileIterView { index: old(self)@.index + 1, ..old(self)@ })
            },
            old(self)@.index >= old(self)@.len() ==> tile is None && final(self)@ == old(self)@,
    {
        let x_delta: u32 = self.index % self.max_tiles_x;
        let y_delta: u32 = self.index / self.max_tiles_x;
        proof {
            lemma_row_major(self.index as int, self.max_tiles_x as int, self.max_tiles_y as int);
        }

        // Stop if there's no more tiles available.
        if y_delta >= self.max_tiles_y {
            return None;
        }
        proof {
            lemma_tile_count_bound(self.tile_index.z);
            lemma_position_within(
                x_delta as int,
                self.max_tiles_x as int,
                self.tile_size as int,
                self.origin.x as int,
            );
            lemma_position_within(
                y_delta as int,
                self.max_tiles_y as int,
                self.tile_size as int,
                self.origin.y as int,
            );
        }

        self.index += 1;

        let tile_x: u32 = self.tile_index.x + x_delta;
        let tile_y: u32 = self.tile_index.y + y_delta;
        let index = TileIndex::new(tile_x, tile_y, self.tile_index.z);

        let x: i32 = (self.origin.x as i64 + x_delta as i64 * self.tile_size as i64) as i32;
        let y: i32 = (self.origin.y as i64 + y_delta as i64 * self.tile_size as i64) as i32;
        let point = Point::new(x, y);

        Some((index, point))
    }

    /// Get the tile indices surrounding the viewport.
    pub fn border_tiles(&self) -> (tiles: Vec<TileIndex>)
        requires
            self@.valid(),
        ensures
            tiles@ == self@.border(),
    {
        proof {
            lemma_tile_count_bound(self.tile_index.z);
        }
        let tile_count = count_tiles(self.tile_index.z);

        let min_x: u32 = self.tile_index.x.saturating_sub(1);
        let max_x: u32 = self.tile_index.x + self.max_tiles_x;

        let min_y: u32 = self.tile_index.y.saturating_sub(1);
        let max_y: u32 = self.tile_index.y + self.max_tiles_y;

        let end_x: u32 = if max_x < tile_count {
            max_x + 1
        } else {
            tile_count
        };
        let end_y: u32 = if max_y < tile_count {
            max_y + 1
        } else {
            tile_count
        };

        // Skip rows/columns outside the tileset.
        let zoom: u8 = self.tile_index.z;
        let mut tiles: Vec<TileIndex> = Vec::new();
        if self.tile_index.y > 0 {
            push_row(&mut tiles, min_x, end_x, min_y, zoom);
        }
        if max_y < tile_count {
            push_row(&mut tiles, min_x, end_x, max_y, zoom);
        }
        if self.tile_index.x > 0 {
            push_column(&mut tiles, min_x, min_y, end_y, zoom);
        }
        if max_x < tile_count {
            push_column(&mut tiles, max_x, min_y, end_y, zoom);
        }
        proof {
            assert(tiles@ =~= self@.border());
        }
        tiles
    }

    /// Get physical position of a map point on the screen.
    ///
    /// The supplied `tile_index` must have a `z` coordinate matching the
    /// iterator's `z` coordinate.
    pub fn screen_point(&self, tile_index: TileIndex, offset: Point) -> (point: Option<Point>)
        requires
            self@.valid(),
            self@.point_fits(tile_index, offset),
        ensures
            ({
                let (x, y) = self@.point(tile_index, offset);
                let visible = 0 <= x < self@.screen_size.width && 0 <= y < self@.screen_size.height;
                &&& visible ==> point == Some(Point { x: x as i32, y: y as i32 })
                &&& !visible ==> point is None
            }),
    {
        let point = self.tile_point(tile_index, offset);

        // Check whether point is visible.
        if point.x < 0 || point.y < 0 || point.x >= self.screen_size.width as i32 || point.y
            >= self.screen_size.height as i32 {
            None
        } else {
            Some(point)
        }
    }

    /// Get physical position of a map point in screen coordinates.
    ///
    /// The supplied `tile_index` must have a `z` coordinate matching the
    /// iterator's `z` coordinate.
    pub fn tile_point(&self, tile_index: TileIndex, offset: Point) -> (point: Point)
        requires
            self@.valid(),
            self@.point_fits(tile_index, offset),
        ensures
            point.x == self@.point(tile_index, offset).0,
            point.y == self@.point(tile_index, offset).1,
    {
        proof {
            lemma_tile_count_bound(self.tile_index.z);
        }
        let x_delta: i32 = tile_index.x as i32 - self.tile_index.x as i32;
        let y_delta: i32 = tile_index.y as i32 - self.tile_index.y as i32;

        let x: i32 = self.origin.x + offset.x;
        let y: i32 = self.origin.y + offset.y;

        Point::new(x + x_delta * self.tile_size, y + y_delta * self.tile_size)
    }

    /// Target width and height of the tile.
    pub fn tile_size(&self) -> (tile_size: i32)
        ensures
            tile_size == self@.tile_size,
    {
        self.tile_size
    }
}

/// Add the tiles of a row to a list.
fn push_row(tiles: &mut Vec<TileIndex>, start: u32, end: u32, y: u32, zoom: u8)
    ensures
        final(tiles)@ == old(tiles)@ + row_tiles(start as int, end as int, y as int, zoom),
{
    let ghost before = tiles@;
    let ghost row = row_tiles(start as int, end as int, y as int, zoom);
    let mut x: u32 = start;
    while x < end
        invariant
            start <= x,
            start < end ==> x <= end,
            row == row_tiles(start as int, end as int, y as int, zoom),
            tiles@ == before + row.take(if start < end { x - start } else { 0 }),
        decreases end - x,
    {
        tiles.push(TileIndex::new(x, y, zoom));
        proof {
            assert(row.take(x - start + 1) =~= row.take(x - start).push(row[x - start]));
        }
        x += 1;
    }
    proof {
        assert(tiles@ =~= before + row);
    }
}

/// Add the tiles of a column to a list.
fn push_column(tiles: &mut Vec<TileIndex>, x: u32, start: u32, end: u32, zoom: u8)
    ensures
        final(tiles)@ == old(tiles)@ + column_tiles(x as int, start as int, end as int, zoom),
{
    let ghost before = tiles@;
    let ghost column = column_tiles(x as int, start as int, end as int, zoom);
    let mut y: u32 = start;
    while y < end
        invariant
            start <= y,
            start < end ==> y <= end,
            column == column_tiles(x as int, start as int, end as int, zoom),
            tiles@ == before + column.take(if start < end { y - start } else { 0 }),
        decreases end - y,
    {
        tiles.push(TileIndex::new(x, y, zoom));
        proof {
            assert(column.take(y - start + 1) =~= column.take(y - start).push(column[y - start]));
        }
        y += 1;
    }
    proof {
        assert(tiles@ =~= before + column);
    }
}

/// The map never has more tiles than can be represented.
pub proof fn lemma_tile_count_bound(zoom: u8)
    requires
        zoom < 32,
    ensures
        0 < tile_count(zoom) <= 0x8000_0000,
{
    lemma_pow2_pos(zoom as nat);
    if zoom < 31 {
        lemma_pow2_strictly_increases(zoom as nat, 31);
    }
    lemma2_to64();
}

/// Rows are complete once all of their tiles have been visited.
proof fn lemma_row_major(index: int, columns: int, rows: int)
    requires
        0 <= index,
        0 < columns,
        0 <= rows,
    ensures
        index / columns >= rows <==> index >= columns * rows,
        0 <= index % columns < columns,
        0 <= index / columns,
        index == columns * (index / columns) + index % columns,
{
    lemma_fundamental_div_mod(index, columns);
    lemma_mod_bound(index, columns);
    lemma_div_pos_is_pos(index, columns);
    let row = index / columns;
    if row >= rows {
        assert(columns * row >= columns * rows) by (nonlinear_arith)
            requires
                row >= rows,
                0 < columns,
        ;
    } else {
        assert(columns * (row + 1) <= columns * rows) by (nonlinear_arith)
            requires
                row + 1 <= rows,
                0 < columns,
        ;
        assert(columns * (row + 1) == columns * row + columns) by (nonlinear_arith);
    }
}

/// Every tile is positioned between the first and last one.
proof fn lemma_position_within(delta: int, tiles: int, tile_size: int, origin: int)
    requires
        0 <= delta < tiles,
        0 < tile_size,
    ensures
        0 <= delta * tile_size,
        origin + delta * tile_size <= origin + (tiles - 1) * tile_size,
        delta <= 0xffff_ffff && tile_size <= 0x7fff_ffff ==> delta * tile_size
            <= 0x7fff_ffff_ffff_ffff,
{
    assert(0 <= delta * tile_size <= (tiles - 1) * tile_size) by (nonlinear_arith)
        requires
            0 <= delta < tiles,
            0 < tile_size,
    ;
    if delta <= 0xffff_ffff && tile_size <= 0x7fff_ffff {
        assert(delta * tile_size <= 0xffff_ffff * 0x7fff_ffff) by (nonlinear_arith)
            requires
                0 <= delta <= 0xffff_ffff,
                0 < tile_size <= 0x7fff_ffff,
        ;
    }
}

/// Visible tiles are always part of the map.
pub proof fn law_visible_tiles_on_map(iter: TileIterView, n: int)
    requires
        iter.valid(),
        0 <= n < iter.len(),
    ensures
        on_map(iter.tile(n).0),
{
    assert(iter.x.tiles > 0) by (nonlinear_arith)
        requires
            0 <= n < iter.x.tiles * iter.y.tiles,
            0 <= iter.x.tiles,
            0 <= iter.y.tiles,
    ;
    lemma_row_major(n, iter.x.tiles, iter.y.tiles);
    lemma_tile_count_bound(iter.zoom);
}

/// No tile is visited twice.
pub proof fn law_visible_tiles_distinct(iter: TileIterView, m: int, n: int)
    requires
        iter.valid(),
        0 <= m < n < iter.len(),
    ensures
        iter.tile(m).0 != iter.tile(n).0,
{
    assert(iter.x.tiles > 0) by (nonlinear_arith)
        requires
            0 <= n < iter.x.tiles * iter.y.tiles,
            0 <= iter.x.tiles,
            0 <= iter.y.tiles,
    ;
    lemma_row_major(m, iter.x.tiles, iter.y.tiles);
    lemma_row_major(n, iter.x.tiles, iter.y.tiles);
    lemma_tile_count_bound(iter.zoom);
}

/// Every pixel of the screen which shows a part of the map is covered by a
/// visible tile, for each axis.
pub proof fn law_visible_tiles_cover_screen(
    length: int,
    index: int,
    offset: int,
    tile_size: int,
    count: int,
    pixel: int,
)
    requires
        0 <= index < count,
        axis_fits(length, index, offset, tile_size, count),
        0 <= pixel < length,
    ensures
        ({
            let axis = axis(length, index, offset, tile_size, count);
            let tile = axis.first + (pixel - axis.origin) / tile_size;
            0 <= tile < count ==> axis.first <= tile < axis.first + axis.tiles
        }),
{
    let start = length / 2 - offset;
    let before = whole_tiles(start + tile_size - 1, tile_size);
    let axis = axis(length, index, offset, tile_size, count);
    let distance = pixel - axis.origin;
    let column = distance / tile_size;
    lemma_fundamental_div_mod(distance, tile_size);
    lemma_mod_bound(distance, tile_size);
    if 0 <= axis.first + column < count {
        if axis.first > 0 {
            // The screen starts within the first tile.
            let numerator = start + tile_size - 1;
            if numerator >= 0 {
                lemma_fundamental_div_mod(numerator, tile_size);
                lemma_mod_bound(numerator, tile_size);
                assert(before * tile_size == tile_size * before) by (nonlinear_arith);
            }
            assert(axis.origin <= 0);
        }
        if column < 0 {
            assert(tile_size * column <= -tile_size) by (nonlinear_arith)
                requires
                    column <= -1,
                    0 < tile_size,
            ;
        }

        // The screen ends within the last tile.
        let end = length - axis.origin + tile_size - 1;
        let fitting = whole_tiles(end, tile_size);
        if end >= 0 {
            lemma_fundamental_div_mod(end, tile_size);
            lemma_mod_bound(end, tile_size);
            if column >= fitting {
                assert(tile_size * column >= tile_size * fitting) by (nonlinear_arith)
                    requires
                        column >= fitting,
                        0 < tile_size,
                ;
            }
        }
    }
}

/// Tiles surrounding the viewport are part of the map, and none of them is
/// visible.
pub proof fn law_border_surrounds_viewport(iter: TileIterView, n: int)
    requires
        iter.valid(),
        iter.x.tiles > 0,
        iter.y.tiles > 0,
        0 <= n < iter.border().len(),
    ensures
        on_map(iter.border()[n]),
        !(iter.x.first <= iter.border()[n].x < iter.x.first + iter.x.tiles && iter.y.first
            <= iter.border()[n].y < iter.y.first + iter.y.tiles),
{
    lemma_tile_count_bound(iter.zoom);
}

/// The map position at the center of the screen is drawn there, for each axis.
pub proof fn law_center_is_drawn_at_center(
    length: int,
    index: int,
    offset: int,
    tile_size: int,
    count: int,
)
    ensures
        ({
            let axis = axis(length, index, offset, tile_size, count);
            axis.origin + (index - axis.first) * tile_size + offset == length / 2
        }),
{
}

/// The first visible tile starts at or in front of the screen's edge, unless it is
/// the map's edge. Every visible tile has at least one pixel on the screen.
pub proof fn law_only_visible_tiles_are_drawn(
    length: int,
    index: int,
    offset: int,
    tile_size: int,
    count: int,
)
    requires
        0 <= index < count,
        0 < length,
        0 <= offset < tile_size,
        axis_fits(length, index, offset, tile_size, count),
    ensures
        ({
            let axis = axis(length, index, offset, tile_size, count);
            &&& axis.first > 0 ==> -tile_size < axis.origin <= 0
            &&& axis.tiles > 0 ==> axis.origin + (axis.tiles - 1) * tile_size < length
            &&& 0 <= axis.first <= index
            &&& axis.first + axis.tiles <= count
        }),
{
    let start = length / 2 - offset;
    let axis = axis(length, index, offset, tile_size, count);
    let numerator = start + tile_size - 1;
    let before = whole_tiles(numerator, tile_size);
    if numerator >= 0 {
        lemma_fundamental_div_mod(numerator, tile_size);
        lemma_mod_bound(numerator, tile_size);
        assert(before * tile_size == tile_size * before) by (nonlinear_arith);
        lemma_div_pos_is_pos(numerator, tile_size);
    }
    let end = length - axis.origin + tile_size - 1;
    let fitting = whole_tiles(end, tile_size);
    if end >= 0 {
        lemma_fundamental_div_mod(end, tile_size);
        lemma_mod_bound(end, tile_size);
        if axis.tiles > 0 {
            assert(axis.tiles * tile_size <= fitting * tile_size) by (nonlinear_arith)
                requires
                    axis.tiles <= fitting,
                    0 < tile_size,
            ;
            assert(fitting * tile_size == tile_size * fitting && (axis.tiles - 1) * tile_size
                == axis.tiles * tile_size - tile_size) by (nonlinear_arith);
        }
    }
}

/// All tiles of the visible area are visited, each at the position of its map
/// location.
pub proof fn law_visible_area_is_visited(iter: TileIterView, column: int, row: int)
    requires
        iter.valid(),
        0 <= column < iter.x.tiles,
        0 <= row < iter.y.tiles,
    ensures
        ({
            let n = row * iter.x.tiles + column;
            let (tile, point) = iter.tile(n);
            &&& 0 <= n < iter.len()
            &&& tile.x == iter.x.first + column
            &&& tile.y == iter.y.first + row
            &&& tile.z == iter.zoom
            &&& point.x == iter.point(tile, Point { x: 0, y: 0 }).0
            &&& point.y == iter.point(tile, Point { x: 0, y: 0 }).1
        }),
{
    let n = row * iter.x.tiles + column;
    lemma_tile_count_bound(iter.zoom);
    assert(0 <= n < iter.x.tiles * iter.y.tiles) by (nonlinear_arith)
        requires
            n == row * iter.x.tiles + column,
            0 <= column < iter.x.tiles,
            0 <= row < iter.y.tiles,
    ;
    lemma_fundamental_div_mod_converse(n, iter.x.tiles, row, column);
    assert(0 <= column * iter.tile_size <= (iter.x.tiles - 1) * iter.tile_size)
        by (nonlinear_arith)
        requires
            0 <= column <= iter.x.tiles - 1,
            0 < iter.tile_size,
    ;
    assert(0 <= row * iter.tile_size <= (iter.y.tiles - 1) * iter.tile_size) by (nonlinear_arith)
        requires
            0 <= row <= iter.y.tiles - 1,
            0 < iter.tile_size,
    ;
}

/// Every tile of the map which touches the viewport from outside, including its
/// corners, is part of the border.
pub proof fn law_border_is_complete(iter: TileIterView, x: int, y: int)
    requires
        iter.valid(),
        iter.x.tiles > 0,
        iter.y.tiles > 0,
        0 <= x < tile_count(iter.zoom),
        0 <= y < tile_count(iter.zoom),
        iter.x.first - 1 <= x <= iter.x.first + iter.x.tiles,
        iter.y.first - 1 <= y <= iter.y.first + iter.y.tiles,
        !(iter.x.first <= x < iter.x.first + iter.x.tiles && iter.y.first <= y < iter.y.first
            + iter.y.tiles),
    ensures
        iter.border().contains(TileIndex { x: x as u32, y: y as u32, z: iter.zoom }),
{
    lemma_tile_count_bound(iter.zoom);
    let tile = TileIndex { x: x as u32, y: y as u32, z: iter.zoom };
    let border = iter.border();
    let (min_x, end_x) = iter.border_columns();
    let (min_y, end_y) = iter.border_rows();
    let max_x = iter.x.first + iter.x.tiles;
    let max_y = iter.y.first + iter.y.tiles;
    let count = tile_count(iter.zoom);
    let top = if iter.y.first > 0 {
        end_x - min_x
    } else {
        0
    };
    let bottom = if max_y < count {
        end_x - min_x
    } else {
        0
    };
    let left = if iter.x.first > 0 {
        end_y - min_y
    } else {
        0
    };
    if y < iter.y.first {
        assert(border[x - min_x] == tile);
    } else if y >= max_y {
        assert(border[top + x - min_x] == tile);
    } else if x < iter.x.first {
        assert(border[top + bottom + y - min_y] == tile);
    } else {
        assert(border[top + bottom + left + y - min_y] == tile);
    }
}

} // verus!
