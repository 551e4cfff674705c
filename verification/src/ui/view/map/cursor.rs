//! Map position.

use vstd::arithmetic::power2::*;
use vstd::prelude::*;

use crate::geometry::Point;
use crate::tiles::iter::{lemma_tile_count_bound, on_map, tile_count};
use crate::tiles::{TileIndex, MAX_ZOOM, TILE_SIZE};

verus! {

/// Position at the center of the map.
#[derive(Copy, Clone, Debug, PartialEq, Eq, Structural)]
pub struct Cursor {
    pub tile: TileIndex,
    pub offset: Point,
}

impl Cursor {
    pub fn new(tile: TileIndex, offset: Point) -> (cursor: Self)
        ensures
            cursor == (Cursor { tile, offset }),
    {
        Cursor { tile, offset }
    }

    /// The cursor is inside of a tile on the map.
    pub open spec fn valid(self) -> bool {
        &&& on_map(self.tile)
        &&& self.tile.z <= MAX_ZOOM
        &&& 0 <= self.offset.x < TILE_SIZE
        &&& 0 <= self.offset.y < TILE_SIZE
    }
}

/// Two's complement value of a tile index.
pub open spec fn signed(tile: u32) -> int {
    if tile > i32::MAX {
        tile - 0x1_0000_0000
    } else {
        tile as int
    }
}

/// Tile index and offset along one axis, clamped to the map.
pub open spec fn clamped_axis(tile: int, offset: int, count: int) -> (int, int) {
    let index = tile + offset / TILE_SIZE as int;
    if index >= count {
        (count - 1, 255)
    } else if index < 0 {
        (0, 0)
    } else {
        (index, offset % TILE_SIZE as int)
    }
}

/// Cursor after moving it by a number of pixels.
pub open spec fn moved(cursor: Cursor, x: int, y: int) -> Cursor {
    let count = tile_count(cursor.tile.z);
    let (tile_x, offset_x) = clamped_axis(signed(cursor.tile.x), cursor.offset.x + x, count);
    let (tile_y, offset_y) = clamped_axis(signed(cursor.tile.y), cursor.offset.y + y, count);
    Cursor {
        tile: TileIndex { x: tile_x as u32, y: tile_y as u32, z: cursor.tile.z },
        offset: Point { x: offset_x as i32, y: offset_y as i32 },
    }
}

/// Calculate the clamped tile index and offset along one axis.
fn clamp_axis(tile: u32, offset: i64, count: i64) -> (axis: (u32, i32))
    requires
        0 < count <= 0x8000_0000,
        -0x1_0000_0000_0000 < offset < 0x1_0000_0000_0000,
    ensures
        axis.0 == clamped_axis(signed(tile), offset as int, count as int).0,
        axis.1 == clamped_axis(signed(tile), offset as int, count as int).1,
{
    let index: i64 = if tile > 0x7fff_ffff {
        tile as i64 - 0x1_0000_0000
    } else {
        tile as i64
    };
    let delta: i64 = if offset >= 0 {
        offset / 256
    } else {
        -((255 - offset) / 256)
    };
    let index: i64 = index + delta;
    if index >= count {
        ((count - 1) as u32, 255)
    } else if index < 0 {
        (0, 0)
    } else {
        (index as u32, (offset - delta * 256) as i32)
    }
}

/// Get the number of tiles along each side of the map.
fn tiles_at(zoom: u8) -> (count: u32)
    requires
        zoom <= MAX_ZOOM,
    ensures
        count == tile_count(zoom),
        0 < count <= 0x8_0000,
{
    let mut count: u32 = 1;
    let mut z: u8 = 0;
    proof {
        lemma2_to64();
    }
    while z < zoom
        invariant
            z <= zoom <= MAX_ZOOM,
            count == tile_count(z),
            0 < count <= 0x8_0000,
        decreases zoom - z,
    {
        proof {
            lemma_pow2_unfold((z + 1) as nat);
            lemma2_to64();
            if z + 1 < 19 {
                lemma_pow2_strictly_increases((z + 1) as nat, 19);
            }
        }
        count = count * 2;
        z += 1;
    }
    count
}

impl Cursor {
    /// Convert a point relative to the screen's center to a tile and offset.
    ///
    /// The point is in pixels of the tiles at their unscaled size.
    pub fn center_point_tile(&self, x: i32, y: i32) -> (cursor: Cursor)
        requires
            self.tile.z <= MAX_ZOOM,
        ensures
            cursor == moved(*self, x as int, y as int),
            cursor.valid(),
    {
        proof {
            lemma_tile_count_bound(self.tile.z);
        }
        let count: i64 = tiles_at(self.tile.z) as i64;
        let (tile_x, offset_x) = clamp_axis(
            self.tile.x,
            self.offset.x as i64 + x as i64,
            count,
        );
        let (tile_y, offset_y) = clamp_axis(
            self.tile.y,
            self.offset.y as i64 + y as i64,
            count,
        );
        Cursor {
            tile: TileIndex::new(tile_x, tile_y, self.tile.z),
            offset: Point::new(offset_x, offset_y),
        }
    }
}

/// Division remainder with the sign of the dividend.
pub open spec fn signed_rem(dividend: int, divisor: int) -> int {
    if dividend >= 0 {
        dividend % divisor
    } else {
        -((-dividend) % divisor)
    }
}

/// Closest tile index for an integer.
pub open spec fn saturated(index: int) -> int {
    if index < 0 {
        0
    } else if index > u32::MAX {
        u32::MAX as int
    } else {
        index
    }
}

/// Tile and offset of a map position, after zooming out by some levels.
///
/// Both the position and the offset are in pixels.
pub open spec fn scaled_axis(position: int, levels: int) -> (int, int) {
    if levels >= 0 {
        let scale = pow2(levels as nat) as int;
        (
            saturated(position / (TILE_SIZE * scale)),
            signed_rem(position, TILE_SIZE * scale) / scale,
        )
    } else {
        let scaled = position * pow2((-levels) as nat);
        (saturated(scaled / TILE_SIZE as int), signed_rem(scaled, TILE_SIZE as int))
    }
}

/// Cursor after moving it to a focus point and zooming out by some levels.
pub open spec fn scaled(cursor: Cursor, focus: Point, levels: int) -> Cursor {
    let (tile_x, offset_x) = scaled_axis(
        cursor.tile.x * TILE_SIZE + cursor.offset.x + focus.x,
        levels,
    );
    let (tile_y, offset_y) = scaled_axis(
        cursor.tile.y * TILE_SIZE + cursor.offset.y + focus.y,
        levels,
    );
    Cursor {
        tile: TileIndex {
            x: tile_x as u32,
            y: tile_y as u32,
            z: (cursor.tile.z - levels) as u8,
        },
        offset: Point { x: offset_x as i32, y: offset_y as i32 },
    }
}

/// Split a map position into its tile index and the pixels behind the tile's
/// start.
fn split_position(position: i64, unit: i64) -> (axis: (u32, i64))
    requires
        -0x4000_0000_0000_0000 < position < 0x4000_0000_0000_0000,
        0 < unit,
    ensures
        axis.0 == saturated(position as int / unit as int),
        axis.1 == signed_rem(position as int, unit as int),
        -unit < axis.1 < unit,
{
    if position < 0 {
        proof {
            assert(position as int / unit as int <= 0) by (nonlinear_arith)
                requires
                    position < 0,
                    unit > 0,
            ;
        }
        (0, -((-position) % unit))
    } else {
        let index: i64 = position / unit;
        if index > 0xffff_ffff {
            (0xffff_ffff, position % unit)
        } else {
            (index as u32, position % unit)
        }
    }
}

/// Calculate the tile and offset of a map position after zooming.
fn scale_axis(position: i64, levels: i32) -> (axis: (u32, i32))
    requires
        -0x400_0000_0000 < position < 0x400_0000_0000,
        -MAX_ZOOM <= levels <= MAX_ZOOM,
    ensures
        axis.0 == scaled_axis(position as int, levels as int).0,
        axis.1 == scaled_axis(position as int, levels as int).1,
{
    if levels >= 0 {
        let scale: i64 = tiles_at(levels as u8) as i64;
        let (tile, rest) = split_position(position, 256 * scale);
        let offset: i64 = if rest >= 0 {
            rest / scale
        } else {
            -((scale - 1 - rest) / scale)
        };
        proof {
            lemma_ceil(rest as int, scale as int);
            assert(-256 <= rest as int / scale as int <= 256) by (nonlinear_arith)
                requires
                    -256 * scale < rest < 256 * scale,
                    scale > 0,
            ;
        }
        (tile, offset as i32)
    } else {
        let scale: i64 = tiles_at((-levels) as u8) as i64;
        proof {
            assert(-0x4000_0000_0000_0000 < position * scale < 0x4000_0000_0000_0000)
                by (nonlinear_arith)
                requires
                    -0x400_0000_0000 < position < 0x400_0000_0000,
                    0 < scale <= 0x8_0000,
            ;
        }
        let (tile, offset) = split_position(position * scale, 256);
        (tile, offset as i32)
    }
}

proof fn lemma_ceil(rest: int, scale: int)
    requires
        scale > 0,
    ensures
        -((scale - 1 - rest) / scale) == rest / scale,
{
    let q = rest / scale;
    let r = rest % scale;
    assert(rest == q * scale + r) by {
        vstd::arithmetic::div_mod::lemma_fundamental_div_mod(rest, scale);
        assert(q * scale == scale * q) by (nonlinear_arith);
    }
    assert(0 <= r < scale) by {
        vstd::arithmetic::div_mod::lemma_mod_bound(rest, scale);
    }
    assert(scale - 1 - rest == (-q) * scale + (scale - 1 - r)) by (nonlinear_arith)
        requires
            rest == q * scale + r,
    ;
    vstd::arithmetic::div_mod::lemma_fundamental_div_mod_converse(
        scale - 1 - rest,
        scale,
        -q,
        scale - 1 - r,
    );
}

impl Cursor {
    /// Move to a focus point and zoom out by a number of tile levels.
    ///
    /// Negative numbers zoom in.
    pub fn zoom_out(&self, focus: Point, levels: i32) -> (cursor: Cursor)
        requires
            self.tile.z <= MAX_ZOOM,
            0 <= self.tile.z - levels <= MAX_ZOOM,
        ensures
            cursor == scaled(*self, focus, levels as int),
    {
        let (tile_x, offset_x) = scale_axis(
            self.tile.x as i64 * 256 + self.offset.x as i64 + focus.x as i64,
            levels,
        );
        let (tile_y, offset_y) = scale_axis(
            self.tile.y as i64 * 256 + self.offset.y as i64 + focus.y as i64,
            levels,
        );
        let z: u8 = (self.tile.z as i32 - levels) as u8;
        Cursor {
            tile: TileIndex::new(tile_x, tile_y, z),
            offset: Point::new(offset_x, offset_y),
        }
    }
}

/// Number of zoom levels by which the map moves out, limited to the levels that
/// exist.
pub open spec fn limited_zoom(zoom: int, levels: int) -> int {
    if levels < zoom - MAX_ZOOM {
        zoom - MAX_ZOOM
    } else if levels > zoom {
        zoom
    } else {
        levels
    }
}

impl Cursor {
    /// Zoom out by a number of tile levels, as far as these exist.
    ///
    /// This also returns whether there were enough levels.
    pub fn zoom_by(&self, focus: Point, levels: i32) -> (zoomed: (Cursor, bool))
        requires
            self.tile.z <= MAX_ZOOM,
        ensures
            zoomed.0 == scaled(*self, focus, limited_zoom(self.tile.z as int, levels as int)),
            zoomed.0.tile.z <= MAX_ZOOM,
            zoomed.1 == (0 <= self.tile.z - levels <= MAX_ZOOM),
    {
        let min: i32 = self.tile.z as i32 - MAX_ZOOM as i32;
        let max: i32 = self.tile.z as i32;
        let limited: i32 = if levels < min {
            min
        } else if levels > max {
            max
        } else {
            levels
        };
        (self.zoom_out(focus, limited), limited == levels)
    }
}

/// Distance of the sub-tile zoom to the closest tile scale.
#[derive(Copy, Clone, Debug, PartialEq, Eq, Structural)]
pub enum ZoomSnap {
    /// The zoom is at a tile scale.
    Exact,
    /// The zoom is less than -50%.
    Out,
    /// The zoom is at least 50%.
    In,
    /// The zoom is closest to the current tile scale.
    Current,
}

/// Cursor after snapping to the nearest integer tile scale.
pub open spec fn snapped(cursor: Cursor, snap: ZoomSnap) -> Cursor {
    if snap == ZoomSnap::Out && cursor.tile.z > 0 {
        scaled(cursor, Point { x: 0, y: 0 }, 1)
    } else if snap == ZoomSnap::In && cursor.tile.z < MAX_ZOOM {
        scaled(cursor, Point { x: 0, y: 0 }, -1)
    } else {
        cursor
    }
}

impl Cursor {
    /// Snap zoom to nearest integer tile scale.
    pub fn snap_zoom(&self, snap: ZoomSnap) -> (cursor: Cursor)
        requires
            self.tile.z <= MAX_ZOOM,
        ensures
            cursor == snapped(*self, snap),
            cursor.tile.z <= MAX_ZOOM,
    {
        match snap {
            ZoomSnap::Out => {
                if self.tile.z > 0 {
                    self.zoom_out(Point::new(0, 0), 1)
                } else {
                    *self
                }
            },
            ZoomSnap::In => {
                if self.tile.z < MAX_ZOOM {
                    self.zoom_out(Point::new(0, 0), -1)
                } else {
                    *self
                }
            },
            _ => *self,
        }
    }
}

/// Moving the map there and back again restores its position, unless the edge of
/// the map was reached.
pub proof fn law_move_and_back(cursor: Cursor, x: int, y: int)
    requires
        cursor.valid(),
        0 <= cursor.tile.x + (cursor.offset.x + x) / 256 < tile_count(cursor.tile.z),
        0 <= cursor.tile.y + (cursor.offset.y + y) / 256 < tile_count(cursor.tile.z),
    ensures
        moved(moved(cursor, x, y), -x, -y) == cursor,
{
    lemma_small_count(cursor.tile.z);
}

proof fn lemma_small_count(zoom: u8)
    requires
        zoom <= MAX_ZOOM,
    ensures
        0 < tile_count(zoom) <= 0x8_0000,
{
    lemma2_to64();
    lemma_pow2_pos(zoom as nat);
    if zoom < 19 {
        lemma_pow2_strictly_increases(zoom as nat, 19);
    }
}

/// Position on the next tile level.
proof fn lemma_axis_in(tile: int, offset: int)
    requires
        0 <= tile < 0x8_0000,
        0 <= offset < 256,
    ensures
        scaled_axis(tile * 256 + offset, -1) == (2 * tile + 2 * offset / 256, 2 * offset % 256),
{
    lemma2_to64();
    let position = tile * 256 + offset;
    let scale = pow2(1) as int;
    assert(position * scale == 2 * position) by (nonlinear_arith)
        requires
            scale == 2,
    ;
    assert(2 * position == 2 * tile * 256 + 2 * offset);
}

/// Position on the previous tile level.
proof fn lemma_axis_out(tile: int, offset: int)
    requires
        0 <= tile < 0x10_0000,
        0 <= offset < 256,
    ensures
        scaled_axis(tile * 256 + offset, 1) == (tile / 2, (tile % 2 * 256 + offset) / 2),
{
    lemma2_to64();
    let position = tile * 256 + offset;
    let scale = pow2(1) as int;
    assert(scale == 2 && TILE_SIZE * scale == 512);
    assert(position == (tile / 2) * 512 + (tile % 2 * 256 + offset));
}

/// Snapping to the next tile level keeps the cursor on the map.
pub proof fn law_snap_stays_on_map(cursor: Cursor, snap: ZoomSnap)
    requires
        cursor.valid(),
    ensures
        snapped(cursor, snap).valid(),
{
    lemma_small_count(cursor.tile.z);
    if snap == ZoomSnap::Out && cursor.tile.z > 0 {
        lemma_pow2_unfold(cursor.tile.z as nat);
        lemma_axis_out(cursor.tile.x as int, cursor.offset.x as int);
        lemma_axis_out(cursor.tile.y as int, cursor.offset.y as int);
    } else if snap == ZoomSnap::In && cursor.tile.z < MAX_ZOOM {
        lemma_pow2_unfold((cursor.tile.z + 1) as nat);
        lemma_axis_in(cursor.tile.x as int, cursor.offset.x as int);
        lemma_axis_in(cursor.tile.y as int, cursor.offset.y as int);
    }
}

/// Zooming in and out again restores the map's position.
pub proof fn law_zoom_in_and_out(cursor: Cursor)
    requires
        cursor.valid(),
        cursor.tile.z < MAX_ZOOM,
    ensures
        snapped(snapped(cursor, ZoomSnap::In), ZoomSnap::Out) == cursor,
{
    lemma_small_count(cursor.tile.z);
    let zoomed = snapped(cursor, ZoomSnap::In);
    lemma_axis_in(cursor.tile.x as int, cursor.offset.x as int);
    lemma_axis_in(cursor.tile.y as int, cursor.offset.y as int);
    lemma_axis_out(zoomed.tile.x as int, zoomed.offset.x as int);
    lemma_axis_out(zoomed.tile.y as int, zoomed.offset.y as int);
}

/// Position on the map in pixels, counted from its first tile.
pub open spec fn pixel(tile: u32, offset: i32) -> int {
    tile * 256 + offset
}

/// Position limited to the pixels of a map.
pub open spec fn on_map_pixel(position: int, count: int) -> int {
    if position < 0 {
        0
    } else if position >= count * 256 {
        count * 256 - 1
    } else {
        position
    }
}

/// Moving the map changes its position by exactly the moved pixels, without
/// leaving the map.
pub proof fn law_moved_pixels(cursor: Cursor, x: int, y: int)
    requires
        cursor.valid(),
    ensures
        ({
            let after = moved(cursor, x, y);
            let count = tile_count(cursor.tile.z);
            &&& after.tile.z == cursor.tile.z
            &&& pixel(after.tile.x, after.offset.x) == on_map_pixel(
                pixel(cursor.tile.x, cursor.offset.x) + x,
                count,
            )
            &&& pixel(after.tile.y, after.offset.y) == on_map_pixel(
                pixel(cursor.tile.y, cursor.offset.y) + y,
                count,
            )
            &&& after.valid()
        }),
{
    lemma_small_count(cursor.tile.z);
    lemma_clamped_pixel(cursor.tile.x as int, cursor.offset.x + x, tile_count(cursor.tile.z));
    lemma_clamped_pixel(cursor.tile.y as int, cursor.offset.y + y, tile_count(cursor.tile.z));
}

proof fn lemma_clamped_pixel(tile: int, offset: int, count: int)
    requires
        0 <= tile < count <= 0x8_0000,
    ensures
        ({
            let (index, rest) = clamped_axis(tile, offset, count);
            &&& 0 <= index < count
            &&& 0 <= rest < 256
            &&& index * 256 + rest == on_map_pixel(tile * 256 + offset, count)
        }),
{
}

/// Zooming in multiplies the distance to the map's first tile by two for each
/// level, and zooming out divides it, with the focus point staying in place.
pub proof fn law_zoomed_pixels(position: int, levels: nat)
    requires
        0 <= position < 0x800_0000,
        levels <= 19,
    ensures
        ({
            let scale = pow2(levels) as int;
            let (tile, offset) = scaled_axis(position, levels as int);
            let (near_tile, near_offset) = scaled_axis(position, -levels);
            &&& 0 <= offset < 256 && 0 <= near_offset < 256
            &&& tile * 256 + offset == position / scale
            &&& levels <= 12 ==> near_tile * 256 + near_offset == position * scale
        }),
{
    let scale = pow2(levels) as int;
    lemma2_to64();
    lemma_pow2_pos(levels);
    if levels < 19 {
        lemma_pow2_strictly_increases(levels, 19);
    }
    let unit = 256 * scale;
    let tile = position / unit;
    let rest = position % unit;
    vstd::arithmetic::div_mod::lemma_fundamental_div_mod(position, unit);
    vstd::arithmetic::div_mod::lemma_mod_bound(position, unit);
    let offset = rest / scale;
    let low = rest % scale;
    vstd::arithmetic::div_mod::lemma_fundamental_div_mod(rest, scale);
    vstd::arithmetic::div_mod::lemma_mod_bound(rest, scale);
    assert(0 <= offset < 256) by (nonlinear_arith)
        requires
            0 <= rest < 256 * scale,
            rest == scale * offset + low,
            0 <= low < scale,
    ;
    assert(position == (tile * 256 + offset) * scale + low) by (nonlinear_arith)
        requires
            position == unit * tile + rest,
            unit == 256 * scale,
            rest == scale * offset + low,
    ;
    vstd::arithmetic::div_mod::lemma_fundamental_div_mod_converse(
        position,
        scale,
        tile * 256 + offset,
        low,
    );
    assert(0 <= tile <= position) by (nonlinear_arith)
        requires
            position == unit * tile + rest,
            0 <= rest < unit,
            0 <= position,
            unit >= 1,
    ;
    assert(scaled_axis(position, levels as int) == (tile, offset));
    let scaled = position * scale;
    if levels <= 12 {
        if levels < 12 {
            lemma_pow2_strictly_increases(levels, 12);
        }
        assert(0 <= scaled < 0x80_0000_0000) by (nonlinear_arith)
            requires
                scaled == position * scale,
                0 <= position < 0x800_0000,
                0 < scale <= 0x1000,
        ;
    }
    assert(0 <= scaled) by (nonlinear_arith)
        requires
            scaled == position * scale,
            0 <= position,
            0 < scale,
    ;
    if levels == 0 {
        assert(scale == 1);
        assert(scaled == position) by (nonlinear_arith)
            requires
                scaled == position * scale,
                scale == 1,
        ;
        assert(scaled_axis(position, -levels) == scaled_axis(position, 0));
        assert(position / 1 == position);
    } else {
        assert(scaled_axis(position, -levels) == (saturated(scaled / 256), scaled % 256));
    }
}

/// The zoom level never leaves the levels which exist, and changes by the
/// requested number of levels if it can.
pub proof fn law_zoom_is_limited(zoom: int, levels: int)
    requires
        0 <= zoom <= 19,
    ensures
        ({
            let after = zoom - limited_zoom(zoom, levels);
            &&& 0 <= after <= 19
            &&& 0 <= zoom - levels <= 19 ==> after == zoom - levels
            &&& zoom - levels < 0 ==> after == 0
            &&& zoom - levels > 19 ==> after == 19
        }),
{
}

/// Snapping changes the zoom level by one towards the closest scale, unless there
/// is no such level.
pub proof fn law_snap_changes_zoom(cursor: Cursor, snap: ZoomSnap)
    requires
        cursor.valid(),
    ensures
        ({
            let after = snapped(cursor, snap);
            &&& snap is Out && cursor.tile.z > 0 ==> after.tile.z == cursor.tile.z - 1
            &&& snap is In && cursor.tile.z < 19 ==> after.tile.z == cursor.tile.z + 1
            &&& snap is Exact || snap is Current ==> after == cursor
            &&& snap is Out && cursor.tile.z == 0 ==> after == cursor
            &&& snap is In && cursor.tile.z == 19 ==> after == cursor
        }),
{
}

} // verus!
