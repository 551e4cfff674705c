//! Downloader for offline raster tiles.

use vstd::prelude::*;

use crate::text::{
    chars_of, decimal, find_first, find_next, first_occurrence, law_first_occurrence,
    law_next_position, next_position, occurs_at, opt_view, str_eq, string_of, to_decimal,
    trim, trimmed, views,
};
use crate::tiles::TileIndex;

verus! {

/// Maximum zoom level for offline tiles.
pub const MAX_ZOOM: u8 = 16;

/// Zoom levels for offline tiles.
///
/// The second highest level is skipped, since it is the only level that
/// significantly impacts total tile count while also being an optional
/// resolution step. For rendering, this tile level can simply fall back to the
/// next higher or lower resolution.
pub open spec fn is_offline_zoom(zoom: u8) -> bool {
    zoom <= MAX_ZOOM && zoom != MAX_ZOOM - 1
}

/// Get the zoom levels for offline tiles.
pub fn offline_zooms() -> (zooms: Vec<u8>)
    ensures
        zooms@ == Seq::new(16, |i: int| if i < 15 { i as u8 } else { MAX_ZOOM }),
        forall|zoom: u8| zooms@.contains(zoom) <==> is_offline_zoom(zoom),
{
    let mut zooms: Vec<u8> = Vec::new();
    let ghost all = Seq::new(16, |i: int| if i < 15 { i as u8 } else { MAX_ZOOM });
    let mut zoom: u8 = 0;
    while zoom <= MAX_ZOOM
        invariant
            zoom <= MAX_ZOOM + 1,
            all == Seq::new(16, |i: int| if i < 15 { i as u8 } else { MAX_ZOOM }),
            zooms@ == all.take(if zoom <= 15 { zoom as int } else { zoom - 1 }),
        decreases MAX_ZOOM + 1 - zoom,
    {
        if zoom != MAX_ZOOM - 1 {
            zooms.push(zoom);
        }
        zoom += 1;
        proof {
            assert(zooms@ =~= all.take(if zoom <= 15 { zoom as int } else { zoom - 1 }));
        }
    }
    proof {
        assert(zooms@ =~= all);
        assert forall|zoom: u8| zooms@.contains(zoom) <==> is_offline_zoom(zoom) by {
            if is_offline_zoom(zoom) {
                let i = if zoom == MAX_ZOOM {
                    15int
                } else {
                    zoom as int
                };
                assert(zooms@[i] == zoom);
            }
        }
    }
    zooms
}

/// File name of a tile.
pub open spec fn tile_filename_of(tile: TileIndex) -> Seq<char> {
    decimal(tile.z as int) + "_"@ + decimal(tile.x as int) + "_"@ + decimal(tile.y as int)
        + ".png"@
}

/// Get the file name of a tile.
pub fn tile_filename(tile: TileIndex) -> (name: String)
    ensures
        name@ == tile_filename_of(tile),
{
    let mut name = to_decimal(tile.z as u64);
    name.append("_");
    let x = to_decimal(tile.x as u64);
    name.append(x.as_str());
    name.append("_");
    let y = to_decimal(tile.y as u64);
    name.append(y.as_str());
    name.append(".png");
    name
}

/// Row of tiles between two X coordinates.
#[derive(Copy, Clone, Debug, PartialEq, Eq, Structural)]
pub struct TileRow {
    pub y: u32,
    pub min_x: u32,
    pub max_x: u32,
}

/// Smallest and largest X coordinate for each Y coordinate.
pub type Rows = Map<u32, (u32, u32)>;

/// Rows which include a tile.
pub open spec fn with_tile(rows: Rows, x: u32, y: u32) -> Rows {
    if rows.contains_key(y) {
        let (min, max) = rows[y];
        rows.insert(
            y,
            (
                if x < min {
                    x
                } else {
                    min
                },
                if x > max {
                    x
                } else {
                    max
                },
            ),
        )
    } else {
        rows.insert(y, (x, x))
    }
}

/// Line between the tiles of two points of a polygon.
#[derive(Copy, Clone, Debug, PartialEq, Eq, Structural)]
pub struct Line {
    /// Tile with the smaller Y coordinate.
    pub top: TileIndex,
    /// Tile with the larger Y coordinate.
    pub bottom: TileIndex,
    /// Smallest X coordinate.
    pub min_x: u32,
    /// Largest X coordinate.
    pub max_x: u32,
    /// The line only includes the tiles between the centers of both tiles.
    pub straight: bool,
}

/// Line between two tiles.
pub open spec fn line_between(last: TileIndex, tile: TileIndex, straight: bool) -> Line {
    let (top, bottom) = if tile.y > last.y {
        (last, tile)
    } else {
        (tile, last)
    };
    let (min_x, max_x) = if tile.x > last.x {
        (last.x, tile.x)
    } else {
        (tile.x, last.x)
    };
    Line { top, bottom, min_x, max_x, straight }
}

impl Line {
    /// Number of rows between the top and bottom tile.
    pub open spec fn height(self) -> int {
        self.bottom.y - self.top.y
    }

    /// Horizontal distance from the top to the bottom tile.
    pub open spec fn width(self) -> int {
        self.bottom.x - self.top.x
    }

    /// X coordinate at which the line between the tiles crosses a row, in
    /// fractions of the line's height.
    pub open spec fn center(self, row: int) -> int {
        self.top.x * self.height() + self.width() * row
    }

    /// Distance of other lines between the same tiles from their center, in
    /// fractions of the line's height.
    pub open spec fn slack(self) -> int {
        if self.straight {
            0
        } else if self.width() < 0 {
            -self.width()
        } else {
            self.width()
        }
    }

    /// First tile which could be intersected by the line in a row.
    pub open spec fn first(self, row: int) -> int {
        let x = (self.center(row) - self.slack()) / self.height();
        if x > self.min_x {
            x
        } else {
            self.min_x as int
        }
    }

    /// Last tile which could be intersected by the line in a row.
    pub open spec fn last(self, row: int) -> int {
        let x = (self.center(row) + self.slack() + self.height() - 1) / self.height();
        if x < self.max_x {
            x
        } else {
            self.max_x as int
        }
    }

    /// The line's dimensions match its tiles.
    pub open spec fn valid(self) -> bool {
        &&& self.top.y < self.bottom.y
        &&& self.min_x == self.top.x && self.max_x == self.bottom.x || self.min_x == self.bottom.x
            && self.max_x == self.top.x
        &&& self.min_x <= self.max_x
    }

    /// The line crosses every row between its tiles.
    proof fn lemma_center(self, row: int)
        requires
            self.valid(),
            0 <= row <= self.height(),
        ensures
            self.min_x * self.height() <= self.center(row) <= self.max_x * self.height(),
            0 <= self.center(row),
            row == 0 ==> self.center(row) == self.top.x * self.height(),
            row == self.height() ==> self.center(row) == self.bottom.x * self.height(),
            0 <= self.slack() <= u32::MAX,
            0 <= self.center(row) <= u32::MAX * u32::MAX,
    {
        let (top, bottom, height) = (self.top.x as int, self.bottom.x as int, self.height());
        let (min, max) = (self.min_x as int, self.max_x as int);
        let center = top * height + (bottom - top) * row;
        assert(center == top * (height - row) + bottom * row) by (nonlinear_arith)
            requires
                center == top * height + (bottom - top) * row,
        ;
        assert(min * height == min * (height - row) + min * row) by (nonlinear_arith);
        assert(max * height == max * (height - row) + max * row) by (nonlinear_arith);
        assert(min * (height - row) <= top * (height - row) <= max * (height - row))
            by (nonlinear_arith)
            requires
                min <= top <= max,
                row <= height,
        ;
        assert(min * row <= bottom * row <= max * row) by (nonlinear_arith)
            requires
                min <= bottom <= max,
                0 <= row,
        ;
        assert(0 <= min * height && max * height <= u32::MAX * u32::MAX) by (nonlinear_arith)
            requires
                0 <= min,
                0 <= max <= u32::MAX,
                0 <= height <= u32::MAX,
        ;
        if row == 0 {
            assert((bottom - top) * row == 0) by (nonlinear_arith)
                requires
                    row == 0,
            ;
        }
        if row == height {
            assert(top * (height - row) == 0) by (nonlinear_arith)
                requires
                    row == height,
            ;
        }
    }

    /// The first and last tile in a row are between those of the line, with the
    /// tile on its center between them.
    pub proof fn lemma_row(self, row: int)
        requires
            self.valid(),
            0 <= row <= self.height(),
        ensures
            self.min_x <= self.first(row) <= self.center(row) / self.height() <= self.last(row)
                <= self.max_x,
            row == 0 ==> self.center(row) / self.height() == self.top.x,
            row == self.height() ==> self.center(row) / self.height() == self.bottom.x,
    {
        self.lemma_center(row);
        let height = self.height();
        let center = self.center(row);
        vstd::arithmetic::div_mod::lemma_div_is_ordered(center - self.slack(), center, height);
        vstd::arithmetic::div_mod::lemma_div_is_ordered(
            center,
            center + self.slack() + height - 1,
            height,
        );
        vstd::arithmetic::div_mod::lemma_div_is_ordered(self.min_x * height, center, height);
        vstd::arithmetic::div_mod::lemma_div_is_ordered(center, self.max_x * height, height);
        vstd::arithmetic::div_mod::lemma_div_by_multiple(self.min_x as int, height);
        vstd::arithmetic::div_mod::lemma_div_by_multiple(self.max_x as int, height);
        vstd::arithmetic::div_mod::lemma_div_by_multiple(self.top.x as int, height);
        vstd::arithmetic::div_mod::lemma_div_by_multiple(self.bottom.x as int, height);
    }
}

/// Rows which include the first `n` rows of a line.
pub open spec fn with_line(rows: Rows, line: Line, n: int) -> Rows
    decreases n,
{
    if n <= 0 {
        rows
    } else {
        let rows = with_line(rows, line, n - 1);
        let y = (line.top.y + n - 1) as u32;
        with_tile(
            with_tile(rows, line.first(n - 1) as u32, y),
            line.last(n - 1) as u32,
            y,
        )
    }
}

/// The line to the tile at an index starts in the same row as the previous line.
pub open spec fn continues_row(tiles: Seq<TileIndex>, index: int) -> bool {
    index >= 2 && tiles[index - 2].y == tiles[index - 1].y
}

/// Line to the tile at an index, unless it stays in the same row.
///
/// Lines which continue a row are straight, all others include every tile which
/// could be intersected by any line between both tiles.
pub open spec fn line_to(tiles: Seq<TileIndex>, index: int) -> Option<Line> {
    let last = tiles[index - 1];
    if tiles[index].y == last.y {
        None
    } else {
        Some(line_between(last, tiles[index], continues_row(tiles, index)))
    }
}

/// Rows of the lines between the first `n` points of a polygon.
pub open spec fn polygon_rows(tiles: Seq<TileIndex>, n: int) -> Rows
    decreases n,
{
    if n <= 0 {
        Map::empty()
    } else if n == 1 {
        with_tile(Map::empty(), tiles[0].x, tiles[0].y)
    } else {
        let rows = polygon_rows(tiles, n - 1);
        match line_to(tiles, n - 1) {
            None => with_tile(rows, tiles[n - 1].x, tiles[n - 1].y),
            Some(line) => with_line(rows, line, line.height() + 1),
        }
    }
}

/// Get the line between two tiles.
fn make_line(last: TileIndex, tile: TileIndex, straight: bool) -> (line: Line)
    ensures
        line == line_between(last, tile, straight),
{
    // Sort tiles by y index, to simplify math.
    let (top, bottom) = if tile.y > last.y {
        (last, tile)
    } else {
        (tile, last)
    };
    let (min_x, max_x) = if tile.x > last.x {
        (last.x, tile.x)
    } else {
        (tile.x, last.x)
    };
    Line { top, bottom, min_x, max_x, straight }
}

/// Rows in ascending order.
pub open spec fn sorted_rows(rows: Seq<TileRow>) -> bool {
    &&& forall|i: int, j: int|
        0 <= i < j < rows.len() ==> (#[trigger] rows[i]).y < (#[trigger] rows[j]).y
    &&& forall|i: int| 0 <= i < rows.len() ==> (#[trigger] rows[i]).min_x <= rows[i].max_x
}

/// A list of rows holds exactly the specified rows.
pub open spec fn holds_rows(list: Seq<TileRow>, rows: Rows) -> bool {
    &&& forall|i: int|
        0 <= i < list.len() ==> {
            &&& rows.contains_key((#[trigger] list[i]).y)
            &&& rows[list[i].y] == (list[i].min_x, list[i].max_x)
        }
    &&& forall|y: u32|
        rows.contains_key(y) ==> exists|i: int| 0 <= i < list.len() && (#[trigger] list[i]).y == y
}

/// Include a tile in a list of rows.
fn insert_tile(list: &mut Vec<TileRow>, x: u32, y: u32, Ghost(rows): Ghost<Rows>)
    requires
        sorted_rows(old(list)@),
        holds_rows(old(list)@, rows),
    ensures
        sorted_rows(final(list)@),
        holds_rows(final(list)@, with_tile(rows, x, y)),
{
    let ghost before = list@;
    let mut i: usize = 0;
    while i < list.len() && list[i].y < y
        invariant
            list@ == before,
            i <= list.len(),
            forall|j: int| 0 <= j < i ==> (#[trigger] list[j]).y < y,
        decreases list.len() - i,
    {
        i += 1;
    }
    if i < list.len() && list[i].y == y {
        let row = list[i];
        let min_x: u32 = if x < row.min_x {
            x
        } else {
            row.min_x
        };
        let max_x: u32 = if x > row.max_x {
            x
        } else {
            row.max_x
        };
        list.set(i, TileRow { y, min_x, max_x });
        proof {
            let changed = with_tile(rows, x, y);
            assert(before[i as int].y == y);
            assert forall|k: u32| changed.contains_key(k) implies exists|j: int|
                0 <= j < list.len() && (#[trigger] list@[j]).y == k by {
                let j = choose|j: int| 0 <= j < before.len() && (#[trigger] before[j]).y == k;
                assert(list@[j].y == k);
            }
            assert forall|j: int| 0 <= j < list.len() implies {
                &&& changed.contains_key((#[trigger] list@[j]).y)
                &&& changed[list@[j].y] == (list@[j].min_x, list@[j].max_x)
            } by {
                assert(rows.contains_key(before[j].y));
                if j < i {
                    assert(before[j].y < before[i as int].y);
                } else if j > i {
                    assert(before[i as int].y < before[j].y);
                }
            }
        }
    } else {
        proof {
            if rows.contains_key(y) {
                let j = choose|j: int| 0 <= j < before.len() && (#[trigger] before[j]).y == y;
                if j < i {
                    assert(before[j].y < y);
                } else {
                    if i < j {
                        assert(before[i as int].y < before[j].y);
                    }
                }
            }
        }
        list.insert(i, TileRow { y, min_x: x, max_x: x });
        proof {
            let changed = with_tile(rows, x, y);
            assert forall|j: int| 0 <= j < list.len() implies list@[j] == (if j < i {
                before[j]
            } else if j == i {
                TileRow { y, min_x: x, max_x: x }
            } else {
                before[j - 1]
            }) by {}
            assert forall|j: int, k: int| 0 <= j < k < list.len() implies (#[trigger] list@[j]).y < (
            #[trigger] list@[k]).y by {
                if k > i {
                    assert(before[k - 1].y >= before[i as int].y);
                }
            }
            assert forall|k: u32| changed.contains_key(k) implies exists|j: int|
                0 <= j < list.len() && (#[trigger] list@[j]).y == k by {
                if k == y {
                    assert(list@[i as int].y == y);
                } else {
                    assert(rows.contains_key(k));
                    let j = choose|j: int| 0 <= j < before.len() && (#[trigger] before[j]).y == k;
                    if j < i {
                        assert(list@[j].y == k);
                    } else {
                        assert(list@[j + 1].y == k);
                    }
                }
            }
            assert forall|j: int| 0 <= j < list.len() implies {
                &&& changed.contains_key((#[trigger] list@[j]).y)
                &&& changed[list@[j].y] == (list@[j].min_x, list@[j].max_x)
            } by {
                if j < i {
                    assert(rows.contains_key(before[j].y));
                } else if j > i {
                    assert(rows.contains_key(before[j - 1].y));
                }
            }
        }
    }
}

/// Get the first and last tile which could be intersected by a line in a row.
fn intersected(line: &Line, row: u32) -> (tiles: (u32, u32))
    requires
        line.valid(),
        row <= line.height(),
    ensures
        tiles.0 == line.first(row as int),
        tiles.1 == line.last(row as int),
{
    proof {
        line.lemma_center(row as int);
        line.lemma_row(row as int);
    }
    let height: i128 = (line.bottom.y - line.top.y) as i128;
    let width: i128 = line.bottom.x as i128 - line.top.x as i128;
    proof {
        assert(-u32::MAX * u32::MAX <= width * row <= u32::MAX * u32::MAX) by (nonlinear_arith)
            requires
                -u32::MAX <= width <= u32::MAX,
                0 <= row <= u32::MAX,
        ;
        assert(0 <= line.top.x * height <= u32::MAX * u32::MAX) by (nonlinear_arith)
            requires
                0 <= line.top.x <= u32::MAX,
                0 <= height <= u32::MAX,
        ;
        assert(0 <= line.min_x * height <= u32::MAX * u32::MAX) by (nonlinear_arith)
            requires
                0 <= line.min_x <= u32::MAX,
                0 <= height <= u32::MAX,
        ;
    }
    let center: i128 = line.top.x as i128 * height + width * row as i128;
    let slack: i128 = if line.straight {
        0
    } else if width < 0 {
        -width
    } else {
        width
    };

    let start: i128 = center - slack;
    proof {
        let quotient = start as int / height as int;
        let rest = start as int % height as int;
        vstd::arithmetic::div_mod::lemma_fundamental_div_mod(start as int, height as int);
        vstd::arithmetic::div_mod::lemma_mod_bound(start as int, height as int);
        assert(quotient >= line.min_x <==> start >= line.min_x * height) by (nonlinear_arith)
            requires
                0 < height,
                start == height * quotient + rest,
                0 <= rest < height,
        ;
    }
    let first: u32 = if start >= line.min_x as i128 * height {
        (start as u128 / height as u128) as u32
    } else {
        line.min_x
    };

    let last: u128 = (center + slack + height - 1) as u128 / height as u128;
    let last: u32 = if last < line.max_x as u128 {
        last as u32
    } else {
        line.max_x
    };
    (first, last)
}

/// Include all rows of a line in a list of rows.
fn insert_line(list: &mut Vec<TileRow>, line: Line, Ghost(rows): Ghost<Rows>)
    requires
        sorted_rows(old(list)@),
        holds_rows(old(list)@, rows),
        line.valid(),
    ensures
        sorted_rows(final(list)@),
        holds_rows(final(list)@, with_line(rows, line, line.height() + 1)),
{
    let y_delta: u32 = line.bottom.y - line.top.y;
    let mut row: u32 = 0;
    loop
        invariant_except_break
            holds_rows(list@, with_line(rows, line, row as int)),
        invariant
            row <= y_delta,
            y_delta == line.height(),
            line.valid(),
            sorted_rows(list@),
        ensures
            holds_rows(list@, with_line(rows, line, line.height() + 1)),
        decreases y_delta - row,
    {
        let y: u32 = line.top.y + row;
        let (first, last) = intersected(&line, row);

        let ghost partial = with_line(rows, line, row as int);
        insert_tile(list, first, y, Ghost(partial));
        insert_tile(list, last, y, Ghost(with_tile(partial, first, y)));
        assert(holds_rows(list@, with_line(rows, line, row + 1)));

        if row == y_delta {
            break;
        }
        row += 1;
    }
}

/// Tiles of a row, starting `skip` tiles behind its first one.
pub open spec fn row_tiles(row: TileRow, zoom: u8, skip: int) -> Seq<TileIndex> {
    Seq::new(
        if row.min_x + skip <= row.max_x {
            (row.max_x - row.min_x - skip + 1) as nat
        } else {
            0
        },
        |i: int| TileIndex { x: (row.min_x + skip + i) as u32, y: row.y, z: zoom },
    )
}

/// Tiles of all rows, starting with the row at an index.
pub open spec fn rows_tiles(rows: Seq<TileRow>, zoom: u8, index: int) -> Seq<TileIndex>
    decreases rows.len() - index,
{
    if index < 0 || index >= rows.len() {
        Seq::empty()
    } else {
        row_tiles(rows[index], zoom, 0) + rows_tiles(rows, zoom, index + 1)
    }
}

/// Iterator over tile indices inside a polygon.
pub struct PolygonTileIter {
    tiles: Vec<TileRow>,
    zoom: u8,
    y_index: usize,
    x_index: u32,
}

impl PolygonTileIter {
    /// Rows of the polygon.
    pub closed spec fn rows(&self) -> Seq<TileRow> {
        self.tiles@
    }

    /// Zoom level of the tiles.
    pub closed spec fn spec_zoom(&self) -> u8 {
        self.zoom
    }

    /// The iterator's position is inside of a row.
    pub closed spec fn valid(&self) -> bool {
        &&& sorted_rows(self.tiles@)
        &&& self.y_index <= self.tiles.len()
        &&& self.y_index < self.tiles.len() ==> self.tiles[self.y_index as int].min_x + self.x_index
            <= self.tiles[self.y_index as int].max_x
    }

    /// Tiles which have not been visited yet.
    pub closed spec fn remaining(&self) -> Seq<TileIndex> {
        if self.y_index < self.tiles.len() {
            row_tiles(self.tiles[self.y_index as int], self.zoom, self.x_index as int) + rows_tiles(
                self.tiles@,
                self.zoom,
                self.y_index + 1,
            )
        } else {
            Seq::empty()
        }
    }

    /// Find the tiles inside of a polygon, which is given by the tiles of its
    /// points.
    ///
    /// While calculating just the tiles intersected by the line between origin
    /// and target point would lead to fewer tiles, it is likely marginal and not
    /// worth the extra complexity.
    pub fn new(zoom: u8, tiles: &Vec<TileIndex>) -> (iter: Self)
        ensures
            iter.valid(),
            iter.spec_zoom() == zoom,
            sorted_rows(iter.rows()),
            holds_rows(iter.rows(), polygon_rows(tiles@, tiles.len() as int)),
            iter.remaining() == rows_tiles(iter.rows(), zoom, 0),
    {
        let mut list: Vec<TileRow> = Vec::new();
        if tiles.len() > 0 {
            insert_tile(&mut list, tiles[0].x, tiles[0].y, Ghost(Map::empty()));
            let mut straight = false;
            let mut i: usize = 1;
            while i < tiles.len()
                invariant
                    1 <= i <= tiles.len(),
                    straight == continues_row(tiles@, i as int),
                    sorted_rows(list@),
                    holds_rows(list@, polygon_rows(tiles@, i as int)),
                decreases tiles.len() - i,
            {
                let last = tiles[i - 1];
                let tile = tiles[i];
                let ghost rows = polygon_rows(tiles@, i as int);

                // Short circuit if row did not change.
                if tile.y == last.y {
                    insert_tile(&mut list, tile.x, tile.y, Ghost(rows));
                } else {
                    // Add tiles which are intersected by any line between this and the
                    // last tile.
                    let line = make_line(last, tile, straight);
                    assert(line_to(tiles@, i as int) == Some(line));
                    insert_line(&mut list, line, Ghost(rows));
                }
                straight = tile.y == last.y;
                i += 1;
            }
        }
        let iter = PolygonTileIter { tiles: list, zoom, y_index: 0, x_index: 0 };
        proof {
            assert(iter.remaining() =~= rows_tiles(iter.rows(), zoom, 0));
        }
        iter
    }

    /// Get the next tile.
    pub fn next(&mut self) -> (tile: Option<TileIndex>)
        requires
            old(self).valid(),
        ensures
            final(self).valid(),
            final(self).rows() == old(self).rows(),
            final(self).spec_zoom() == old(self).spec_zoom(),
            match tile {
                Some(tile) => old(self).remaining() == seq![tile] + final(self).remaining(),
                None => old(self).remaining().len() == 0 && final(self).remaining().len() == 0,
            },
    {
        if self.y_index >= self.tiles.len() {
            return None;
        }
        let ghost before = *self;
        let row = self.tiles[self.y_index];
        let tile = TileIndex::new(row.min_x + self.x_index, row.y, self.zoom);

        if row.min_x + self.x_index >= row.max_x {
            self.y_index += 1;
            self.x_index = 0;
        } else {
            self.x_index += 1;
        }
        proof {
            assert(before.remaining() =~= seq![tile] + self.remaining());
        }
        Some(tile)
    }
}

/// Lines of a text, starting at a position.
///
/// Lines end with a line feed, which may have a carriage return in front of it.
pub open spec fn text_lines(s: Seq<char>, from: int) -> Seq<Seq<char>>
    decreases s.len() - from,
{
    if from < 0 || from >= s.len() {
        Seq::empty()
    } else {
        let end = next_position(s, '\n', from);
        if end < from || end >= s.len() {
            seq![s.subrange(from, s.len() as int)]
        } else if end > from && s[end - 1] == '\r' {
            seq![s.subrange(from, end - 1)] + text_lines(s, end + 1)
        } else {
            seq![s.subrange(from, end)] + text_lines(s, end + 1)
        }
    }
}

/// Get the lines of a text without surrounding whitespace.
fn trimmed_lines(s: &str) -> (lines: Vec<String>)
    ensures
        views(lines@) == text_lines(s@, 0).map_values(|line: Seq<char>| trimmed(line)),
{
    let chars = chars_of(s);
    let ghost all = text_lines(s@, 0);
    let ghost mut done = Seq::<Seq<char>>::empty();
    let mut lines: Vec<String> = Vec::new();
    let mut from: usize = 0;
    proof {
        assert(done + text_lines(s@, 0) =~= all);
        assert(views(lines@) =~= done.map_values(|line: Seq<char>| trimmed(line)));
    }
    while from < chars.len()
        invariant
            chars@ == s@,
            from <= chars.len(),
            done + text_lines(s@, from as int) == all,
            views(lines@) == done.map_values(|line: Seq<char>| trimmed(line)),
        decreases chars.len() - from,
    {
        let end = find_next(&chars, '\n', from);
        let stop: usize = if end < chars.len() && end > from && chars[end - 1] == '\r' {
            end - 1
        } else {
            end
        };
        let line = string_of(&chars, from, stop);
        let ghost before = lines@;
        lines.push(trim(line.as_str()));
        let ghost start = from;
        from = if end < chars.len() {
            end + 1
        } else {
            end
        };
        proof {
            assert(text_lines(s@, start as int) =~= seq![line@] + text_lines(s@, from as int));
            assert(done + text_lines(s@, start as int) =~= done.push(line@) + text_lines(
                s@,
                from as int,
            ));
            assert(views(lines@) =~= views(before).push(trimmed(line@)));
            assert(done.push(line@).map_values(|line: Seq<char>| trimmed(line)) =~= done.map_values(
                |line: Seq<char>| trimmed(line),
            ).push(trimmed(line@)));
            done = done.push(line@);
        }
    }
    proof {
        assert(done =~= all);
    }
    lines
}

/// Longitude and latitude of a point, separated by three spaces.
pub open spec fn point_parts(line: Seq<char>) -> Option<(Seq<char>, Seq<char>)> {
    match first_occurrence(line, "   "@, 0) {
        Some(position) => Some((line.take(position), line.skip(position + 3))),
        None => None,
    }
}

/// Points of a polygon, starting with a line.
///
/// The polygon ends with a line saying `END`, or with the first invalid line.
pub open spec fn points_from(lines: Seq<Seq<char>>, index: int) -> Seq<(Seq<char>, Seq<char>)>
    decreases lines.len() - index,
{
    if index < 0 || index >= lines.len() || lines[index] == "END"@ {
        Seq::empty()
    } else {
        match point_parts(lines[index]) {
            Some(point) => seq![point] + points_from(lines, index + 1),
            None => Seq::empty(),
        }
    }
}

/// First invalid line of a polygon, starting with a line.
pub open spec fn invalid_from(lines: Seq<Seq<char>>, index: int) -> Option<Seq<char>>
    decreases lines.len() - index,
{
    if index < 0 || index >= lines.len() || lines[index] == "END"@ {
        None
    } else {
        match point_parts(lines[index]) {
            Some(_) => invalid_from(lines, index + 1),
            None => Some(lines[index]),
        }
    }
}

/// Polygon format used by geofabrik.
#[derive(Debug)]
pub struct Polygon {
    /// Longitude and latitude of all points.
    pub points: Vec<(String, String)>,
    /// Line which is not a point.
    pub invalid: Option<String>,
}

/// Contents of a list of points.
pub open spec fn point_views(points: Seq<(String, String)>) -> Seq<(Seq<char>, Seq<char>)> {
    points.map_values(|point: (String, String)| (point.0@, point.1@))
}

impl Polygon {
    /// Parse a polygon.
    pub fn parse(s: &str) -> (polygon: Self)
        ensures
            ({
                let lines = text_lines(s@, 0).map_values(|line: Seq<char>| trimmed(line));
                &&& point_views(polygon.points@) == points_from(lines, 2)
                &&& opt_view(polygon.invalid) == invalid_from(lines, 2)
            }),
    {
        Polygon::from_lines(&trimmed_lines(s))
    }

    /// Parse the lines of a polygon, which have no surrounding whitespace.
    pub fn from_lines(lines: &Vec<String>) -> (polygon: Self)
        ensures
            point_views(polygon.points@) == points_from(views(lines@), 2),
            opt_view(polygon.invalid) == invalid_from(views(lines@), 2),
    {
        let ghost all = views(lines@);
        let separator = chars_of("   ");
        let mut points: Vec<(String, String)> = Vec::new();
        let mut i: usize = 2;
        proof {
            reveal_strlit("   ");
            assert(point_views(points@) + points_from(all, 2) =~= points_from(all, 2));
        }
        while i < lines.len()
            invariant
                2 <= i,
                all == views(lines@),
                separator@ == "   "@,
                separator.len() == 3,
                point_views(points@) + points_from(all, i as int) == points_from(all, 2),
                invalid_from(all, i as int) == invalid_from(all, 2),
            decreases lines.len() - i,
        {
            let line = lines[i].as_str();
            assert(all[i as int] == line@);
            if str_eq(line, "END") {
                proof {
                    assert(point_views(points@) =~= points_from(all, 2));
                }
                return Polygon { points, invalid: None };
            }

            let chars = chars_of(line);
            match find_first(&chars, &separator) {
                Some(position) => {
                    let lon = string_of(&chars, 0, position);
                    let lat = string_of(&chars, position + 3, chars.len());
                    let ghost before = points@;
                    points.push((lon, lat));
                    proof {
                        assert(lon@ =~= line@.take(position as int));
                        assert(lat@ =~= line@.skip(position + 3));
                        assert(point_views(points@) =~= point_views(before).push((lon@, lat@)));
                        assert(point_views(before) + points_from(all, i as int) =~= point_views(
                            points@,
                        ) + points_from(all, i + 1));
                    }
                },
                None => {
                    proof {
                        assert(point_views(points@) =~= points_from(all, 2));
                    }
                    return Polygon { points, invalid: Some(line.to_owned()) };
                },
            }
            i += 1;
        }
        proof {
            assert(point_views(points@) =~= points_from(all, 2));
        }
        Polygon { points, invalid: None }
    }
}

/// Every tile of a polygon lies in a row between the outermost tiles of that
/// row.
pub proof fn law_polygon_tiles_in_rows(rows: Seq<TileRow>, zoom: u8, index: int, n: int)
    requires
        0 <= index,
        0 <= n < rows_tiles(rows, zoom, index).len(),
    ensures
        ({
            let tile = rows_tiles(rows, zoom, index)[n];
            exists|i: int|
                index <= i < rows.len() && (#[trigger] rows[i]).y == tile.y && rows[i].min_x
                    <= tile.x <= rows[i].max_x
        }),
    decreases rows.len() - index,
{
    let head = row_tiles(rows[index], zoom, 0);
    let tile = rows_tiles(rows, zoom, index)[n];
    if n < head.len() {
        assert(tile == head[n]);
        assert(rows[index].y == tile.y);
    } else {
        law_polygon_tiles_in_rows(rows, zoom, index + 1, n - head.len());
    }
}

/// All tiles which are included in the rows of a polygon are visited.
pub proof fn law_polygon_tiles_are_visited(
    list: Seq<TileRow>,
    rows: Rows,
    zoom: u8,
    x: u32,
    y: u32,
)
    requires
        holds_rows(list, rows),
        has_tile(rows, x as int, y),
    ensures
        rows_tiles(list, zoom, 0).contains(TileIndex { x, y, z: zoom }),
{
    let i = choose|i: int| 0 <= i < list.len() && (#[trigger] list[i]).y == y;
    lemma_row_is_visited(list, zoom, 0, i, x);
}

/// All tiles between the outermost tiles of a row are visited.
proof fn lemma_row_is_visited(rows: Seq<TileRow>, zoom: u8, index: int, i: int, x: u32)
    requires
        0 <= index <= i < rows.len(),
        rows[i].min_x <= x <= rows[i].max_x,
    ensures
        rows_tiles(rows, zoom, index).contains(TileIndex { x, y: rows[i].y, z: zoom }),
    decreases rows.len() - index,
{
    let tile = TileIndex { x, y: rows[i].y, z: zoom };
    let head = row_tiles(rows[index], zoom, 0);
    let tail = rows_tiles(rows, zoom, index + 1);
    let all = rows_tiles(rows, zoom, index);
    if index == i {
        let n = x - rows[i].min_x;
        assert(head[n] == tile);
        assert(all[n] == tile);
    } else {
        lemma_row_is_visited(rows, zoom, index + 1, i, x);
        let n = choose|n: int| 0 <= n < tail.len() && tail[n] == tile;
        assert(all[head.len() + n] == tile);
    }
}

/// Rows include a tile.
pub open spec fn has_tile(rows: Rows, x: int, y: u32) -> bool {
    rows.contains_key(y) && rows[y].0 <= x <= rows[y].1
}

/// Every line between two consecutive points of a polygon is part of it: all
/// rows from one point to the other include the tile at which the line crosses
/// the row, which is between both points.
pub proof fn law_lines_are_covered(tiles: Seq<TileIndex>, i: int, y: u32)
    requires
        1 <= i < tiles.len(),
        tiles[i - 1].y <= y <= tiles[i].y || tiles[i].y <= y <= tiles[i - 1].y,
    ensures
        ({
            let rows = polygon_rows(tiles, tiles.len() as int);
            let (min_x, max_x) = if tiles[i].x > tiles[i - 1].x {
                (tiles[i - 1].x, tiles[i].x)
            } else {
                (tiles[i].x, tiles[i - 1].x)
            };
            match line_to(tiles, i) {
                Some(line) => {
                    let x = line.center(y - line.top.y) / line.height();
                    min_x <= x <= max_x && has_tile(rows, x, y)
                },
                None => forall|x: int| min_x <= x <= max_x ==> has_tile(rows, x, y),
            }
        }),
{
    match line_to(tiles, i) {
        Some(line) => {
            let row = y - line.top.y;
            let x = line.center(row) / line.height();
            line.lemma_row(row);
            lemma_line_added(polygon_rows(tiles, i), line, line.height() + 1, row);
            lemma_polygon_extends(tiles, i + 1, tiles.len() as int, x, y);
        },
        None => {
            law_points_are_covered(tiles, i - 1);
            law_points_are_covered(tiles, i);
        },
    }
}

/// The tile of every point of a polygon is part of it.
pub proof fn law_points_are_covered(tiles: Seq<TileIndex>, i: int)
    requires
        0 <= i < tiles.len(),
    ensures
        has_tile(polygon_rows(tiles, tiles.len() as int), tiles[i].x as int, tiles[i].y),
{
    if i > 0 {
        if let Some(line) = line_to(tiles, i) {
            let row = tiles[i].y - line.top.y;
            line.lemma_row(row);
            lemma_line_added(polygon_rows(tiles, i), line, line.height() + 1, row);
        }
    }
    lemma_polygon_extends(tiles, i + 1, tiles.len() as int, tiles[i].x as int, tiles[i].y);
}

/// Adding a line includes all of its rows.
proof fn lemma_line_added(rows: Rows, line: Line, n: int, row: int)
    requires
        line.valid(),
        0 <= row < n <= line.height() + 1,
    ensures
        has_tile(
            with_line(rows, line, n),
            line.center(row) / line.height(),
            (line.top.y + row) as u32,
        ),
    decreases n,
{
    line.lemma_row(n - 1);
    if row < n - 1 {
        lemma_line_added(rows, line, n - 1, row);
    }
}

/// Adding a line never removes any tile.
proof fn lemma_line_extends(rows: Rows, line: Line, n: int, x: int, y: u32)
    requires
        has_tile(rows, x, y),
    ensures
        has_tile(with_line(rows, line, n), x, y),
    decreases n,
{
    if n > 0 {
        lemma_line_extends(rows, line, n - 1, x, y);
    }
}

/// Adding more points never removes any tile.
proof fn lemma_polygon_extends(tiles: Seq<TileIndex>, i: int, n: int, x: int, y: u32)
    requires
        0 < i <= n <= tiles.len(),
        has_tile(polygon_rows(tiles, i), x, y),
    ensures
        has_tile(polygon_rows(tiles, n), x, y),
    decreases n,
{
    if i < n {
        lemma_polygon_extends(tiles, i, n - 1, x, y);
        if let Some(line) = line_to(tiles, n - 1) {
            lemma_line_extends(polygon_rows(tiles, n - 1), line, line.height() + 1, x, y);
        }
    }
}

/// A point is split at its first three spaces.
pub proof fn law_points_are_split_at_spaces(line: Seq<char>)
    ensures
        match point_parts(line) {
            Some((lon, lat)) => {
                &&& lon + seq![' ', ' ', ' '] + lat == line
                &&& forall|i: int|
                    0 <= i < lon.len() ==> !#[trigger] occurs_at(line, "   "@, i)
            },
            None => forall|i: int| 0 <= i <= line.len() ==> !#[trigger] occurs_at(line, "   "@, i),
        },
{
    reveal_strlit("   ");
    law_first_occurrence(line, "   "@, 0);
    if let Some((lon, lat)) = point_parts(line) {
        let position = lon.len() as int;
        let middle = line.subrange(position, position + 3);
        assert(middle =~= seq![' ', ' ', ' ']);
        assert(lon + middle + lat =~= line);
    }
}

/// All lines up to the end of a polygon are its points, in their order.
pub proof fn law_all_points_are_parsed(lines: Seq<Seq<char>>, index: int, n: int)
    requires
        0 <= index,
        0 <= n,
        index + n <= lines.len(),
        forall|i: int|
            index <= i < index + n ==> (#[trigger] lines[i]) != "END"@ && point_parts(lines[i])
                is Some,
        index + n == lines.len() || lines[index + n] == "END"@,
    ensures
        points_from(lines, index).len() == n,
        forall|i: int|
            0 <= i < n ==> #[trigger] points_from(lines, index)[i] == point_parts(
                lines[index + i],
            )->0,
        invalid_from(lines, index) is None,
    decreases n,
{
    if n > 0 {
        assert(lines[index] != "END"@ && point_parts(lines[index]) is Some);
        law_all_points_are_parsed(lines, index + 1, n - 1);
        let rest = points_from(lines, index + 1);
        assert forall|i: int| 0 <= i < n implies #[trigger] points_from(lines, index)[i]
            == point_parts(lines[index + i])->0 by {
            if i > 0 {
                assert(points_from(lines, index)[i] == rest[i - 1]);
            }
        }
    }
}

/// The first line which is no point is reported, with all points in front of it.
pub proof fn law_invalid_line_is_reported(lines: Seq<Seq<char>>, index: int, n: int)
    requires
        0 <= index,
        0 <= n,
        index + n < lines.len(),
        forall|i: int|
            index <= i < index + n ==> (#[trigger] lines[i]) != "END"@ && point_parts(lines[i])
                is Some,
        lines[index + n] != "END"@,
        point_parts(lines[index + n]) is None,
    ensures
        invalid_from(lines, index) == Some(lines[index + n]),
        points_from(lines, index).len() == n,
    decreases n,
{
    if n > 0 {
        assert(lines[index] != "END"@ && point_parts(lines[index]) is Some);
        law_invalid_line_is_reported(lines, index + 1, n - 1);
    }
}

proof fn lemma_next_position_behind(a: Seq<char>, rest: Seq<char>, c: char, from: int)
    requires
        0 <= from <= rest.len(),
    ensures
        next_position(a + rest, c, a.len() + from) == a.len() + next_position(rest, c, from),
    decreases rest.len() - from,
{
    if from < rest.len() && rest[from] != c {
        lemma_next_position_behind(a, rest, c, from + 1);
    }
}

proof fn lemma_lines_behind(a: Seq<char>, rest: Seq<char>, from: int)
    requires
        0 <= from <= rest.len(),
    ensures
        text_lines(a + rest, a.len() + from) == text_lines(rest, from),
    decreases rest.len() - from,
{
    let s = a + rest;
    if from < rest.len() {
        lemma_next_position_behind(a, rest, '\n', from);
        law_next_position(rest, '\n', from);
        let end = next_position(rest, '\n', from);
        if end < rest.len() {
            lemma_lines_behind(a, rest, end + 1);
            assert(s.subrange(a.len() + from, a.len() + end) =~= rest.subrange(from, end));
            if end > from {
                assert(s[a.len() + end - 1] == rest[end - 1]);
                assert(s.subrange(a.len() + from, a.len() + end - 1) =~= rest.subrange(
                    from,
                    end - 1,
                ));
            }
        } else {
            assert(s.subrange(a.len() + from, s.len() as int) =~= rest.subrange(
                from,
                rest.len() as int,
            ));
        }
    }
}

/// Lines end with a line feed, which is not part of the line. A carriage return in
/// front of it is dropped as well.
pub proof fn law_lines_end_with_line_feed(line: Seq<char>, rest: Seq<char>)
    requires
        !line.contains('\n'),
        line.len() > 0 ==> line.last() != '\r',
    ensures
        text_lines(line.push('\n') + rest, 0) == seq![line] + text_lines(rest, 0),
        text_lines(line.push('\r').push('\n') + rest, 0) == seq![line] + text_lines(rest, 0),
        line.len() > 0 ==> text_lines(line, 0) == seq![line],
{
    let feed = line.push('\n') + rest;
    let both = line.push('\r').push('\n') + rest;
    law_next_position(feed, '\n', 0);
    law_next_position(both, '\n', 0);
    law_next_position(line, '\n', 0);
    let len = line.len() as int;
    assert forall|i: int| 0 <= i < len implies feed[i] != '\n' && both[i] != '\n' && line[i]
        != '\n' by {
        assert(feed[i] == line[i] && both[i] == line[i]);
    }
    assert(feed[len] == '\n');
    assert(both[len] == '\r' && both[len + 1] == '\n');
    assert(next_position(feed, '\n', 0) == len);
    assert(next_position(both, '\n', 0) == len + 1);
    assert(feed.subrange(0, len) =~= line);
    assert(both.subrange(0, len) =~= line);
    if len > 0 {
        assert(feed[len - 1] == line[len - 1]);
        if next_position(line, '\n', 0) < len {
            assert(line.contains('\n'));
        }
        assert(line.subrange(0, len) =~= line);
    }
    lemma_lines_behind(line.push('\n'), rest, 0);
    lemma_lines_behind(line.push('\r').push('\n'), rest, 0);
}

/// Distance between two coordinates.
pub open spec fn distance(a: int, b: int) -> int {
    if a < b {
        b - a
    } else {
        a - b
    }
}

/// A tile could be intersected by the line from the previous point to the one at an
/// index.
///
/// It has to be less than one tile away from the line through both points' tiles. If
/// the line does not continue a row, it could be anywhere inside of these tiles,
/// which adds the line's width to that distance.
pub open spec fn near_line(tiles: Seq<TileIndex>, i: int, x: int, y: int) -> bool {
    let a = tiles[i - 1];
    let b = tiles[i];
    let offset = (x - a.x) * (b.y - a.y) - (b.x - a.x) * (y - a.y);
    let height = distance(a.y as int, b.y as int);
    let reach = if i >= 2 && tiles[i - 2].y == a.y {
        height
    } else {
        height + distance(a.x as int, b.x as int)
    };
    &&& a.y <= y <= b.y || b.y <= y <= a.y
    &&& a.x <= x <= b.x || b.x <= x <= a.x
    &&& -reach < offset < reach
}

/// A tile is the one of a polygon's point, or next to one of its lines.
pub open spec fn is_outline(tiles: Seq<TileIndex>, n: int, x: int, y: int) -> bool {
    ||| exists|i: int| 0 <= i < n && (#[trigger] tiles[i]).x == x && tiles[i].y == y
    ||| exists|i: int|
        1 <= i < n && tiles[i].y != tiles[i - 1].y && #[trigger] near_line(tiles, i, x, y)
}

/// Every tile which could be intersected by one of a polygon's lines is part of it.
pub proof fn law_tiles_near_lines_are_covered(tiles: Seq<TileIndex>, i: int, x: int, y: u32)
    requires
        1 <= i < tiles.len(),
        tiles[i].y != tiles[i - 1].y,
        near_line(tiles, i, x, y as int),
    ensures
        has_tile(polygon_rows(tiles, tiles.len() as int), x, y),
{
    let line = line_to(tiles, i)->0;
    let row = y - line.top.y;
    lemma_near_line(tiles, i, x, y as int);
    lemma_line_row_added(polygon_rows(tiles, i), line, line.height() + 1, row, x);
    lemma_polygon_extends(tiles, i + 1, tiles.len() as int, x, y);
}

/// Rows of a polygon start and end at one of its points or lines.
pub proof fn law_rows_end_at_outline(tiles: Seq<TileIndex>, n: int, y: u32)
    requires
        0 <= n <= tiles.len(),
        polygon_rows(tiles, n).contains_key(y),
    ensures
        is_outline(tiles, n, polygon_rows(tiles, n)[y].0 as int, y as int),
        is_outline(tiles, n, polygon_rows(tiles, n)[y].1 as int, y as int),
    decreases n,
{
    let all = polygon_rows(tiles, n);
    let rows = polygon_rows(tiles, n - 1);
    if n == 1 {
        assert(tiles[0].y == y && tiles[0].x == all[y].0 && tiles[0].x == all[y].1);
    } else {
        if rows.contains_key(y) {
            law_rows_end_at_outline(tiles, n - 1, y);
            lemma_outline_extends(tiles, n, rows[y].0 as int, y as int);
            lemma_outline_extends(tiles, n, rows[y].1 as int, y as int);
        }
        match line_to(tiles, n - 1) {
            Some(line) => {
                let row = y - line.top.y;
                lemma_line_row_ends(rows, line, line.height() + 1, y);
                if 0 <= row <= line.height() {
                    line.lemma_row(row);
                    lemma_near_line(tiles, n - 1, line.first(row), y as int);
                    lemma_near_line(tiles, n - 1, line.last(row), y as int);
                }
            },
            None => {
                assert(all == with_tile(rows, tiles[n - 1].x, tiles[n - 1].y));
            },
        }
    }
}

proof fn lemma_outline_extends(tiles: Seq<TileIndex>, n: int, x: int, y: int)
    requires
        is_outline(tiles, n - 1, x, y),
    ensures
        is_outline(tiles, n, x, y),
{
    if exists|i: int| 0 <= i < n - 1 && (#[trigger] tiles[i]).x == x && tiles[i].y == y {
        let i = choose|i: int| 0 <= i < n - 1 && (#[trigger] tiles[i]).x == x && tiles[i].y == y;
        assert(tiles[i].x == x);
    } else {
        let i = choose|i: int|
            1 <= i < n - 1 && tiles[i].y != tiles[i - 1].y && #[trigger] near_line(
                tiles,
                i,
                x,
                y,
            );
        assert(near_line(tiles, i, x, y));
    }
}

/// Rows of a line end at their first and last tile, unless they already were larger.
proof fn lemma_line_row_ends(rows: Rows, line: Line, n: int, y: u32)
    requires
        line.valid(),
        0 <= n <= line.height() + 1,
        with_line(rows, line, n).contains_key(y),
    ensures
        ({
            let (min, max) = with_line(rows, line, n)[y];
            let row = y - line.top.y;
            let added = 0 <= row < n;
            &&& added || rows.contains_key(y)
            &&& rows.contains_key(y) && min == rows[y].0 || added && min == line.first(row)
            &&& rows.contains_key(y) && max == rows[y].1 || added && max == line.last(row)
        }),
    decreases n,
{
    if n > 0 {
        let before = with_line(rows, line, n - 1);
        line.lemma_row(n - 1);
        assert(line.top.y + n - 1 <= line.bottom.y);
        if before.contains_key(y) {
            lemma_line_row_ends(rows, line, n - 1, y);
        }
    }
}

/// Adding a line includes all tiles between the first and last one of its rows.
proof fn lemma_line_row_added(rows: Rows, line: Line, n: int, row: int, x: int)
    requires
        line.valid(),
        0 <= row < n <= line.height() + 1,
        line.first(row) <= x <= line.last(row),
    ensures
        has_tile(with_line(rows, line, n), x, (line.top.y + row) as u32),
    decreases n,
{
    line.lemma_row(n - 1);
    if row < n - 1 {
        lemma_line_row_added(rows, line, n - 1, row, x);
    }
}

/// The tiles of a line are those which are close to it.
proof fn lemma_near_line(tiles: Seq<TileIndex>, i: int, x: int, y: int)
    requires
        1 <= i < tiles.len(),
        tiles[i].y != tiles[i - 1].y,
        tiles[i - 1].y <= y <= tiles[i].y || tiles[i].y <= y <= tiles[i - 1].y,
    ensures
        ({
            let line = line_to(tiles, i)->0;
            let row = y - line.top.y;
            near_line(tiles, i, x, y) <==> line.first(row) <= x <= line.last(row)
        }),
{
    let a = tiles[i - 1];
    let b = tiles[i];
    let line = line_to(tiles, i)->0;
    let row = y - line.top.y;
    let height = line.height();
    let center = line.center(row);
    let slack = line.slack();
    let offset = (x - a.x) * (b.y - a.y) - (b.x - a.x) * (y - a.y);
    let (ax, ay, bx, by) = (a.x as int, a.y as int, b.x as int, b.y as int);
    if by > ay {
        assert(x * height - center == offset) by (nonlinear_arith)
            requires
                height == by - ay,
                center == ax * height + (bx - ax) * row,
                row == y - ay,
                offset == (x - ax) * (by - ay) - (bx - ax) * (y - ay),
        ;
    } else {
        assert(x * height - center == -offset) by (nonlinear_arith)
            requires
                height == ay - by,
                center == bx * height + (ax - bx) * row,
                row == y - by,
                offset == (x - ax) * (by - ay) - (bx - ax) * (y - ay),
        ;
    }
    lemma_quotient_bounds(center - slack, height, x);
    lemma_quotient_bounds(center + slack + height - 1, height, x);
    assert((x + 1) * height == x * height + height) by (nonlinear_arith);
}

proof fn lemma_quotient_bounds(dividend: int, divisor: int, x: int)
    requires
        0 < divisor,
    ensures
        dividend / divisor <= x <==> dividend < (x + 1) * divisor,
        x <= dividend / divisor <==> x * divisor <= dividend,
{
    let quotient = dividend / divisor;
    vstd::arithmetic::div_mod::lemma_fundamental_div_mod(dividend, divisor);
    vstd::arithmetic::div_mod::lemma_mod_bound(dividend, divisor);
    let rest = dividend % divisor;
    if quotient <= x {
        assert(dividend < (x + 1) * divisor) by (nonlinear_arith)
            requires
                dividend == divisor * quotient + rest,
                rest < divisor,
                0 < divisor,
                quotient <= x,
        ;
    } else {
        assert(dividend >= (x + 1) * divisor) by (nonlinear_arith)
            requires
                dividend == divisor * quotient + rest,
                0 <= rest,
                0 < divisor,
                quotient >= x + 1,
        ;
    }
    if x <= quotient {
        assert(x * divisor <= dividend) by (nonlinear_arith)
            requires
                dividend == divisor * quotient + rest,
                0 <= rest,
                0 < divisor,
                x <= quotient,
        ;
    } else {
        assert(x * divisor > dividend) by (nonlinear_arith)
            requires
                dividend == divisor * quotient + rest,
                rest < divisor,
                0 < divisor,
                quotient + 1 <= x,
        ;
    }
}

/// Offline tiles are available for all zoom levels up to the most detailed one, with
/// the level before the last left out.
pub proof fn law_offline_zooms(zoom: u8)
    ensures
        is_offline_zoom(zoom) <==> zoom < MAX_ZOOM - 1 || zoom == MAX_ZOOM,
{
}

} // verus!
