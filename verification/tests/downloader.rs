use std::f64::consts::PI;

use charon::downloader::{offline_zooms, tile_filename, Polygon, PolygonTileIter};
use charon::tiles::TileIndex;

/// Tile of a point given by its latitude and longitude.
fn tile((lat, lon): (f64, f64), zoom: u8) -> TileIndex {
    let tile_count = (1 << zoom) as f64;
    let x = tile_count * (lon + 180.) / 360.;
    let lat_rad = lat.to_radians();
    let y = tile_count * (1. - (lat_rad.tan() + (1. / lat_rad.cos())).ln() / PI) / 2.;
    TileIndex::new(x.floor() as u32, y.floor() as u32, zoom)
}

/// Tiles inside of a polygon.
fn tiles_of(zoom: u8, polygon: &[(f64, f64)]) -> PolygonTileIter {
    let tiles: Vec<TileIndex> = polygon.iter().map(|point| tile(*point, zoom)).collect();
    PolygonTileIter::new(zoom, &tiles)
}

/// Collect all tiles as X and Y coordinates.
fn collect(mut iter: PolygonTileIter) -> Vec<(u32, u32)> {
    let mut tiles = Vec::new();
    while let Some(tile) = iter.next() {
        tiles.push((tile.x, tile.y));
    }
    tiles
}

#[test]
fn polygon_to_tiles_square_poly_single_tile() {
    let polygon = [
        (50.9433676, 6.9443464),
        (50.9433135, 6.9528866),
        (50.9386353, 6.9529724),
        (50.938446, 6.9445181),
        // Close the loop.
        (50.9433676, 6.9443464),
    ];

    let mut iter = tiles_of(15, &polygon);

    let index = TileIndex::new(17016, 10978, 15);
    assert_eq!(iter.next(), Some(index));
    assert_eq!(iter.next(), None);
}

#[test]
fn polygon_to_tiles_square_poly_multi_tile() {
    let polygon = [
        (51.2172606, 6.7505407),
        (51.2169918, 6.7622137),
        (51.2102441, 6.7502832),
        (51.2102172, 6.7617846),
        // Close the loop.
        (51.2172606, 6.7505407),
    ];

    let mut iter = tiles_of(15, &polygon);

    let index = TileIndex::new(16998, 10938, 15);
    assert_eq!(iter.next(), Some(index));
    let index = TileIndex::new(16999, 10938, 15);
    assert_eq!(iter.next(), Some(index));
    let index = TileIndex::new(16998, 10939, 15);
    assert_eq!(iter.next(), Some(index));
    let index = TileIndex::new(16999, 10939, 15);
    assert_eq!(iter.next(), Some(index));
    assert_eq!(iter.next(), None);
}

#[test]
fn polygon_to_tiles_diamond_poly() {
    let polygon = [
        (51.2058348, 6.7619562),
        (51.2101904, 6.7540169),
        (51.2147068, 6.7619133),
        (51.2104592, 6.7686939),
        // Close the loop.
        (51.2058348, 6.7619562),
    ];

    let mut iter = tiles_of(15, &polygon);

    let index = TileIndex::new(16998, 10938, 15);
    assert_eq!(iter.next(), Some(index));
    let index = TileIndex::new(16999, 10938, 15);
    assert_eq!(iter.next(), Some(index));
    let index = TileIndex::new(17000, 10938, 15);
    assert_eq!(iter.next(), Some(index));

    let index = TileIndex::new(16998, 10939, 15);
    assert_eq!(iter.next(), Some(index));
    let index = TileIndex::new(16999, 10939, 15);
    assert_eq!(iter.next(), Some(index));
    let index = TileIndex::new(17000, 10939, 15);
    assert_eq!(iter.next(), Some(index));

    let index = TileIndex::new(16998, 10940, 15);
    assert_eq!(iter.next(), Some(index));
    let index = TileIndex::new(16999, 10940, 15);
    assert_eq!(iter.next(), Some(index));
    let index = TileIndex::new(17000, 10940, 15);
    assert_eq!(iter.next(), Some(index));

    assert_eq!(iter.next(), None);
}

#[test]
fn polygon_to_tiles_complex_poly() {
    let polygon = [
        (51.483521, -0.115056),
        (51.4707446, -0.1343679),
        (51.4627776, -0.1309347),
        (51.4646491, -0.0838566),
        (51.4685257, -0.0928688),
        (51.4818907, -0.0924826),
        (51.4861399, -0.0809813),
        // Close the loop.
        (51.483521, -0.115056),
    ];

    let mut iter = tiles_of(15, &polygon);

    let index = TileIndex::new(16372, 10899, 15);
    assert_eq!(iter.next(), Some(index));
    let index = TileIndex::new(16373, 10899, 15);
    assert_eq!(iter.next(), Some(index));
    let index = TileIndex::new(16374, 10899, 15);
    assert_eq!(iter.next(), Some(index));
    let index = TileIndex::new(16375, 10899, 15);
    assert_eq!(iter.next(), Some(index));
    let index = TileIndex::new(16376, 10899, 15);
    assert_eq!(iter.next(), Some(index));

    let index = TileIndex::new(16371, 10900, 15);
    assert_eq!(iter.next(), Some(index));
    let index = TileIndex::new(16372, 10900, 15);
    assert_eq!(iter.next(), Some(index));
    let index = TileIndex::new(16373, 10900, 15);
    assert_eq!(iter.next(), Some(index));
    let index = TileIndex::new(16374, 10900, 15);
    assert_eq!(iter.next(), Some(index));
    let index = TileIndex::new(16375, 10900, 15);
    assert_eq!(iter.next(), Some(index));

    let index = TileIndex::new(16371, 10901, 15);
    assert_eq!(iter.next(), Some(index));
    let index = TileIndex::new(16372, 10901, 15);
    assert_eq!(iter.next(), Some(index));
    let index = TileIndex::new(16373, 10901, 15);
    assert_eq!(iter.next(), Some(index));
    let index = TileIndex::new(16374, 10901, 15);
    assert_eq!(iter.next(), Some(index));
    let index = TileIndex::new(16375, 10901, 15);
    assert_eq!(iter.next(), Some(index));

    let index = TileIndex::new(16371, 10902, 15);
    assert_eq!(iter.next(), Some(index));
    let index = TileIndex::new(16372, 10902, 15);
    assert_eq!(iter.next(), Some(index));
    let index = TileIndex::new(16373, 10902, 15);
    assert_eq!(iter.next(), Some(index));
    let index = TileIndex::new(16374, 10902, 15);
    assert_eq!(iter.next(), Some(index));
    let index = TileIndex::new(16375, 10902, 15);
    assert_eq!(iter.next(), Some(index));
    let index = TileIndex::new(16376, 10902, 15);
    assert_eq!(iter.next(), Some(index));

    assert_eq!(iter.next(), None);
}

#[test]
fn polygon_lines_are_covered() {
    // The right side starts in the row of the top.
    let polygon = [(75., -135.), (75., 135.), (-75., 135.), (75., -135.)];
    let tiles = collect(tiles_of(2, &polygon));
    let mut rows = vec![(0, 0), (1, 0), (2, 0), (3, 0)];
    rows.extend([(0, 1), (1, 1), (2, 1), (3, 1)]);
    rows.extend([(1, 2), (2, 2), (3, 2)]);
    rows.extend([(2, 3), (3, 3)]);
    assert_eq!(tiles, rows);

    // Straight lines only include the tiles around their center.
    let tiles = [(0, 0), (4, 0), (6, 4)].map(|(x, y)| TileIndex::new(x, y, 4)).to_vec();
    let mut rows: Vec<(u32, u32)> = (0..=4).map(|x| (x, 0)).collect();
    rows.extend([(4, 1), (5, 1), (5, 2), (5, 3), (6, 3), (6, 4)]);
    assert_eq!(collect(PolygonTileIter::new(4, &tiles)), rows);

    // All other lines include tiles next to their center.
    let tiles = [(4, 0), (6, 4)].map(|(x, y)| TileIndex::new(x, y, 4)).to_vec();
    let rows = vec![(4, 0), (5, 0), (4, 1), (5, 1), (4, 2), (5, 2), (6, 2), (5, 3), (6, 3), (5, 4), (6, 4)];
    assert_eq!(collect(PolygonTileIter::new(4, &tiles)), rows);
}

#[test]
fn deserialize_poly() {
    let poly = r#"none
        1
           6.394689E+00   5.032397E+01
           6.402186E+00   5.032711E+01
           6.399327E+00   5.033692E+01
        END
        END"#;

    let polygon = Polygon::parse(poly);
    assert_eq!(polygon.invalid, None);

    let points: Vec<(f64, f64)> = polygon
        .points
        .iter()
        .map(|(lon, lat)| (lat.parse().unwrap(), lon.parse().unwrap()))
        .collect();
    assert_eq!(points, vec![(50.32397, 6.394689), (50.32711, 6.402186), (50.33692, 6.399327)]);
}

#[test]
fn invalid_polygon() {
    let polygon = Polygon::parse("none\n1\n 1.0   2.0\r\n3.0 4.0\nEND");
    assert_eq!(polygon.points, vec![("1.0".to_owned(), "2.0".to_owned())]);
    assert_eq!(polygon.invalid, Some("3.0 4.0".to_owned()));
}

#[test]
fn empty_polygon() {
    let mut iter = PolygonTileIter::new(3, &vec![]);
    assert_eq!(iter.next(), None);
}

#[test]
fn downloaded_zoom_levels() {
    let zooms = offline_zooms();
    assert!(!zooms.contains(&15));
    assert_eq!(zooms.first(), Some(&0));
    assert_eq!(zooms.last(), Some(&16));
    assert_eq!(zooms.len(), 16);
    assert_eq!(tile_filename(TileIndex::new(1, 23, 4)), "4_1_23.png");
}
