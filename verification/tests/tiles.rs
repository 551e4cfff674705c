use charon::geometry::{Point, Size};
use charon::tiles::cache::{
    load_action, tile_url, CleanupCounter, LoadAction, LoadResult, LruCache, Tile, Tiles,
    FS_CACHE_CLEANUP_INTERVAL, MAX_FS_CACHE_TIME,
};
use charon::tiles::iter::TileIter;
use charon::tiles::{TileIndex, TILE_SIZE};

#[test]
fn single_tile_iter() {
    let size = Size::new(TILE_SIZE as u32, TILE_SIZE as u32);
    let index = TileIndex::new(8504, 5473, 14);
    let offset = Point::new(128, 128);

    let mut iter = TileIter::new(size, index, offset, TILE_SIZE);

    let (iter_index, point) = iter.next().unwrap();
    assert_eq!(iter_index, index);
    assert_eq!(point, Point::new(0, 0));

    assert_eq!(iter.next(), None);
}

#[test]
fn partial_tiles_iter() {
    let size = Size::new(300, 300);
    let index = TileIndex::new(8504, 5473, 14);
    let offset = Point::new(128, 128);

    let mut iter = TileIter::new(size, index, offset, TILE_SIZE);

    for i in 0..9 {
        let tile_x = (8503 + i % 3) as u32;
        let tile_y = (5472 + i / 3) as u32;

        let x = -234 + i % 3 * TILE_SIZE;
        let y = -234 + i / 3 * TILE_SIZE;

        let (iter_index, point) = iter.next().unwrap();
        assert_eq!(iter_index, TileIndex::new(tile_x, tile_y, index.z));
        assert_eq!(point, Point::new(x, y));
    }
}

#[test]
fn map_border_iter() {
    let size = Size::new(300, 300);
    let index = TileIndex::new(0, 0, 0);
    let offset = Point::new(128, 128);

    let mut iter = TileIter::new(size, index, offset, TILE_SIZE);

    let (iter_index, point) = iter.next().unwrap();
    assert_eq!(iter_index, index);
    assert_eq!(point, Point::new(22, 22));

    assert_eq!(iter.next(), None);
}

#[test]
fn surrounding_tiles() {
    let size = Size::new(TILE_SIZE as u32, TILE_SIZE as u32);
    let index = TileIndex::new(1, 1, 14);
    let offset = Point::new(128, 128);

    let iter = TileIter::new(size, index, offset, TILE_SIZE);
    let mut border_tiles = iter.border_tiles().into_iter();

    // Top row.
    assert_eq!(border_tiles.next().unwrap(), TileIndex::new(0, 0, 14));
    assert_eq!(border_tiles.next().unwrap(), TileIndex::new(1, 0, 14));
    assert_eq!(border_tiles.next().unwrap(), TileIndex::new(2, 0, 14));

    // Bottom row.
    assert_eq!(border_tiles.next().unwrap(), TileIndex::new(0, 2, 14));
    assert_eq!(border_tiles.next().unwrap(), TileIndex::new(1, 2, 14));
    assert_eq!(border_tiles.next().unwrap(), TileIndex::new(2, 2, 14));

    // Left column.
    assert_eq!(border_tiles.next().unwrap(), TileIndex::new(0, 0, 14));
    assert_eq!(border_tiles.next().unwrap(), TileIndex::new(0, 1, 14));
    assert_eq!(border_tiles.next().unwrap(), TileIndex::new(0, 2, 14));

    // Right column.
    assert_eq!(border_tiles.next().unwrap(), TileIndex::new(2, 0, 14));
    assert_eq!(border_tiles.next().unwrap(), TileIndex::new(2, 1, 14));
    assert_eq!(border_tiles.next().unwrap(), TileIndex::new(2, 2, 14));
}

#[test]
fn tiles_cover_screen_once() {
    let size = Size::new(500, 700);
    let mut iter = TileIter::new(size, TileIndex::new(3, 4, 3), Point::new(20, 40), 300);
    let tile_size = iter.tile_size();
    let mut covered = 0;
    while let Some((tile, point)) = iter.next() {
        assert!(tile.x < 8 && tile.y < 8);
        let width = (point.x + tile_size).min(500) - point.x.max(0);
        let height = (point.y + tile_size).min(700) - point.y.max(0);
        covered += width.max(0) * height.max(0);
    }
    assert_eq!(covered, 500 * 700);
}

#[test]
fn border_stays_on_map() {
    let size = Size::new(256, 256);
    let iter = TileIter::new(size, TileIndex::new(0, 0, 0), Point::new(128, 128), 256);
    assert_eq!(iter.border_tiles(), vec![]);

    let iter = TileIter::new(size, TileIndex::new(0, 1, 1), Point::new(128, 128), 256);
    for tile in iter.border_tiles() {
        assert!(tile.x < 2 && tile.y < 2);
    }
}

#[test]
fn map_points() {
    let size = Size::new(256, 256);
    let index = TileIndex::new(5, 5, 4);
    let iter = TileIter::new(size, index, Point::new(128, 128), 256);
    assert_eq!(iter.tile_point(index, Point::new(10, 20)), Point::new(10, 20));
    assert_eq!(iter.screen_point(index, Point::new(10, 20)), Some(Point::new(10, 20)));
    let right = TileIndex::new(6, 5, 4);
    assert_eq!(iter.tile_point(right, Point::new(10, 20)), Point::new(266, 20));
    assert_eq!(iter.screen_point(right, Point::new(10, 20)), None);
}

#[test]
fn lru_eviction() {
    let a = TileIndex::new(0, 0, 1);
    let b = TileIndex::new(1, 0, 1);
    let c = TileIndex::new(0, 1, 1);
    let mut cache = LruCache::new(2);
    cache.insert(a, 'a');
    cache.insert(b, 'b');
    cache.insert(a, 'x');
    cache.insert(c, 'c');
    assert_eq!(cache.get(a), Some(&mut 'a'));
    assert_eq!(cache.get(b), None);
    assert!(cache.has_tile(c));
    cache.clear();
    assert!(!cache.has_tile(a));
}

#[test]
fn tile_cache() {
    let index = TileIndex::new(1, 2, 3);
    let mut tiles = Tiles::new("https://a/{z}/{x}/{y}.png".to_owned(), 2, 10);
    assert!(tiles.is_missing(index));
    assert_eq!(*tiles.get(index, 'a'), 'a');
    assert!(!tiles.is_missing(index));
    tiles.preload(index, 'b');
    *tiles.try_get(index).unwrap() = 'c';
    assert_eq!(*tiles.get(index, 'd'), 'c');
    assert!(!tiles.update_config("https://a/{z}/{x}/{y}.png", 5, 20));
    assert_eq!(tiles.fs_capacity(), 20);
    assert!(!tiles.is_missing(index));
    assert!(tiles.update_config("https://b/{z}/{x}/{y}.png", 5, 20));
    assert_eq!(tiles.server(), "https://b/{z}/{x}/{y}.png");
    assert!(tiles.is_missing(index));
}

#[test]
fn tile_urls() {
    let index = TileIndex::new(8504, 5473, 14);
    assert_eq!(tile_url("https://a/{z}/{x}/{y}.png", index), "https://a/14/8504/5473.png");
    assert_eq!(tile_url("{x}{x}/{w}", index), "85048504/{w}");
}

#[test]
fn tile_loading() {
    assert_eq!(load_action(None), LoadAction::Download);
    assert_eq!(load_action(Some(MAX_FS_CACHE_TIME)), LoadAction::UseCached { refresh: false });
    assert_eq!(load_action(Some(MAX_FS_CACHE_TIME + 1)), LoadAction::UseCached { refresh: true });
}

#[test]
fn tile_images() {
    let mut tile = Tile::new(TileIndex::new(0, 0, 0));
    assert_eq!(tile.image(), None);
    assert!(tile.finish(LoadResult::Failed));
    assert!(!tile.finish(LoadResult::Loaded(3)));
    assert_eq!(tile.image(), Some(&3));
    assert!(!tile.finish(LoadResult::Failed));
    assert_eq!(tile.image(), Some(&3));

    let mut tile: Tile<i32> = Tile::new(TileIndex::new(0, 0, 0));
    assert!(!tile.finish(LoadResult::Terminated));
    assert!(!tile.finish(LoadResult::Loaded(3)));
    assert_eq!(tile.image(), None);
}

#[test]
fn database_cleanup() {
    let mut counter = CleanupCounter::new();
    for _ in 0..FS_CACHE_CLEANUP_INTERVAL {
        assert!(!counter.insert());
    }
    assert!(counter.insert());
    assert!(!counter.insert());
}
