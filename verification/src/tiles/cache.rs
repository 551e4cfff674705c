//! Tile caching.

use vstd::prelude::*;

use crate::text::{
    decimal, law_first_pattern_is_replaced, law_replacing_nothing, occurs_at, replace, replaced,
    str_eq, to_decimal,
};
use crate::tiles::TileIndex;

verus! {

/// How frequently old tiles are deleted from the database.
///
/// The total number of tiles in the database will always be between
/// the maximum number of tiles and that number plus
/// `FS_CACHE_CLEANUP_INTERVAL`.
///
/// A higher cleanup interval means less frequent database queries to remove old
/// entries.
pub const FS_CACHE_CLEANUP_INTERVAL: u16 = 1_000;

/// Maximum db tile age in seconds before an online refresh is attempted.
pub const MAX_FS_CACHE_TIME: u64 = 604_800;

/// Seconds before a failed download will be re-attempted.
pub const FAILED_DOWNLOAD_DELAY: u64 = 3;

/// Position of a tile in a list, or `-1`.
pub open spec fn tile_position<T>(entries: Seq<(TileIndex, T)>, index: TileIndex) -> int
    decreases entries.len(),
{
    if entries.len() == 0 {
        -1
    } else if entries.last().0 == index {
        entries.len() - 1
    } else {
        tile_position(entries.drop_last(), index)
    }
}

/// No tile is cached twice.
pub open spec fn distinct<T>(entries: Seq<(TileIndex, T)>) -> bool {
    forall|i: int, j: int|
        0 <= i < j < entries.len() ==> (#[trigger] entries[i]).0 != (#[trigger] entries[j]).0
}

/// Cache after adding a tile.
///
/// The added tile becomes the most recently used one. If it is cached already
/// the cached tile is kept, otherwise the least recently used tiles make space
/// for it.
pub open spec fn cached<T>(
    entries: Seq<(TileIndex, T)>,
    capacity: int,
    index: TileIndex,
    tile: T,
) -> Seq<(TileIndex, T)> {
    let position = tile_position(entries, index);
    if position >= 0 {
        seq![entries[position]] + entries.remove(position)
    } else if entries.len() >= capacity {
        seq![(index, tile)] + entries.take(capacity - 1)
    } else {
        seq![(index, tile)] + entries
    }
}

/// An LRU cache for tiles.
///
/// Tiles are used by adding them, loading a cached tile does not count.
pub struct LruCache<T> {
    /// Cached tiles, starting with the most recently used.
    tiles: Vec<(TileIndex, T)>,
    capacity: usize,
}

/// Contents of an LRU cache.
pub struct LruCacheView<T> {
    /// Cached tiles, starting with the most recently used.
    pub tiles: Seq<(TileIndex, T)>,
    /// Maximum number of cached tiles.
    pub capacity: usize,
}

impl<T> View for LruCache<T> {
    type V = LruCacheView<T>;

    closed spec fn view(&self) -> LruCacheView<T> {
        LruCacheView { tiles: self.tiles@, capacity: self.capacity }
    }
}

impl<T> LruCache<T> {
    pub fn new(capacity: usize) -> (cache: Self)
        ensures
            cache@ == (LruCacheView::<T> { tiles: Seq::empty(), capacity }),
            distinct(cache@.tiles),
    {
        LruCache { tiles: Vec::new(), capacity }
    }

    /// Find the position of a tile.
    fn position(&self, index: TileIndex) -> (position: Option<usize>)
        ensures
            match position {
                Some(position) => {
                    &&& position == tile_position(self@.tiles, index)
                    &&& position < self@.tiles.len()
                    &&& self@.tiles[position as int].0 == index
                },
                None => tile_position(self@.tiles, index) == -1,
            },
    {
        let mut n: usize = self.tiles.len();
        proof {
            assert(self@.tiles.take(n as int) =~= self@.tiles);
        }
        while n > 0
            invariant
                n <= self@.tiles.len(),
                tile_position(self@.tiles.take(n as int), index) == tile_position(self@.tiles, index),
            decreases n,
        {
            proof {
                assert(self@.tiles.take(n as int).drop_last() =~= self@.tiles.take(n - 1));
            }
            if self.tiles[n - 1].0 == index {
                return Some(n - 1);
            }
            n -= 1;
        }
        None
    }

    /// Add a new tile to the cache.
    pub fn insert(&mut self, index: TileIndex, tile: T)
        requires
            distinct(old(self)@.tiles),
            tile_position(old(self)@.tiles, index) < 0 ==> old(self)@.capacity > 0,
        ensures
            final(self)@ == (LruCacheView {
                tiles: cached(old(self)@.tiles, old(self)@.capacity as int, index, tile),
                ..old(self)@
            }),
            distinct(final(self)@.tiles),
    {
        let ghost before = self@.tiles;
        proof {
            lemma_tile_position(before, index);
        }
        match self.position(index) {
            Some(position) => {
                // Mark the cached tile as the most recently used.
                let entry = self.tiles.remove(position);
                self.tiles.insert(0, entry);
                proof {
                    assert(self@.tiles =~= cached(before, self.capacity as int, index, tile));
                    lemma_moved_distinct(before, position as int);
                }
            },
            None => {
                // Remove oldest entries if cache is full.
                if self.tiles.len() >= self.capacity {
                    self.tiles.truncate(self.capacity - 1);
                }

                // Add tile to the cache.
                self.tiles.insert(0, (index, tile));
                proof {
                    assert(self@.tiles =~= cached(before, self.capacity as int, index, tile));
                    assert forall|i: int, j: int| 0 <= i < j < self@.tiles.len() implies (
                    #[trigger] self@.tiles[i]).0 != (#[trigger] self@.tiles[j]).0 by {
                        assert(self@.tiles[j] == before[j - 1]);
                        if i > 0 {
                            assert(self@.tiles[i] == before[i - 1]);
                        }
                    }
                }
            },
        }
    }

    /// Check if a tile exists in the cache.
    pub fn has_tile(&self, index: TileIndex) -> (exists_already: bool)
        ensures
            exists_already == (tile_position(self@.tiles, index) >= 0),
    {
        self.position(index).is_some()
    }

    /// Load a tile from the cache.
    pub fn get(&mut self, index: TileIndex) -> (tile: Option<&mut T>)
        ensures
            ({
                let position = tile_position(old(self)@.tiles, index);
                match tile {
                    Some(tile) => {
                        &&& position >= 0
                        &&& *tile == old(self)@.tiles[position].1
                        &&& final(self)@ == (LruCacheView {
                            tiles: old(self)@.tiles.update(position, (index, *final(tile))),
                            ..old(self)@
                        })
                    },
                    None => position < 0 && final(self)@ == old(self)@,
                }
            }),
            distinct(old(self)@.tiles) ==> distinct(final(self)@.tiles),
    {
        match self.position(index) {
            Some(position) => {
                let entry = &mut self.tiles[position];
                Some(&mut entry.1)
            },
            None => None,
        }
    }

    /// Update the maximum number of cached tiles.
    pub fn set_capacity(&mut self, capacity: usize)
        ensures
            final(self)@ == (LruCacheView { capacity, ..old(self)@ }),
    {
        self.capacity = capacity;
    }

    /// Clear all cached tiles.
    pub fn clear(&mut self)
        ensures
            final(self)@ == (LruCacheView { tiles: Seq::empty(), ..old(self)@ }),
    {
        self.tiles.clear();
    }
}

/// Tiles are found at the position where they are.
proof fn lemma_tile_position<T>(entries: Seq<(TileIndex, T)>, index: TileIndex)
    ensures
        -1 <= tile_position(entries, index) < entries.len(),
        tile_position(entries, index) >= 0 ==> entries[tile_position(entries, index)].0 == index,
        tile_position(entries, index) == -1 ==> forall|i: int|
            0 <= i < entries.len() ==> (#[trigger] entries[i]).0 != index,
    decreases entries.len(),
{
    if entries.len() > 0 && entries.last().0 != index {
        let rest = entries.drop_last();
        lemma_tile_position(rest, index);
        if tile_position(entries, index) == -1 {
            assert forall|i: int| 0 <= i < entries.len() implies (#[trigger] entries[i]).0
                != index by {
                if i < rest.len() {
                    assert(rest[i] == entries[i]);
                }
            }
        }
    }
}

/// Moving a tile to the front does not duplicate it.
proof fn lemma_moved_distinct<T>(entries: Seq<(TileIndex, T)>, position: int)
    requires
        distinct(entries),
        0 <= position < entries.len(),
    ensures
        distinct(seq![entries[position]] + entries.remove(position)),
{
    let moved = seq![entries[position]] + entries.remove(position);
    let origin = |i: int|
        if i == 0 {
            position
        } else if i <= position {
            i - 1
        } else {
            i
        };
    assert forall|i: int, j: int| 0 <= i < j < moved.len() implies (#[trigger] moved[i]).0 != (
    #[trigger] moved[j]).0 by {
        assert(moved[i] == entries[origin(i)]);
        assert(moved[j] == entries[origin(j)]);
        if origin(i) < origin(j) {
            assert(entries[origin(i)].0 != entries[origin(j)].0);
        } else {
            assert(entries[origin(j)].0 != entries[origin(i)].0);
        }
    }
}

/// The cache never holds more tiles than its capacity after adding a tile which
/// was not cached, and the added tile is always the most recently used.
pub proof fn law_cache_is_bounded<T>(
    entries: Seq<(TileIndex, T)>,
    capacity: int,
    index: TileIndex,
    tile: T,
)
    requires
        capacity > 0,
    ensures
        tile_position(entries, index) < 0 ==> cached(entries, capacity, index, tile).len()
            <= capacity,
        entries.len() <= capacity ==> cached(entries, capacity, index, tile).len() <= capacity,
        cached(entries, capacity, index, tile)[0].0 == index,
{
    lemma_tile_position(entries, index);
}

/// Tiles are only evicted once all tiles which were used less recently are gone:
/// everything in front of a tile which stays in the cache stays as well.
pub proof fn law_least_recently_used_is_evicted<T>(
    entries: Seq<(TileIndex, T)>,
    capacity: int,
    index: TileIndex,
    tile: T,
    i: int,
    j: int,
)
    requires
        capacity > 0,
        0 <= i < j < entries.len(),
        cached(entries, capacity, index, tile).contains(entries[j]),
        distinct(entries),
        tile_position(entries, index) < 0,
    ensures
        cached(entries, capacity, index, tile).contains(entries[i]),
{
    lemma_tile_position(entries, index);
    let after = cached(entries, capacity, index, tile);
    let k = choose|k: int| 0 <= k < after.len() && after[k] == entries[j];
    assert(k > 0);
    assert(after[k] == entries[k - 1]);
    if k - 1 < j {
        assert(entries[k - 1].0 != entries[j].0);
    } else if k - 1 > j {
        assert(entries[j].0 != entries[k - 1].0);
    }
    assert(after[i + 1] == entries[i]);
}

/// URL of a tile on a tile server.
pub open spec fn tile_url_of(server: Seq<char>, tile: TileIndex) -> Seq<char> {
    let x = replaced(server, "{x}"@, decimal(tile.x as int), 0);
    let y = replaced(x, "{y}"@, decimal(tile.y as int), 0);
    replaced(y, "{z}"@, decimal(tile.z as int), 0)
}

/// Get the URL of a tile.
pub fn tile_url(server: &str, tile: TileIndex) -> (url: String)
    ensures
        url@ == tile_url_of(server@, tile),
{
    proof {
        reveal_strlit("{x}");
        reveal_strlit("{y}");
        reveal_strlit("{z}");
    }
    let number = to_decimal(tile.x as u64);
    let url = replace(server, "{x}", number.as_str());
    let number = to_decimal(tile.y as u64);
    let url = replace(url.as_str(), "{y}", number.as_str());
    let number = to_decimal(tile.z as u64);
    replace(url.as_str(), "{z}", number.as_str())
}

/// Map tile cache.
///
/// This manages the local cache for all rendered tiles.
pub struct Tiles<T> {
    server: String,
    lru_cache: LruCache<T>,
    fs_capacity: u32,
}

/// Contents of a tile cache.
pub struct TilesView<T> {
    pub server: Seq<char>,
    pub tiles: Seq<(TileIndex, T)>,
    pub mem_capacity: usize,
    pub fs_capacity: u32,
}

impl<T> View for Tiles<T> {
    type V = TilesView<T>;

    closed spec fn view(&self) -> TilesView<T> {
        TilesView {
            server: self.server@,
            tiles: self.lru_cache@.tiles,
            mem_capacity: self.lru_cache@.capacity,
            fs_capacity: self.fs_capacity,
        }
    }
}

impl<T> Tiles<T> {
    pub fn new(server: String, max_mem_tiles: usize, max_fs_tiles: u32) -> (tiles: Self)
        ensures
            tiles@ == (TilesView::<T> {
                server: server@,
                tiles: Seq::empty(),
                mem_capacity: max_mem_tiles,
                fs_capacity: max_fs_tiles,
            }),
            distinct(tiles@.tiles),
    {
        Tiles { server, lru_cache: LruCache::new(max_mem_tiles), fs_capacity: max_fs_tiles }
    }

    /// Check whether a tile needs to be loaded.
    pub fn is_missing(&self, index: TileIndex) -> (missing: bool)
        ensures
            missing == (tile_position(self@.tiles, index) < 0),
    {
        !self.lru_cache.has_tile(index)
    }

    /// Add a tile to the cache, unless it is already cached.
    pub fn preload(&mut self, index: TileIndex, tile: T)
        requires
            distinct(old(self)@.tiles),
            tile_position(old(self)@.tiles, index) < 0 ==> old(self)@.mem_capacity > 0,
        ensures
            final(self)@ == (if tile_position(old(self)@.tiles, index) >= 0 {
                old(self)@
            } else {
                TilesView {
                    tiles: cached(
                        old(self)@.tiles,
                        old(self)@.mem_capacity as int,
                        index,
                        tile,
                    ),
                    ..old(self)@
                }
            }),
            distinct(final(self)@.tiles),
    {
        // Ignore tile if it is already cached.
        if self.lru_cache.has_tile(index) {
            return ;
        }

        self.lru_cache.insert(index, tile);
    }

    /// Get a raster tile from the cache, without loading it if missing.
    pub fn try_get(&mut self, index: TileIndex) -> (tile: Option<&mut T>)
        ensures
            ({
                let position = tile_position(old(self)@.tiles, index);
                match tile {
                    Some(tile) => {
                        &&& position >= 0
                        &&& *tile == old(self)@.tiles[position].1
                        &&& final(self)@ == (TilesView {
                            tiles: old(self)@.tiles.update(position, (index, *final(tile))),
                            ..old(self)@
                        })
                    },
                    None => position < 0 && final(self)@ == old(self)@,
                }
            }),
            distinct(old(self)@.tiles) ==> distinct(final(self)@.tiles),
    {
        self.lru_cache.get(index)
    }

    /// Get a raster map tile, adding it to the cache if it is missing.
    pub fn get(&mut self, index: TileIndex, tile: T) -> (cached_tile: &mut T)
        requires
            distinct(old(self)@.tiles),
            tile_position(old(self)@.tiles, index) < 0 ==> old(self)@.mem_capacity > 0,
        ensures
            ({
                let position = tile_position(old(self)@.tiles, index);
                let loaded = if position >= 0 {
                    old(self)@.tiles
                } else {
                    cached(old(self)@.tiles, old(self)@.mem_capacity as int, index, tile)
                };
                &&& *cached_tile == (if position >= 0 {
                    old(self)@.tiles[position].1
                } else {
                    tile
                })
                &&& final(self)@ == (TilesView {
                    tiles: loaded.update(
                        tile_position(loaded, index),
                        (index, *final(cached_tile)),
                    ),
                    ..old(self)@
                })
            }),
            distinct(final(self)@.tiles),
    {
        proof {
            lemma_tile_position(self@.tiles, index);
        }
        let ghost before = self@;
        self.preload(index, tile);
        let ghost after = self@;
        proof {
            lemma_tile_position(after.tiles, index);
            if tile_position(before.tiles, index) < 0 {
                assert(after.tiles[0] == (index, tile));
                let position = tile_position(after.tiles, index);
                if position > 0 {
                    assert(after.tiles[0].0 != after.tiles[position].0);
                }
            }
        }
        self.lru_cache.get(index).unwrap()
    }

    /// Get the URL of the tile server.
    pub fn server(&self) -> (server: &str)
        ensures
            server@ == self@.server,
    {
        self.server.as_str()
    }

    /// Get the maximum number of tiles in the database.
    pub fn fs_capacity(&self) -> (capacity: u32)
        ensures
            capacity == self@.fs_capacity,
    {
        self.fs_capacity
    }

    /// Handle config updates.
    ///
    /// Returns whether the map needs to be redrawn, since all cached tiles are
    /// removed when the tile server changes.
    pub fn update_config(&mut self, server: &str, max_mem_tiles: usize, max_fs_tiles: u32) -> (dirty:
        bool)
        ensures
            dirty == (old(self)@.server != server@),
            final(self)@ == (TilesView {
                server: server@,
                tiles: if dirty {
                    Seq::empty()
                } else {
                    old(self)@.tiles
                },
                mem_capacity: max_mem_tiles,
                fs_capacity: max_fs_tiles,
            }),
    {
        let mut dirty = false;
        if !str_eq(self.server.as_str(), server) {
            self.server = server.to_owned();
            self.lru_cache.clear();
            dirty = true;
        }
        self.lru_cache.set_capacity(max_mem_tiles);
        self.fs_capacity = max_fs_tiles;
        dirty
    }
}

/// How a tile is loaded after its lookup in the database.
#[derive(Copy, Clone, Debug, PartialEq, Eq, Structural)]
pub enum LoadAction {
    /// Use the tile from the database, refreshing it in the background if it is
    /// outdated.
    UseCached { refresh: bool },
    /// Download the tile.
    Download,
}

/// Determine how a tile with the specified age in the database is loaded.
pub fn load_action(age_secs: Option<u64>) -> (action: LoadAction)
    ensures
        action == (match age_secs {
            Some(age) => LoadAction::UseCached { refresh: age > MAX_FS_CACHE_TIME },
            None => LoadAction::Download,
        }),
{
    match age_secs {
        Some(age) => LoadAction::UseCached { refresh: age > MAX_FS_CACHE_TIME },
        None => LoadAction::Download,
    }
}

/// Result of a background task loading a tile.
#[derive(Debug)]
pub enum LoadResult<T> {
    /// The tile was loaded.
    Loaded(T),
    /// The download has failed.
    Failed,
    /// The task was terminated.
    Terminated,
}

/// Asynchronous image download state.
#[derive(Debug)]
pub enum PendingImage<T> {
    /// A background task is loading the image.
    Loading,
    /// The background task was terminated.
    Lost,
    /// The image is available.
    Done(T),
}

/// A map tile.
#[derive(Debug)]
pub struct Tile<T> {
    pub index: TileIndex,
    pub pending: PendingImage<T>,
}

impl<T> Tile<T> {
    /// Create a tile which is loading in the background.
    pub fn new(index: TileIndex) -> (tile: Self)
        ensures
            tile == (Tile { index, pending: PendingImage::<T>::Loading }),
    {
        Tile { index, pending: PendingImage::Loading }
    }

    /// Process a finished background task.
    ///
    /// Returns whether the download should be retried after a delay.
    pub fn finish(&mut self, result: LoadResult<T>) -> (retry: bool)
        ensures
            retry == (old(self).pending is Loading && result is Failed),
            final(self).index == old(self).index,
            final(self).pending == (if old(self).pending is Loading {
                match result {
                    LoadResult::Loaded(image) => PendingImage::Done(image),
                    LoadResult::Failed => PendingImage::Loading,
                    LoadResult::Terminated => PendingImage::Lost,
                }
            } else {
                old(self).pending
            }),
    {
        match self.pending {
            PendingImage::Loading => match result {
                LoadResult::Loaded(image) => {
                    self.pending = PendingImage::Done(image);
                    false
                },
                LoadResult::Failed => true,
                LoadResult::Terminated => {
                    self.pending = PendingImage::Lost;
                    false
                },
            },
            _ => false,
        }
    }

    /// Get the tile's image.
    pub fn image(&self) -> (image: Option<&T>)
        ensures
            match image {
                Some(image) => self.pending == PendingImage::Done(*image),
                None => !(self.pending is Done),
            },
    {
        match &self.pending {
            PendingImage::Done(image) => Some(image),
            _ => None,
        }
    }
}

/// Counter for the tiles added to the database since its last cleanup.
#[derive(Copy, Clone, Debug, PartialEq, Eq, Structural)]
pub struct CleanupCounter {
    pub inserted: u16,
}

impl CleanupCounter {
    pub fn new() -> (counter: Self)
        ensures
            counter.inserted == 0,
    {
        CleanupCounter { inserted: 0 }
    }

    /// Count a tile added to the database.
    ///
    /// Returns whether old tiles must be removed from the database.
    pub fn insert(&mut self) -> (cleanup: bool)
        requires
            old(self).inserted <= FS_CACHE_CLEANUP_INTERVAL,
        ensures
            cleanup == (old(self).inserted >= FS_CACHE_CLEANUP_INTERVAL),
            final(self).inserted == (if cleanup {
                0
            } else {
                old(self).inserted + 1
            }),
            final(self).inserted <= FS_CACHE_CLEANUP_INTERVAL,
    {
        if self.inserted >= FS_CACHE_CLEANUP_INTERVAL {
            self.inserted = 0;
            true
        } else {
            self.inserted += 1;
            false
        }
    }
}

/// Number of tiles in the database after an insertion.
///
/// Insertions add at most one tile, and a cleanup removes all tiles beyond the
/// capacity.
pub open spec fn stored_tiles(tiles: int, added: bool, capacity: int, cleanup: bool) -> int {
    let total = if added {
        tiles + 1
    } else {
        tiles
    };
    if cleanup && total > capacity {
        capacity
    } else {
        total
    }
}

/// The number of tiles in the database never exceeds its capacity by more than
/// the cleanup interval.
pub proof fn law_database_is_bounded(
    tiles: int,
    added: bool,
    capacity: int,
    before: CleanupCounter,
    after: CleanupCounter,
    cleanup: bool,
)
    requires
        before.inserted <= FS_CACHE_CLEANUP_INTERVAL,
        tiles <= capacity + before.inserted,
        cleanup == (before.inserted >= FS_CACHE_CLEANUP_INTERVAL),
        after.inserted == (if cleanup {
            0
        } else {
            before.inserted + 1
        }),
    ensures
        stored_tiles(tiles, added, capacity, cleanup) <= capacity + after.inserted,
        stored_tiles(tiles, added, capacity, cleanup) <= capacity + FS_CACHE_CLEANUP_INTERVAL,
{
}

/// Tiles are found exactly if they are cached.
pub proof fn law_cached_tiles_are_found<T>(entries: Seq<(TileIndex, T)>, index: TileIndex)
    ensures
        tile_position(entries, index) >= 0 <==> exists|i: int|
            0 <= i < entries.len() && (#[trigger] entries[i]).0 == index,
        tile_position(entries, index) >= 0 ==> entries[tile_position(entries, index)].0 == index,
{
    lemma_tile_position(entries, index);
}

/// Adding a tile keeps the image which is cached for it already, and all other
/// tiles as long as there is space for them.
pub proof fn law_cached_images_are_kept<T>(
    entries: Seq<(TileIndex, T)>,
    capacity: int,
    index: TileIndex,
    tile: T,
    i: int,
)
    requires
        distinct(entries),
        0 <= i < entries.len(),
        tile_position(entries, index) >= 0 || entries.len() < capacity,
    ensures
        cached(entries, capacity, index, tile).contains(entries[i]),
        tile_position(entries, index) >= 0 ==> cached(entries, capacity, index, tile)[0]
            == entries[tile_position(entries, index)] && cached(
            entries,
            capacity,
            index,
            tile,
        ).len() == entries.len(),
        tile_position(entries, index) < 0 ==> cached(entries, capacity, index, tile)[0] == (
            index,
            tile,
        ) && cached(entries, capacity, index, tile).len() == entries.len() + 1,
{
    lemma_tile_position(entries, index);
    let position = tile_position(entries, index);
    let after = cached(entries, capacity, index, tile);
    if position < 0 {
        assert(after[i + 1] == entries[i]);
    } else if i == position {
        assert(after[0] == entries[i]);
    } else if i < position {
        assert(after[i + 1] == entries[i]);
    } else {
        assert(after[i] == entries[i]);
    }
}

/// The only occurrence of a placeholder is replaced by a number.
proof fn lemma_replace_placeholder(
    head: Seq<char>,
    pattern: Seq<char>,
    tail: Seq<char>,
    with: Seq<char>,
)
    requires
        pattern.len() == 3,
        pattern[0] == '{',
        forall|i: int|
            0 <= i < head.len() && #[trigger] head[i] == '{' ==> i + 1 < head.len() && head[i + 1]
                != pattern[1],
        pattern[1] != '{',
        pattern[2] != '{',
        forall|i: int|
            0 <= i < tail.len() && #[trigger] tail[i] == '{' ==> i + 1 < tail.len() && tail[i + 1]
                != pattern[1],
    ensures
        replaced(head + pattern + tail, pattern, with, 0) == head + with + tail,
{
    let s = head + pattern + tail;
    let position = head.len() as int;
    assert forall|i: int| 0 <= i < s.len() && i != position implies !#[trigger] occurs_at(
        s,
        pattern,
        i,
    ) by {
        if occurs_at(s, pattern, i) {
            assert(s.skip(i).take(3)[0] == pattern[0]);
            assert(s.skip(i).take(3)[1] == pattern[1]);
            assert(s[i] == '{' && s[i + 1] == pattern[1]);
            if i < position {
                assert(head[i] == '{');
                assert(head[i + 1] == s[i + 1]);
            } else if i >= position + 3 {
                assert(tail[i - position - 3] == '{');
                assert(tail[i - position - 3 + 1] == s[i + 1]);
            } else {
                assert(s[i] == pattern[i - position]);
            }
        }
    }
    assert(s.subrange(position, position + 3) =~= pattern);
    law_first_pattern_is_replaced(s, pattern, with, 0, position);
    law_replacing_nothing(s, pattern, with, position + 3);
    assert(s.subrange(0, position) =~= head);
    assert(s.skip(position + 3) =~= tail);
}

/// The URL of a tile is the server's address with all coordinates in their place,
/// in the usual order of zoom level, column, and row.
pub proof fn law_tile_url_has_coordinates(
    a: Seq<char>,
    b: Seq<char>,
    c: Seq<char>,
    d: Seq<char>,
    tile: TileIndex,
)
    requires
        !a.contains('{'),
        !b.contains('{'),
        !c.contains('{'),
        !d.contains('{'),
    ensures
        tile_url_of(a + "{z}"@ + b + "{x}"@ + c + "{y}"@ + d, tile) == a + decimal(tile.z as int)
            + b + decimal(tile.x as int) + c + decimal(tile.y as int) + d,
{
    reveal_strlit("{x}");
    reveal_strlit("{y}");
    reveal_strlit("{z}");
    let x = decimal(tile.x as int);
    let y = decimal(tile.y as int);
    let z = decimal(tile.z as int);
    lemma_no_brace(tile.x as int);
    lemma_no_brace(tile.y as int);
    lemma_no_brace(tile.z as int);
    let server = a + "{z}"@ + b + "{x}"@ + c + "{y}"@ + d;

    let head = a + "{z}"@ + b;
    let tail = c + "{y}"@ + d;
    lemma_single_brace(a, "{z}"@, b);
    lemma_single_brace(c, "{y}"@, d);
    lemma_replace_placeholder(head, "{x}"@, tail, x);
    assert(head + "{x}"@ + tail =~= server);
    let first = head + x + tail;

    let head = a + "{z}"@ + (b + x + c);
    lemma_concat_no_brace(b, x, c);
    lemma_single_brace(a, "{z}"@, b + x + c);
    lemma_replace_placeholder(head, "{y}"@, d, y);
    assert(head + "{y}"@ + d =~= first);
    let second = head + y + d;

    let tail = b + x + c + y + d;
    lemma_concat_no_brace(b + x + c, y, d);
    lemma_replace_placeholder(a, "{z}"@, tail, z);
    assert(a + "{z}"@ + tail =~= second);
    assert(a + z + tail =~= a + z + b + x + c + y + d);
}

proof fn lemma_no_brace(number: int)
    requires
        0 <= number,
    ensures
        !decimal(number).contains('{'),
    decreases number,
{
    if number >= 10 {
        lemma_no_brace(number / 10);
        let head = decimal(number / 10);
        let s = decimal(number);
        assert forall|i: int| 0 <= i < s.len() implies s[i] != '{' by {
            if i < head.len() {
                assert(s[i] == head[i]);
            }
        }
    }
}

proof fn lemma_concat_no_brace(a: Seq<char>, b: Seq<char>, c: Seq<char>)
    requires
        !a.contains('{'),
        !b.contains('{'),
        !c.contains('{'),
    ensures
        !(a + b + c).contains('{'),
{
    let s = a + b + c;
    assert forall|i: int| 0 <= i < s.len() implies s[i] != '{' by {
        if i < a.len() {
            assert(s[i] == a[i]);
        } else if i < a.len() + b.len() {
            assert(s[i] == b[i - a.len()]);
        } else {
            assert(s[i] == c[i - a.len() - b.len()]);
        }
    }
}

proof fn lemma_single_brace(a: Seq<char>, pattern: Seq<char>, b: Seq<char>)
    requires
        !a.contains('{'),
        !b.contains('{'),
        pattern.len() == 3,
        pattern[1] != '{',
        pattern[2] != '{',
    ensures
        ({
            let s = a + pattern + b;
            forall|i: int|
                0 <= i < s.len() && #[trigger] s[i] == '{' ==> i + 1 < s.len() && s[i + 1]
                    == pattern[1]
        }),
{
    let s = a + pattern + b;
    assert forall|i: int| 0 <= i < s.len() && #[trigger] s[i] == '{' implies i + 1 < s.len() && s[i
        + 1] == pattern[1] by {
        if i < a.len() {
            assert(s[i] == a[i]);
        } else if i >= a.len() + 3 {
            assert(s[i] == b[i - a.len() - 3]);
        } else {
            assert(s[i] == pattern[i - a.len()]);
        }
    }
}

} // verus!
