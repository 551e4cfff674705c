//! Geographic region stats.

use indexmap::IndexMap;
use vstd::prelude::*;

use crate::build::modrana;
use crate::region::children::{
    descending, entries, key_position, lemma_key_position, map_entry, map_len, map_or_insert,
    new_map, sort_descending,
};
use crate::text::{
    chars_of, find_first, find_next, first_occurrence, is_at, join, law_first_occurrence,
    law_next_position, next_position, opt_view, parse_u64, parsed_u64, slash, split, split_parts, starts_with, str_eq, string_of,
    views,
};

verus! {

/// URL of the catacomb tile archive server.
pub const TILE_URL_BASE: &'static str = "https://catacombing.org/tiles";

/// Reason for rejecting a region index.
#[derive(Copy, Clone, Debug, PartialEq, Eq, Structural)]
pub enum BuildError {
    /// A region has no numerical ID.
    MissingRegionId,
    /// A size is not a number.
    InvalidSize,
    /// A region has Valhalla data but no packages.
    MissingPackages,
    /// The combined size of a region cannot be represented.
    SizeOverflow,
}

/// Contents of a region.
pub struct RegionView {
    pub id: u32,
    pub name: Seq<char>,
    pub regions: Seq<(Seq<char>, usize)>,
    pub valhalla_packages: Seq<Seq<char>>,
    pub geocoder_path: Option<Seq<char>>,
    pub postal_path: Option<Seq<char>>,
    pub tiles_url: Option<Seq<char>>,
    pub storage_size: u64,
    pub tiles_size: u64,
    pub geocoder_size: u64,
    pub valhalla_size: u64,
    pub postal_size: u64,
}

/// Region without any data.
pub open spec fn empty_region(id: u32, name: Seq<char>) -> RegionView {
    RegionView {
        id,
        name,
        regions: Seq::empty(),
        valhalla_packages: Seq::empty(),
        geocoder_path: None,
        postal_path: None,
        tiles_url: None,
        storage_size: 0,
        tiles_size: 0,
        geocoder_size: 0,
        valhalla_size: 0,
        postal_size: 0,
    }
}

/// Data for a geographic region.
pub struct Region {
    pub id: u32,
    pub name: String,
    /// Indices of child regions by their key.
    pub regions: IndexMap<String, usize>,
    pub valhalla_packages: Vec<String>,
    pub geocoder_path: Option<String>,
    pub postal_path: Option<String>,
    pub tiles_url: Option<String>,
    /// Complete size of this region and all of its children.
    pub storage_size: u64,
    pub tiles_size: u64,
    pub geocoder_size: u64,
    pub valhalla_size: u64,
    pub postal_size: u64,
}

impl View for Region {
    type V = RegionView;

    open spec fn view(&self) -> RegionView {
        RegionView {
            id: self.id,
            name: self.name@,
            regions: entries(self.regions),
            valhalla_packages: views(self.valhalla_packages@),
            geocoder_path: opt_view(self.geocoder_path),
            postal_path: opt_view(self.postal_path),
            tiles_url: opt_view(self.tiles_url),
            storage_size: self.storage_size,
            tiles_size: self.tiles_size,
            geocoder_size: self.geocoder_size,
            valhalla_size: self.valhalla_size,
            postal_size: self.postal_size,
        }
    }
}

/// Create a region without any data.
fn new_region(id: u32, name: String) -> (region: Region)
    ensures
        region@ == empty_region(id, name@),
{
    let valhalla_packages: Vec<String> = Vec::new();
    proof {
        assert(views(valhalla_packages@) =~= Seq::<Seq<char>>::empty());
    }
    Region {
        id,
        name,
        regions: new_map(),
        valhalla_packages,
        geocoder_path: None,
        postal_path: None,
        tiles_url: None,
        storage_size: 0,
        tiles_size: 0,
        geocoder_size: 0,
        valhalla_size: 0,
        postal_size: 0,
    }
}

/// All children of a region come behind it.
pub open spec fn well_formed(nodes: Seq<RegionView>) -> bool {
    &&& nodes.len() > 0
    &&& forall|i: int, k: int|
        0 <= i < nodes.len() && 0 <= k < nodes[i].regions.len() ==> i < (
        #[trigger] nodes[i].regions[k]).1 < nodes.len()
}

/// Contents of a table with text keys.
pub open spec fn table<T>(list: Seq<(String, T)>) -> Seq<(Seq<char>, T)> {
    list.map_values(|entry: (String, T)| (entry.0@, entry.1))
}

/// Value of a key in a table, with later entries replacing earlier ones.
pub open spec fn lookup_in<T>(list: Seq<(Seq<char>, T)>, key: Seq<char>) -> Option<T>
    decreases list.len(),
{
    if list.len() == 0 {
        None
    } else if list.last().0 == key {
        Some(list.last().1)
    } else {
        lookup_in(list.drop_last(), key)
    }
}

/// Find the value of a key in a table.
fn lookup<T: Copy>(list: &Vec<(String, T)>, key: &str) -> (value: Option<T>)
    ensures
        value == lookup_in(table(list@), key@),
{
    let ghost entries = table(list@);
    let mut n: usize = list.len();
    proof {
        assert(entries.take(n as int) =~= entries);
    }
    while n > 0
        invariant
            n <= list.len(),
            entries == table(list@),
            lookup_in(entries.take(n as int), key@) == lookup_in(entries, key@),
        decreases n,
    {
        proof {
            assert(entries.take(n as int).drop_last() =~= entries.take(n - 1));
            assert(entries.take(n as int).last() == (list@[n - 1].0@, list@[n - 1].1));
        }
        if str_eq(list[n - 1].0.as_str(), key) {
            return Some(list[n - 1].1);
        }
        n -= 1;
    }
    None
}

/// Name of a region with segments matching those of its ID.
///
/// Russia is the only region which has a mismatch between name and ID segments,
/// so its `Europe/` is stripped.
pub open spec fn index_name(name: Seq<char>) -> Seq<char> {
    if starts_with(name, "Europe/Russian Federation"@) {
        name.skip(7)
    } else {
        name
    }
}

/// Name without anything in parentheses.
pub open spec fn short_name(name: Seq<char>) -> Seq<char> {
    name.take(next_position(name, '(', 0))
}

/// ID of a region, up to the first occurrence of one of its segments.
pub open spec fn absolute_id(id: Seq<char>, segment: Seq<char>) -> Option<Seq<char>> {
    match first_occurrence(id, segment, 0) {
        Some(position) => Some(id.take(position + segment.len())),
        None => None,
    }
}

/// Tree after making sure that a path of regions exists in it, and the region
/// at the end of the path.
pub open spec fn grown(
    nodes: Seq<RegionView>,
    index: int,
    id: Seq<char>,
    keys: Seq<Seq<char>>,
    names: Seq<Seq<char>>,
    k: int,
    region_ids: Seq<(Seq<char>, u32)>,
) -> Option<(Seq<RegionView>, int)>
    decreases keys.len() - k,
{
    if k < 0 || k >= keys.len() || k >= names.len() {
        Some((nodes, index))
    } else {
        let position = key_position(nodes[index].regions, keys[k]);
        if position >= 0 {
            let child = nodes[index].regions[position].1 as int;
            grown(nodes, child, id, keys, names, k + 1, region_ids)
        } else {
            match absolute_id(id, keys[k]) {
                Some(absolute) => match lookup_in(region_ids, absolute) {
                    Some(region_id) => {
                        let child = nodes.len() as usize;
                        let parent = RegionView {
                            regions: nodes[index].regions.push((keys[k], child)),
                            ..nodes[index]
                        };
                        let added = nodes.update(index, parent).push(
                            empty_region(region_id, short_name(names[k])),
                        );
                        grown(added, child as int, id, keys, names, k + 1, region_ids)
                    },
                    None => None,
                },
                None => None,
            }
        }
    }
}

/// Region with its data from the index.
pub open spec fn filled(
    region: RegionView,
    id: Seq<char>,
    data: modrana::Region,
    tile_sizes: Seq<(Seq<char>, u64)>,
) -> Result<RegionView, BuildError> {
    let sizes = (
        parsed_u64(data.geocoder_nlp.size@),
        parsed_u64(data.valhalla.size@),
        parsed_u64(data.postal_country.size@),
    );
    match sizes {
        (Some(geocoder_size), Some(valhalla_size), Some(postal_size)) => {
            let tile_size = lookup_in(tile_sizes, id);
            if tile_size is Some && region.tiles_size + tile_size->0 > u64::MAX {
                Err(BuildError::SizeOverflow)
            } else {
                Ok(
                    RegionView {
                        geocoder_path: Some(data.geocoder_nlp.path@),
                        geocoder_size,
                        valhalla_packages: views(data.valhalla.packages@),
                        valhalla_size,
                        postal_path: Some(data.postal_country.path@),
                        postal_size,
                        tiles_url: if tile_size is Some {
                            Some(slash(slash(TILE_URL_BASE@, id), "tiles.tar.gz"@))
                        } else {
                            region.tiles_url
                        },
                        tiles_size: if tile_size is Some {
                            (region.tiles_size + tile_size->0) as u64
                        } else {
                            region.tiles_size
                        },
                        ..region
                    },
                )
            }
        },
        _ => Err(BuildError::InvalidSize),
    }
}

/// Tree after adding a region of the index.
pub open spec fn placed(
    nodes: Seq<RegionView>,
    id: Seq<char>,
    data: modrana::Region,
    region_ids: Seq<(Seq<char>, u32)>,
    tile_sizes: Seq<(Seq<char>, u64)>,
) -> Result<Seq<RegionView>, BuildError> {
    let keys = split_parts(id, '/', 0);
    let names = split_parts(index_name(data.name@), '/', 0);
    match grown(nodes, 0, id, keys, names, 0, region_ids) {
        Some((nodes, index)) => match filled(nodes[index], id, data, tile_sizes) {
            Ok(region) => Ok(nodes.update(index, region)),
            Err(err) => Err(err),
        },
        None => Err(BuildError::MissingRegionId),
    }
}

/// Tree after adding the first `n` regions of the index.
pub open spec fn built(
    regions: Seq<(String, modrana::Region)>,
    n: int,
    region_ids: Seq<(Seq<char>, u32)>,
    tile_sizes: Seq<(Seq<char>, u64)>,
) -> Result<Seq<RegionView>, BuildError>
    decreases n,
{
    if n <= 0 {
        Ok(seq![empty_region(0, "World"@)])
    } else {
        match built(regions, n - 1, region_ids, tile_sizes) {
            Ok(nodes) => placed(
                nodes,
                regions[n - 1].0@,
                regions[n - 1].1,
                region_ids,
                tile_sizes,
            ),
            Err(err) => Err(err),
        }
    }
}

/// Tree of regions.
pub struct RegionTree {
    pub nodes: Vec<Region>,
}

impl View for RegionTree {
    type V = Seq<RegionView>;

    open spec fn view(&self) -> Seq<RegionView> {
        self.nodes@.map_values(|region: Region| region@)
    }
}

/// Shorten a region's name.
///
/// This attempts to shorten Polish region names in a reasonable way, since
/// they're exceptionally long and contain multiple formats.
fn shorten(name: &str) -> (short: String)
    ensures
        short@ == short_name(name@),
{
    let chars = chars_of(name);
    let end = find_next(&chars, '(', 0);
    let short = string_of(&chars, 0, end);
    proof {
        assert(short@ =~= short_name(name@));
    }
    short
}

/// Strip the part of a region's name which is not part of its ID.
fn strip_name(name: &str) -> (stripped: String)
    ensures
        stripped@ == index_name(name@),
{
    let chars = chars_of(name);
    let prefix = chars_of("Europe/Russian Federation");
    proof {
        reveal_strlit("Europe/Russian Federation");
        assert(chars@.skip(0) =~= chars@);
    }
    if is_at(&chars, &prefix, 0) {
        let stripped = string_of(&chars, 7, chars.len());
        proof {
            assert(stripped@ =~= name@.skip(7));
        }
        stripped
    } else {
        name.to_owned()
    }
}

/// Get a region's ID up to one of its segments.
fn find_absolute_id(id: &str, segment: &str) -> (absolute: Option<String>)
    ensures
        opt_view(absolute) == absolute_id(id@, segment@),
{
    let chars = chars_of(id);
    let part = chars_of(segment);
    match find_first(&chars, &part) {
        Some(position) => {
            let absolute = string_of(&chars, 0, position + part.len());
            proof {
                assert(absolute@ =~= id@.take(position + part.len()));
            }
            Some(absolute)
        },
        None => None,
    }
}

impl RegionTree {
    /// Make sure that a path of regions exists.
    ///
    /// Returns the region at the end of the path, or nothing if a region on the
    /// path has no numerical ID.
    fn grow(&mut self, id: &str, name: &str, region_ids: &Vec<(String, u32)>) -> (index: Option<usize>)
        requires
            well_formed(old(self)@),
            old(self)@.len() + split_parts(id@, '/', 0).len() < usize::MAX,
        ensures
            match index {
                Some(index) => {
                    &&& grown(
                        old(self)@,
                        0,
                        id@,
                        split_parts(id@, '/', 0),
                        split_parts(name@, '/', 0),
                        0,
                        table(region_ids@),
                    ) == Some((final(self)@, index as int))
                    &&& well_formed(final(self)@)
                    &&& index < final(self)@.len()
                    &&& final(self)@.len() <= old(self)@.len() + split_parts(id@, '/', 0).len()
                },
                None => grown(
                    old(self)@,
                    0,
                    id@,
                    split_parts(id@, '/', 0),
                    split_parts(name@, '/', 0),
                    0,
                    table(region_ids@),
                ) is None,
            },
    {
        let keys = split(id, '/');
        let names = split(name, '/');
        let ghost key_views = split_parts(id@, '/', 0);
        let ghost name_views = split_parts(name@, '/', 0);
        let ghost ids = table(region_ids@);
        let ghost goal = grown(self@, 0, id@, key_views, name_views, 0, ids);
        let mut index: usize = 0;
        let mut k: usize = 0;
        while k < keys.len() && k < names.len()
            invariant
                k <= keys.len(),
                views(keys@) == key_views,
                views(names@) == name_views,
                ids == table(region_ids@),
                well_formed(self@),
                index < self@.len(),
                self@.len() <= old(self)@.len() + k,
                old(self)@.len() + key_views.len() < usize::MAX,
                grown(self@, index as int, id@, key_views, name_views, k as int, ids) == goal,
                goal == grown(
                    old(self)@,
                    0,
                    id@,
                    split_parts(id@, '/', 0),
                    split_parts(name@, '/', 0),
                    0,
                    table(region_ids@),
                ),
            decreases keys.len() - k,
        {
            let ghost before = self@;
            let ghost children = self@[index as int].regions;
            let next: usize = self.nodes.len();
            proof {
                assert(key_views[k as int] == keys@[k as int]@);
                assert(name_views[k as int] == names@[k as int]@);
                lemma_key_position(children, keys@[k as int]@);
            }
            let position = self.find_child(index, keys[k].as_str());
            match position {
                Some(child) => {
                    index = child;
                },
                None => {
                    // Get region's numerical ID from our static map.
                    let region_id = match find_absolute_id(id, keys[k].as_str()) {
                        Some(absolute) => lookup(region_ids, absolute.as_str()),
                        None => None,
                    };
                    let region_id: u32 = match region_id {
                        Some(region_id) => region_id,
                        None => return None,
                    };

                    let region = new_region(region_id, shorten(names[k].as_str()));
                    let node = &mut self.nodes[index];
                    let child = map_or_insert(&mut node.regions, keys[k].clone(), next);
                    self.nodes.push(region);
                    proof {
                        let parent = RegionView {
                            regions: children.push((key_views[k as int], next)),
                            ..before[index as int]
                        };
                        assert(self@ =~= before.update(index as int, parent).push(region@));
                        lemma_grown_well_formed(before, index as int, key_views[k as int], region@);
                    }
                    index = child;
                },
            }
            k += 1;
        }
        Some(index)
    }

    /// Find a child of a region by its key.
    fn find_child(&self, index: usize, key: &str) -> (child: Option<usize>)
        requires
            well_formed(self@),
            index < self@.len(),
        ensures
            ({
                let position = key_position(self@[index as int].regions, key@);
                match child {
                    Some(child) => {
                        &&& position >= 0
                        &&& child == self@[index as int].regions[position].1
                        &&& index < child < self@.len()
                    },
                    None => position < 0,
                }
            }),
    {
        let ghost children = self@[index as int].regions;
        let regions = &self.nodes[index].regions;
        let mut n: usize = map_len(regions);
        proof {
            assert(children.take(n as int) =~= children);
        }
        while n > 0
            invariant
                well_formed(self@),
                index < self@.len(),
                n <= children.len(),
                children == self@[index as int].regions,
                children == entries(*regions),
                key_position(children.take(n as int), key@) == key_position(children, key@),
            decreases n,
        {
            proof {
                assert(children.take(n as int).drop_last() =~= children.take(n - 1));
            }
            if let Some((child_key, child)) = map_entry(regions, n - 1) {
                if str_eq(child_key.as_str(), key) {
                    proof {
                        assert(index < self@[index as int].regions[n - 1].1 < self@.len());
                    }
                    return Some(child);
                }
            }
            n -= 1;
        }
        None
    }
}

/// Adding a child to a region keeps all children behind their parents.
proof fn lemma_grown_well_formed(
    nodes: Seq<RegionView>,
    index: int,
    key: Seq<char>,
    region: RegionView,
)
    requires
        well_formed(nodes),
        0 <= index < nodes.len(),
        nodes.len() <= usize::MAX,
        region.regions.len() == 0,
    ensures
        ({
            let parent = RegionView {
                regions: nodes[index].regions.push((key, nodes.len() as usize)),
                ..nodes[index]
            };
            well_formed(nodes.update(index, parent).push(region))
        }),
{
    let children = nodes[index].regions;
    let parent = RegionView {
        regions: children.push((key, nodes.len() as usize)),
        ..nodes[index]
    };
    let added = nodes.update(index, parent).push(region);
    assert forall|i: int, k: int|
        0 <= i < added.len() && 0 <= k < added[i].regions.len() implies i < (
    #[trigger] added[i].regions[k]).1 < added.len() by {
        if i < nodes.len() {
            if i != index || k < children.len() {
                assert(i < nodes[i].regions[k].1 < nodes.len());
            }
        }
    }
}

/// Dataset with its size.
pub type Dataset = (Seq<char>, u64);

/// Datasets of both lists, each of them once.
pub open spec fn merged(a: Seq<Dataset>, b: Seq<Dataset>) -> Seq<Dataset>
    decreases b.len(),
{
    if b.len() == 0 {
        a
    } else {
        let list = merged(a, b.drop_last());
        if list.contains(b.last()) {
            list
        } else {
            list.push(b.last())
        }
    }
}

/// Combined size of a list of datasets.
pub open spec fn datasets_size(list: Seq<Dataset>) -> int
    decreases list.len(),
{
    if list.len() == 0 {
        0
    } else {
        datasets_size(list.drop_last()) + list.last().1
    }
}

/// Index of a child, or the region itself if there is no such child.
pub open spec fn child_of(nodes: Seq<RegionView>, index: int, n: int) -> int {
    nodes[index].regions[n].1 as int
}

/// Postal datasets of a region.
///
/// Regions without postal data of their own use those of their children.
pub open spec fn postal_datasets(nodes: Seq<RegionView>, index: int) -> Seq<Dataset>
    decreases nodes.len() - index, nodes[index].regions.len() + 1,
{
    if nodes[index].postal_size != 0 {
        seq![(nodes[index].postal_path->0, nodes[index].postal_size)]
    } else {
        child_postal_datasets(nodes, index, nodes[index].regions.len() as int)
    }
}

/// Postal datasets of the first `n` children of a region.
pub open spec fn child_postal_datasets(nodes: Seq<RegionView>, index: int, n: int) -> Seq<Dataset>
    decreases nodes.len() - index, n,
{
    if n <= 0 || n > nodes[index].regions.len() {
        Seq::empty()
    } else {
        let child = child_of(nodes, index, n - 1);
        let list = child_postal_datasets(nodes, index, n - 1);
        if index < child < nodes.len() {
            merged(list, postal_datasets(nodes, child))
        } else {
            list
        }
    }
}

/// Packages of a region with their size, each of them once.
///
/// Since we only have the combined size, we approximate by dividing it evenly.
pub open spec fn own_packages(region: RegionView) -> Seq<Dataset> {
    let size = (region.valhalla_size as int / region.valhalla_packages.len() as int) as u64;
    merged(Seq::empty(), region.valhalla_packages.map_values(|package: Seq<char>| (package, size)))
}

/// Valhalla packages of a region.
///
/// Regions without packages of their own use those of their children.
pub open spec fn package_datasets(nodes: Seq<RegionView>, index: int) -> Seq<Dataset>
    decreases nodes.len() - index, nodes[index].regions.len() + 1,
{
    if nodes[index].valhalla_size != 0 {
        own_packages(nodes[index])
    } else {
        child_package_datasets(nodes, index, nodes[index].regions.len() as int)
    }
}

/// Valhalla packages of the first `n` children of a region.
pub open spec fn child_package_datasets(nodes: Seq<RegionView>, index: int, n: int) -> Seq<Dataset>
    decreases nodes.len() - index, n,
{
    if n <= 0 || n > nodes[index].regions.len() {
        Seq::empty()
    } else {
        let child = child_of(nodes, index, n - 1);
        let list = child_package_datasets(nodes, index, n - 1);
        if index < child < nodes.len() {
            merged(list, package_datasets(nodes, child))
        } else {
            list
        }
    }
}

/// Size of a region's geocoder data.
pub open spec fn geocoder_total(nodes: Seq<RegionView>, index: int) -> int
    decreases nodes.len() - index, nodes[index].regions.len() + 1,
{
    if nodes[index].geocoder_size != 0 {
        nodes[index].geocoder_size as int
    } else {
        child_geocoder_total(nodes, index, nodes[index].regions.len() as int)
    }
}

/// Size of the geocoder data of the first `n` children of a region.
pub open spec fn child_geocoder_total(nodes: Seq<RegionView>, index: int, n: int) -> int
    decreases nodes.len() - index, n,
{
    if n <= 0 || n > nodes[index].regions.len() {
        0
    } else {
        let child = child_of(nodes, index, n - 1);
        child_geocoder_total(nodes, index, n - 1) + (if index < child < nodes.len() {
            geocoder_total(nodes, child)
        } else {
            0
        })
    }
}

/// Size of a region's tiles.
pub open spec fn tiles_total(nodes: Seq<RegionView>, index: int) -> int
    decreases nodes.len() - index, nodes[index].regions.len() + 1,
{
    if nodes[index].tiles_url is Some {
        nodes[index].tiles_size as int
    } else {
        nodes[index].tiles_size + child_tiles_total(
            nodes,
            index,
            nodes[index].regions.len() as int,
        )
    }
}

/// Size of the tiles of the first `n` children of a region.
pub open spec fn child_tiles_total(nodes: Seq<RegionView>, index: int, n: int) -> int
    decreases nodes.len() - index, n,
{
    if n <= 0 || n > nodes[index].regions.len() {
        0
    } else {
        let child = child_of(nodes, index, n - 1);
        child_tiles_total(nodes, index, n - 1) + (if index < child < nodes.len() {
            tiles_total(nodes, child)
        } else {
            0
        })
    }
}

/// Size of a region's postal data.
pub open spec fn postal_total(nodes: Seq<RegionView>, index: int) -> int {
    datasets_size(postal_datasets(nodes, index))
}

/// Size of a region's Valhalla data.
pub open spec fn valhalla_total(nodes: Seq<RegionView>, index: int) -> int {
    if nodes[index].valhalla_size != 0 {
        nodes[index].valhalla_size as int
    } else {
        datasets_size(package_datasets(nodes, index))
    }
}

/// Complete size of a region and all of its children.
pub open spec fn storage_total(nodes: Seq<RegionView>, index: int, postal_global_size: u64) -> int {
    geocoder_total(nodes, index) + valhalla_total(nodes, index) + postal_total(nodes, index)
        + tiles_total(nodes, index) + postal_global_size
}

/// Region with its combined sizes.
pub open spec fn sized(nodes: Seq<RegionView>, index: int, postal_global_size: u64) -> RegionView {
    RegionView {
        geocoder_size: geocoder_total(nodes, index) as u64,
        valhalla_size: valhalla_total(nodes, index) as u64,
        postal_size: postal_total(nodes, index) as u64,
        tiles_size: tiles_total(nodes, index) as u64,
        storage_size: storage_total(nodes, index, postal_global_size) as u64,
        ..nodes[index]
    }
}

/// Tree with the combined sizes of all regions.
pub open spec fn sized_tree(nodes: Seq<RegionView>, postal_global_size: u64) -> Seq<RegionView> {
    Seq::new(nodes.len(), |i: int| sized(nodes, i, postal_global_size))
}

/// All combined sizes can be represented.
pub open spec fn sizes_fit(nodes: Seq<RegionView>, postal_global_size: u64) -> bool {
    forall|i: int|
        0 <= i < nodes.len() ==> #[trigger] storage_total(nodes, i, postal_global_size) <= u64::MAX
}

/// Regions whose children are stored in reverse alphabetical order.
pub open spec fn is_sorted_tree(nodes: Seq<RegionView>, sorted: Seq<RegionView>) -> bool {
    &&& sorted.len() == nodes.len()
    &&& forall|i: int|
        0 <= i < nodes.len() ==> {
            &&& #[trigger] sorted[i] == RegionView { regions: sorted[i].regions, ..nodes[i] }
            &&& sorted[i].regions.to_multiset() == nodes[i].regions.to_multiset()
            &&& descending(sorted[i].regions)
        }
}

/// Sorting the children of all regions keeps them behind their parents.
proof fn lemma_sorted_well_formed(nodes: Seq<RegionView>, sorted: Seq<RegionView>)
    requires
        well_formed(nodes),
        is_sorted_tree(nodes, sorted),
    ensures
        well_formed(sorted),
{
    assert forall|i: int, k: int|
        0 <= i < sorted.len() && 0 <= k < sorted[i].regions.len() implies i < (
    #[trigger] sorted[i].regions[k]).1 < sorted.len() by {
        let child = sorted[i].regions[k];
        assert(sorted[i] == RegionView { regions: sorted[i].regions, ..nodes[i] });
        sorted[i].regions.to_multiset_ensures();
        nodes[i].regions.to_multiset_ensures();
        assert(sorted[i].regions.contains(child));
        assert(sorted[i].regions.to_multiset().count(child) > 0);
        assert(nodes[i].regions.contains(child));
        let j = choose|j: int| 0 <= j < nodes[i].regions.len() && nodes[i].regions[j] == child;
        assert(i < nodes[i].regions[j].1 < nodes.len());
    }
}

/// The size of the first datasets never exceeds the size of all.
proof fn lemma_datasets_size_prefix(list: Seq<Dataset>, n: int)
    requires
        0 <= n <= list.len(),
    ensures
        0 <= datasets_size(list.take(n)) <= datasets_size(list),
    decreases list.len(),
{
    if n < list.len() {
        lemma_datasets_size_prefix(list.drop_last(), n);
        assert(list.drop_last().take(n) =~= list.take(n));
    } else {
        assert(list.take(n) =~= list);
        if list.len() > 0 {
            lemma_datasets_size_prefix(list.drop_last(), list.len() - 1);
            assert(list.drop_last().take(list.len() - 1) =~= list.drop_last());
        }
    }
}

/// Merging only appends datasets.
proof fn lemma_merged_extends(a: Seq<Dataset>, b: Seq<Dataset>)
    ensures
        a.len() <= merged(a, b).len(),
        merged(a, b).take(a.len() as int) == a,
        datasets_size(a) <= datasets_size(merged(a, b)),
    decreases b.len(),
{
    if b.len() > 0 {
        lemma_merged_extends(a, b.drop_last());
        let list = merged(a, b.drop_last());
        if !list.contains(b.last()) {
            assert(list.push(b.last()).take(a.len() as int) =~= list.take(a.len() as int));
        }
    } else {
        assert(a.take(a.len() as int) =~= a);
    }
    lemma_datasets_size_prefix(merged(a, b), a.len() as int);
}

/// Contents of a list of datasets.
pub open spec fn dataset_views(list: Seq<(String, u64)>) -> Seq<Dataset> {
    list.map_values(|dataset: (String, u64)| (dataset.0@, dataset.1))
}

/// Check whether a dataset is in a list.
fn has_dataset(list: &Vec<(String, u64)>, name: &str, size: u64) -> (result: bool)
    ensures
        result == dataset_views(list@).contains((name@, size)),
{
    let ghost datasets = dataset_views(list@);
    let mut i: usize = 0;
    while i < list.len()
        invariant
            i <= list.len(),
            datasets == dataset_views(list@),
            forall|j: int| 0 <= j < i ==> datasets[j] != (name@, size),
        decreases list.len() - i,
    {
        if list[i].1 == size && str_eq(list[i].0.as_str(), name) {
            assert(datasets[i as int] == (name@, size));
            return true;
        }
        i += 1;
    }
    false
}

/// Add all datasets to a list which are not part of it yet.
fn merge(list: &mut Vec<(String, u64)>, other: &Vec<(String, u64)>)
    ensures
        dataset_views(final(list)@) == merged(dataset_views(old(list)@), dataset_views(other@)),
{
    let ghost start = dataset_views(list@);
    let ghost added = dataset_views(other@);
    let mut i: usize = 0;
    proof {
        assert(added.take(0) =~= Seq::<Dataset>::empty());
    }
    while i < other.len()
        invariant
            i <= other.len(),
            added == dataset_views(other@),
            dataset_views(list@) == merged(start, added.take(i as int)),
        decreases other.len() - i,
    {
        let ghost before = list@;
        proof {
            assert(added.take(i + 1).drop_last() =~= added.take(i as int));
            assert(added.take(i + 1).last() == (other@[i as int].0@, other@[i as int].1));
        }
        if !has_dataset(list, other[i].0.as_str(), other[i].1) {
            list.push((other[i].0.clone(), other[i].1));
            proof {
                assert(dataset_views(list@) =~= dataset_views(before).push(added[i as int]));
            }
        }
        i += 1;
    }
    proof {
        assert(added.take(other.len() as int) =~= added);
    }
}

/// Add up the size of a list of datasets, unless it cannot be represented.
fn size_of(list: &Vec<(String, u64)>) -> (size: Option<u64>)
    ensures
        match size {
            Some(size) => size == datasets_size(dataset_views(list@)),
            None => datasets_size(dataset_views(list@)) > u64::MAX,
        },
{
    let ghost datasets = dataset_views(list@);
    let mut size: u64 = 0;
    let mut i: usize = 0;
    proof {
        assert(datasets.take(0) =~= Seq::<Dataset>::empty());
    }
    while i < list.len()
        invariant
            i <= list.len(),
            datasets == dataset_views(list@),
            size == datasets_size(datasets.take(i as int)),
        decreases list.len() - i,
    {
        proof {
            assert(datasets.take(i + 1).drop_last() =~= datasets.take(i as int));
            assert(datasets.take(i + 1).last() == (list@[i as int].0@, list@[i as int].1));
            lemma_datasets_size_prefix(datasets, i + 1);
        }
        match size.checked_add(list[i].1) {
            Some(sum) => {
                size = sum;
            },
            None => return None,
        }
        i += 1;
    }
    proof {
        assert(datasets.take(list.len() as int) =~= datasets);
    }
    Some(size)
}

/// Regions with postal data have its path.
pub open spec fn has_postal_paths(nodes: Seq<RegionView>) -> bool {
    forall|i: int|
        0 <= i < nodes.len() ==> ((#[trigger] nodes[i]).postal_size != 0 ==> nodes[i].postal_path
            is Some)
}

/// Regions with Valhalla data have packages.
pub open spec fn has_packages(nodes: Seq<RegionView>) -> bool {
    forall|i: int|
        0 <= i < nodes.len() ==> ((#[trigger] nodes[i]).valhalla_size != 0
            ==> nodes[i].valhalla_packages.len() > 0)
}

/// Regions with postal or Valhalla data say which.
pub open spec fn has_datasets(nodes: Seq<RegionView>) -> bool {
    has_postal_paths(nodes) && has_packages(nodes)
}

/// Sizes are never negative, and only grow with more children.
proof fn lemma_geocoder_total(nodes: Seq<RegionView>, index: int)
    requires
        well_formed(nodes),
        0 <= index < nodes.len(),
    ensures
        0 <= geocoder_total(nodes, index),
    decreases nodes.len() - index, nodes[index].regions.len() + 1,
{
    lemma_child_geocoder_total(nodes, index, 0, nodes[index].regions.len() as int);
}

proof fn lemma_child_geocoder_total(nodes: Seq<RegionView>, index: int, m: int, n: int)
    requires
        well_formed(nodes),
        0 <= index < nodes.len(),
        0 <= m <= n <= nodes[index].regions.len(),
    ensures
        0 <= child_geocoder_total(nodes, index, m) <= child_geocoder_total(nodes, index, n),
    decreases nodes.len() - index, n,
{
    if n > 0 {
        let child = child_of(nodes, index, n - 1);
        assert(index < nodes[index].regions[n - 1].1 < nodes.len());
        lemma_geocoder_total(nodes, child);
        if m < n {
            lemma_child_geocoder_total(nodes, index, m, n - 1);
        } else {
            lemma_child_geocoder_total(nodes, index, n - 1, n - 1);
        }
    }
}

/// Sizes are never negative, and only grow with more children.
proof fn lemma_tiles_total(nodes: Seq<RegionView>, index: int)
    requires
        well_formed(nodes),
        0 <= index < nodes.len(),
    ensures
        0 <= tiles_total(nodes, index),
    decreases nodes.len() - index, nodes[index].regions.len() + 1,
{
    lemma_child_tiles_total(nodes, index, 0, nodes[index].regions.len() as int);
}

proof fn lemma_child_tiles_total(nodes: Seq<RegionView>, index: int, m: int, n: int)
    requires
        well_formed(nodes),
        0 <= index < nodes.len(),
        0 <= m <= n <= nodes[index].regions.len(),
    ensures
        0 <= child_tiles_total(nodes, index, m) <= child_tiles_total(nodes, index, n),
    decreases nodes.len() - index, n,
{
    if n > 0 {
        let child = child_of(nodes, index, n - 1);
        assert(index < nodes[index].regions[n - 1].1 < nodes.len());
        lemma_tiles_total(nodes, child);
        if m < n {
            lemma_child_tiles_total(nodes, index, m, n - 1);
        } else {
            lemma_child_tiles_total(nodes, index, n - 1, n - 1);
        }
    }
}

/// None of a region's sizes exceeds its complete size.
proof fn lemma_parts_of_storage(nodes: Seq<RegionView>, index: int, postal_global_size: u64)
    requires
        well_formed(nodes),
        0 <= index < nodes.len(),
    ensures
        0 <= geocoder_total(nodes, index),
        0 <= tiles_total(nodes, index),
        0 <= postal_total(nodes, index),
        0 <= valhalla_total(nodes, index),
        geocoder_total(nodes, index) <= storage_total(nodes, index, postal_global_size),
        tiles_total(nodes, index) <= storage_total(nodes, index, postal_global_size),
        postal_total(nodes, index) <= storage_total(nodes, index, postal_global_size),
        valhalla_total(nodes, index) <= storage_total(nodes, index, postal_global_size),
{
    lemma_geocoder_total(nodes, index);
    lemma_tiles_total(nodes, index);
    lemma_datasets_size_prefix(postal_datasets(nodes, index), 0);
    lemma_datasets_size_prefix(package_datasets(nodes, index), 0);
}

/// Combined data of a region.
struct RegionSizes {
    countries: Vec<(String, u64)>,
    packages: Vec<(String, u64)>,
    tiles_size: u64,
    geocoder_size: u64,
    postal_size: u64,
    valhalla_size: u64,
    storage_size: u64,
}

impl RegionTree {
    /// Combine the data of a region with that of its children.
    ///
    /// Returns nothing if any size cannot be represented.
    fn combine(
        &self,
        index: usize,
        postal_global_size: u64,
        countries: &Vec<Vec<(String, u64)>>,
        packages: &Vec<Vec<(String, u64)>>,
        Ghost(nodes): Ghost<Seq<RegionView>>,
    ) -> (sizes: Option<RegionSizes>)
        requires
            well_formed(nodes),
            has_datasets(nodes),
            index < nodes.len(),
            self@.len() == nodes.len(),
            countries.len() == nodes.len(),
            packages.len() == nodes.len(),
            self@[index as int] == nodes[index as int],
            forall|j: int|
                index < j < nodes.len() ==> {
                    &&& #[trigger] self@[j] == sized(nodes, j, postal_global_size)
                    &&& dataset_views(countries[j]@) == postal_datasets(nodes, j)
                    &&& dataset_views(packages[j]@) == package_datasets(nodes, j)
                    &&& storage_total(nodes, j, postal_global_size) <= u64::MAX
                },
        ensures
            match sizes {
                Some(sizes) => {
                    &&& dataset_views(sizes.countries@) == postal_datasets(nodes, index as int)
                    &&& dataset_views(sizes.packages@) == package_datasets(nodes, index as int)
                    &&& sizes.tiles_size == tiles_total(nodes, index as int)
                    &&& sizes.geocoder_size == geocoder_total(nodes, index as int)
                    &&& sizes.postal_size == postal_total(nodes, index as int)
                    &&& sizes.valhalla_size == valhalla_total(nodes, index as int)
                    &&& sizes.storage_size == storage_total(
                        nodes,
                        index as int,
                        postal_global_size,
                    )
                },
                None => storage_total(nodes, index as int, postal_global_size) > u64::MAX,
            },
    {
        let region = &self.nodes[index];
        assert(region@ == nodes[index as int]);
        let has_valhalla = region.valhalla_size != 0;
        let has_geocoder = region.geocoder_size != 0;
        let has_postal = region.postal_size != 0;
        let has_tiles = region.tiles_url.is_some();

        let mut own_countries: Vec<(String, u64)> = Vec::new();
        let mut own_packages: Vec<(String, u64)> = Vec::new();
        let mut tiles_size: u64 = region.tiles_size;
        let mut geocoder_size: u64 = region.geocoder_size;
        let count = map_len(&region.regions);
        let mut n: usize = 0;
        proof {
            assert(dataset_views(own_countries@) =~= Seq::<Dataset>::empty());
            assert(dataset_views(own_packages@) =~= Seq::<Dataset>::empty());
            lemma_parts_of_storage(nodes, index as int, postal_global_size);
        }

        // Calculate sizes from children.
        while n < count
            invariant
                n <= count,
                count == nodes[index as int].regions.len(),
                region@ == nodes[index as int],
                well_formed(nodes),
                index < nodes.len(),
                self@.len() == nodes.len(),
                countries.len() == nodes.len(),
                packages.len() == nodes.len(),
                forall|j: int|
                    index < j < nodes.len() ==> {
                        &&& #[trigger] self@[j] == sized(nodes, j, postal_global_size)
                        &&& dataset_views(countries[j]@) == postal_datasets(nodes, j)
                        &&& dataset_views(packages[j]@) == package_datasets(nodes, j)
                        &&& storage_total(nodes, j, postal_global_size) <= u64::MAX
                    },
                geocoder_total(nodes, index as int) <= storage_total(
                    nodes,
                    index as int,
                    postal_global_size,
                ),
                tiles_total(nodes, index as int) <= storage_total(
                    nodes,
                    index as int,
                    postal_global_size,
                ),
                has_valhalla == (region.valhalla_size != 0),
                has_geocoder == (region.geocoder_size != 0),
                has_postal == (region.postal_size != 0),
                has_tiles == (region.tiles_url is Some),
                tiles_size == (if has_tiles {
                    region.tiles_size as int
                } else {
                    region.tiles_size + child_tiles_total(nodes, index as int, n as int)
                }),
                geocoder_size == (if has_geocoder {
                    region.geocoder_size as int
                } else {
                    child_geocoder_total(nodes, index as int, n as int)
                }),
                dataset_views(own_countries@) == child_postal_datasets(
                    nodes,
                    index as int,
                    n as int,
                ),
                dataset_views(own_packages@) == child_package_datasets(
                    nodes,
                    index as int,
                    n as int,
                ),
            decreases count - n,
        {
            let child: usize = match map_entry(&region.regions, n) {
                Some((_, child)) => child,
                None => index,
            };
            proof {
                assert(child == child_of(nodes, index as int, n as int));
                assert(index < nodes[index as int].regions[n as int].1 < nodes.len());
                assert(self@[child as int] == sized(nodes, child as int, postal_global_size));
                assert(self.nodes@[child as int]@ == self@[child as int]);
                lemma_parts_of_storage(nodes, child as int, postal_global_size);
                lemma_child_tiles_total(nodes, index as int, n + 1, count as int);
                lemma_child_geocoder_total(nodes, index as int, n + 1, count as int);
            }

            if !has_tiles {
                match tiles_size.checked_add(self.nodes[child].tiles_size) {
                    Some(size) => {
                        tiles_size = size;
                    },
                    None => return None,
                }
            }
            if !has_geocoder {
                match geocoder_size.checked_add(self.nodes[child].geocoder_size) {
                    Some(size) => {
                        geocoder_size = size;
                    },
                    None => return None,
                }
            }

            // Add each new postal country and package.
            merge(&mut own_countries, &countries[child]);
            merge(&mut own_packages, &packages[child]);
            n += 1;
        }

        // Regions with data of their own do not use any of their children's.
        if has_postal {
            own_countries = Vec::new();
            if let Some(path) = &region.postal_path {
                own_countries.push((path.clone(), region.postal_size));
            }
            proof {
                assert(dataset_views(own_countries@) =~= postal_datasets(nodes, index as int));
            }
        }
        if has_valhalla {
            own_packages = package_sizes(region);
        }

        let postal_size = match size_of(&own_countries) {
            Some(size) => size,
            None => return None,
        };
        let valhalla_size = if has_valhalla {
            region.valhalla_size
        } else {
            match size_of(&own_packages) {
                Some(size) => size,
                None => return None,
            }
        };

        // Update this node's combined storage size.
        let storage_size: Option<u64> = match geocoder_size.checked_add(valhalla_size) {
            Some(size) => match size.checked_add(postal_size) {
                Some(size) => match size.checked_add(tiles_size) {
                    Some(size) => size.checked_add(postal_global_size),
                    None => None,
                },
                None => None,
            },
            None => None,
        };
        match storage_size {
            Some(storage_size) => Some(
                RegionSizes {
                    countries: own_countries,
                    packages: own_packages,
                    tiles_size,
                    geocoder_size,
                    postal_size,
                    valhalla_size,
                    storage_size,
                },
            ),
            None => None,
        }
    }

    /// Process region list into more optimal storage format.
    ///
    /// Children are sorted in reverse alphabetical order and all sizes are
    /// combined with those of the children. This fails if any size cannot be
    /// represented.
    pub fn postprocess(&mut self, postal_global_size: u64) -> (success: bool)
        requires
            well_formed(old(self)@),
            has_datasets(old(self)@),
        ensures
            exists|sorted: Seq<RegionView>|
                {
                    &&& #[trigger] is_sorted_tree(old(self)@, sorted)
                    &&& success == sizes_fit(sorted, postal_global_size)
                    &&& success ==> final(self)@ == sized_tree(sorted, postal_global_size)
                },
            success ==> well_formed(final(self)@),
    {
        // Ensure regions are stored in reverse alphabetical order.
        let ghost before = self@;
        let count: usize = self.nodes.len();
        let mut i: usize = 0;
        while i < count
            invariant
                i <= count,
                count == before.len(),
                self@.len() == before.len(),
                forall|j: int| i <= j < before.len() ==> #[trigger] self@[j] == before[j],
                forall|j: int|
                    0 <= j < i ==> {
                        &&& #[trigger] self@[j] == RegionView {
                            regions: self@[j].regions,
                            ..before[j]
                        }
                        &&& self@[j].regions.to_multiset() == before[j].regions.to_multiset()
                        &&& descending(self@[j].regions)
                    },
            decreases count - i,
        {
            let ghost partial = self@;
            assert(self@[i as int] == before[i as int]);
            let node = &mut self.nodes[i];
            sort_descending(&mut node.regions);
            proof {
                assert(self@ =~= partial.update(i as int, self@[i as int]));
            }
            i += 1;
        }
        let ghost sorted = self@;
        proof {
            assert(is_sorted_tree(before, sorted));
            lemma_sorted_well_formed(before, sorted);
            assert forall|j: int| 0 <= j < sorted.len() implies {
                &&& (#[trigger] sorted[j]).postal_size != 0 ==> sorted[j].postal_path is Some
                &&& sorted[j].valhalla_size != 0 ==> sorted[j].valhalla_packages.len() > 0
            } by {
                assert(sorted[j] == RegionView { regions: sorted[j].regions, ..before[j] });
                assert(before[j].postal_size != 0 ==> before[j].postal_path is Some);
            }
        }

        // Calculate sizes from children.
        let mut countries: Vec<Vec<(String, u64)>> = Vec::new();
        let mut packages: Vec<Vec<(String, u64)>> = Vec::new();
        let mut filled: usize = 0;
        while filled < count
            invariant
                filled <= count,
                countries.len() == filled,
                packages.len() == filled,
            decreases count - filled,
        {
            countries.push(Vec::new());
            packages.push(Vec::new());
            filled += 1;
        }
        let mut index: usize = count;
        while index > 0
            invariant
                index <= count,
                count == sorted.len(),
                self@.len() == sorted.len(),
                countries.len() == sorted.len(),
                packages.len() == sorted.len(),
                well_formed(sorted),
                has_datasets(sorted),
                is_sorted_tree(before, sorted),
                before == old(self)@,
                forall|j: int| 0 <= j < index ==> #[trigger] self@[j] == sorted[j],
                forall|j: int|
                    index <= j < sorted.len() ==> {
                        &&& #[trigger] self@[j] == sized(sorted, j, postal_global_size)
                        &&& dataset_views(countries[j]@) == postal_datasets(sorted, j)
                        &&& dataset_views(packages[j]@) == package_datasets(sorted, j)
                        &&& storage_total(sorted, j, postal_global_size) <= u64::MAX
                    },
            decreases index,
        {
            index -= 1;
            assert(self@[index as int] == sorted[index as int]);
            match self.combine(index, postal_global_size, &countries, &packages, Ghost(sorted)) {
                Some(sizes) => {
                    let ghost partial = self@;
                    let node = &mut self.nodes[index];
                    node.tiles_size = sizes.tiles_size;
                    node.geocoder_size = sizes.geocoder_size;
                    node.postal_size = sizes.postal_size;
                    node.valhalla_size = sizes.valhalla_size;
                    node.storage_size = sizes.storage_size;
                    countries.set(index, sizes.countries);
                    packages.set(index, sizes.packages);
                    proof {
                        assert(self@ =~= partial.update(
                            index as int,
                            sized(sorted, index as int, postal_global_size),
                        ));
                    }
                },
                None => {
                    proof {
                        assert(!sizes_fit(sorted, postal_global_size)) by {
                            assert(storage_total(sorted, index as int, postal_global_size)
                                > u64::MAX);
                        }
                    }
                    return false;
                },
            }
        }
        proof {
            assert(self@ =~= sized_tree(sorted, postal_global_size));
            assert forall|j: int| 0 <= j < sorted.len() implies #[trigger] storage_total(
                sorted,
                j,
                postal_global_size,
            ) <= u64::MAX by {
                assert(self@[j] == sized(sorted, j, postal_global_size));
            }
            assert(sizes_fit(sorted, postal_global_size));
            assert forall|i: int, k: int|
                0 <= i < self@.len() && 0 <= k < self@[i].regions.len() implies i < (
            #[trigger] self@[i].regions[k]).1 < self@.len() by {
                assert(self@[i] == sized(sorted, i, postal_global_size));
                assert(i < sorted[i].regions[k].1 < sorted.len());
            }
        }
        true
    }

    /// Set the data of a region from the index.
    fn fill(
        &mut self,
        index: usize,
        id: &str,
        data: &modrana::Region,
        tile_sizes: &Vec<(String, u64)>,
    ) -> (result: Result<(), BuildError>)
        requires
            well_formed(old(self)@),
            has_postal_paths(old(self)@),
            index < old(self)@.len(),
        ensures
            match result {
                Ok(_) => {
                    &&& filled(old(self)@[index as int], id@, *data, table(tile_sizes@))
                        == Ok::<RegionView, BuildError>(final(self)@[index as int])
                    &&& final(self)@ == old(self)@.update(
                        index as int,
                        final(self)@[index as int],
                    )
                    &&& well_formed(final(self)@)
                    &&& has_postal_paths(final(self)@)
                },
                Err(err) => filled(old(self)@[index as int], id@, *data, table(tile_sizes@)) == Err::<
                    RegionView,
                    BuildError,
                >(err),
            },
    {
        let ghost before = self@;
        let geocoder_size = parse_u64(data.geocoder_nlp.size.as_str());
        let valhalla_size = parse_u64(data.valhalla.size.as_str());
        let postal_size = parse_u64(data.postal_country.size.as_str());
        let (geocoder_size, valhalla_size, postal_size): (u64, u64, u64) = match (
            geocoder_size,
            valhalla_size,
            postal_size,
        ) {
            (Some(geocoder_size), Some(valhalla_size), Some(postal_size)) => (
                geocoder_size,
                valhalla_size,
                postal_size,
            ),
            _ => return Err(BuildError::InvalidSize),
        };
        let tile_size = lookup(tile_sizes, id);
        let mut tiles_size: u64 = self.nodes[index].tiles_size;
        assert(self.nodes@[index as int]@ == before[index as int]);
        if let Some(tile_size) = tile_size {
            match tiles_size.checked_add(tile_size) {
                Some(size) => {
                    tiles_size = size;
                },
                None => return Err(BuildError::SizeOverflow),
            }
        }
        let packages = copy_strings(&data.valhalla.packages);
        let tiles_url = if tile_size.is_some() {
            let directory = join(TILE_URL_BASE, id);
            Some(join(directory.as_str(), "tiles.tar.gz"))
        } else {
            None
        };

        let node = &mut self.nodes[index];

        // Set geocoder URL for this region.
        node.geocoder_path = Some(data.geocoder_nlp.path.clone());
        node.geocoder_size = geocoder_size;

        // Set valhalla packages for this region.
        node.valhalla_packages = packages;
        node.valhalla_size = valhalla_size;

        // Set libpostal URL for this region's language.
        node.postal_path = Some(data.postal_country.path.clone());
        node.postal_size = postal_size;

        // Set tile data for this region.
        if tiles_url.is_some() {
            node.tiles_url = tiles_url;
        }
        node.tiles_size = tiles_size;
        proof {
            assert(self@ =~= before.update(index as int, self@[index as int]));
            assert(self@[index as int].regions == before[index as int].regions);
            assert forall|i: int, k: int|
                0 <= i < self@.len() && 0 <= k < self@[i].regions.len() implies i < (
            #[trigger] self@[i].regions[k]).1 < self@.len() by {
                assert(i < before[i].regions[k].1 < before.len());
            }
            assert forall|i: int| 0 <= i < self@.len() && (#[trigger] self@[i]).postal_size
                != 0 implies self@[i].postal_path is Some by {
                if i != index {
                    assert(self@[i] == before[i]);
                }
            }
        }
        Ok(())
    }

    /// Check whether all regions with Valhalla data have packages.
    fn has_all_packages(&self) -> (complete: bool)
        ensures
            complete == has_packages(self@),
    {
        let mut i: usize = 0;
        while i < self.nodes.len()
            invariant
                i <= self.nodes.len(),
                forall|j: int|
                    0 <= j < i ==> ((#[trigger] self@[j]).valhalla_size != 0
                        ==> self@[j].valhalla_packages.len() > 0),
            decreases self.nodes.len() - i,
        {
            let node = &self.nodes[i];
            assert(self@[i as int] == node@);
            if node.valhalla_size != 0 && node.valhalla_packages.len() == 0 {
                return false;
            }
            i += 1;
        }
        true
    }

    /// Get the tree of all regions in the world, from the flat list of the
    /// index.
    ///
    /// Every size of a region includes those of its children.
    pub fn world(
        modrana: &modrana::Countries,
        tile_sizes: &Vec<(String, u64)>,
        region_ids: &Vec<(String, u32)>,
    ) -> (result: Result<Self, BuildError>)
        requires
            segment_count(modrana.regions@, modrana.regions.len() as int) + 1 < usize::MAX,
        ensures
            is_world(modrana, table(tile_sizes@), table(region_ids@), result),
    {
        let postal_global_size = match parse_u64(
            modrana.postal_global.postal_global.size.as_str(),
        ) {
            Some(size) => size,
            None => return Err(BuildError::InvalidSize),
        };

        let mut nodes: Vec<Region> = Vec::new();
        nodes.push(new_region(0, "World".to_owned()));
        let mut world = RegionTree { nodes };
        let ghost ids = table(region_ids@);
        let ghost tiles = table(tile_sizes@);
        proof {
            assert(world@ =~= seq![empty_region(0, "World"@)]);
        }

        // Convert flat modrana data map to the region tree.
        let mut i: usize = 0;
        while i < modrana.regions.len()
            invariant
                i <= modrana.regions.len(),
                parsed_u64(modrana.postal_global.postal_global.size@) == Some(postal_global_size),
                ids == table(region_ids@),
                tiles == table(tile_sizes@),
                well_formed(world@),
                has_postal_paths(world@),
                built(modrana.regions@, i as int, ids, tiles) == Ok::<
                    Seq<RegionView>,
                    BuildError,
                >(world@),
                world@.len() <= segment_count(modrana.regions@, i as int) + 1,
                segment_count(modrana.regions@, modrana.regions.len() as int) + 1 < usize::MAX,
            decreases modrana.regions.len() - i,
        {
            let (id, data) = (&modrana.regions[i].0, &modrana.regions[i].1);
            let ghost start = world@;
            proof {
                lemma_segment_count(
                    modrana.regions@,
                    i + 1,
                    modrana.regions.len() as int,
                );
            }
            let name = strip_name(data.name.as_str());
            match world.grow(id.as_str(), name.as_str(), region_ids) {
                Some(index) => {
                    proof {
                        lemma_grown_has_postal_paths(
                            start,
                            0,
                            id@,
                            split_parts(id@, '/', 0),
                            split_parts(name@, '/', 0),
                            0,
                            ids,
                        );
                    }
                    if let Err(err) = world.fill(index, id.as_str(), data, tile_sizes) {
                        proof {
                            assert(built(modrana.regions@, i + 1, ids, tiles) == Err::<
                                Seq<RegionView>,
                                BuildError,
                            >(err));
                            lemma_built_error(
                                modrana.regions@,
                                i + 1,
                                modrana.regions.len() as int,
                                ids,
                                tiles,
                            );
                        }
                        return Err(err);
                    }
                },
                None => {
                    proof {
                        assert(built(modrana.regions@, i + 1, ids, tiles) == Err::<
                            Seq<RegionView>,
                            BuildError,
                        >(BuildError::MissingRegionId));
                        lemma_built_error(
                            modrana.regions@,
                            i + 1,
                            modrana.regions.len() as int,
                            ids,
                            tiles,
                        );
                    }
                    return Err(BuildError::MissingRegionId);
                },
            }
            i += 1;
        }

        // Ensure the size of every package is known.
        if !world.has_all_packages() {
            return Err(BuildError::MissingPackages);
        }

        // Recursively update storage size and sort regions.
        let ghost nodes = world@;
        let success = world.postprocess(postal_global_size);
        let ghost sorted = choose|sorted: Seq<RegionView>|
            {
                &&& #[trigger] is_sorted_tree(nodes, sorted)
                &&& success == sizes_fit(sorted, postal_global_size)
                &&& success ==> world@ == sized_tree(sorted, postal_global_size)
            };
        assert(is_sorted_tree(nodes, sorted));
        let result = if success {
            Ok(world)
        } else {
            Err(BuildError::SizeOverflow)
        };
        assert(is_finished(nodes, postal_global_size, result));
        result
    }
}

/// Copy a list of texts.
fn copy_strings(list: &Vec<String>) -> (copy: Vec<String>)
    ensures
        views(copy@) == views(list@),
        copy.len() == list.len(),
{
    let mut copy: Vec<String> = Vec::new();
    let mut i: usize = 0;
    while i < list.len()
        invariant
            i <= list.len(),
            copy.len() == i,
            forall|j: int| 0 <= j < i ==> #[trigger] copy[j]@ == list[j]@,
        decreases list.len() - i,
    {
        copy.push(list[i].clone());
        i += 1;
    }
    proof {
        assert(views(copy@) =~= views(list@));
    }
    copy
}

/// Number of segments in the IDs of the first `n` regions of the index.
pub open spec fn segment_count(regions: Seq<(String, modrana::Region)>, n: int) -> int
    decreases n,
{
    if n <= 0 {
        0
    } else {
        segment_count(regions, n - 1) + split_parts(regions[n - 1].0@, '/', 0).len()
    }
}

proof fn lemma_segment_count(regions: Seq<(String, modrana::Region)>, m: int, n: int)
    requires
        m <= n,
    ensures
        segment_count(regions, m) <= segment_count(regions, n),
    decreases n,
{
    if m < n && n > 0 {
        lemma_segment_count(regions, m, n - 1);
    }
}

/// Once adding regions has failed, it stays failed.
proof fn lemma_built_error(
    regions: Seq<(String, modrana::Region)>,
    m: int,
    n: int,
    ids: Seq<(Seq<char>, u32)>,
    tiles: Seq<(Seq<char>, u64)>,
)
    requires
        0 < m <= n,
        built(regions, m, ids, tiles) is Err,
    ensures
        built(regions, n, ids, tiles) == built(regions, m, ids, tiles),
    decreases n,
{
    if m < n {
        lemma_built_error(regions, m, n - 1, ids, tiles);
    }
}

/// New regions have no datasets.
proof fn lemma_grown_has_postal_paths(
    nodes: Seq<RegionView>,
    index: int,
    id: Seq<char>,
    keys: Seq<Seq<char>>,
    names: Seq<Seq<char>>,
    k: int,
    region_ids: Seq<(Seq<char>, u32)>,
)
    requires
        has_postal_paths(nodes),
        well_formed(nodes),
        0 <= index < nodes.len(),
        nodes.len() + keys.len() < usize::MAX + k,
    ensures
        grown(nodes, index, id, keys, names, k, region_ids) matches Some((tree, _)) ==> has_postal_paths(
            tree,
        ),
    decreases keys.len() - k,
{
    if 0 <= k < keys.len() && k < names.len() {
        let position = key_position(nodes[index].regions, keys[k]);
        lemma_key_position(nodes[index].regions, keys[k]);
        if position >= 0 {
            let child = nodes[index].regions[position].1 as int;
            assert(index < nodes[index].regions[position].1 < nodes.len());
            lemma_grown_has_postal_paths(nodes, child, id, keys, names, k + 1, region_ids);
        } else if let Some(absolute) = absolute_id(id, keys[k]) {
            if let Some(region_id) = lookup_in(region_ids, absolute) {
                let child = nodes.len() as usize;
                let parent = RegionView {
                    regions: nodes[index].regions.push((keys[k], child)),
                    ..nodes[index]
                };
                let added = nodes.update(index, parent).push(
                    empty_region(region_id, short_name(names[k])),
                );
                assert forall|i: int| 0 <= i < added.len() && (#[trigger] added[i]).postal_size
                    != 0 implies added[i].postal_path is Some by {
                    if i < nodes.len() {
                        assert(nodes[i].postal_size != 0 ==> nodes[i].postal_path is Some);
                    }
                }
                lemma_grown_well_formed(
                    nodes,
                    index,
                    keys[k],
                    empty_region(region_id, short_name(names[k])),
                );
                lemma_grown_has_postal_paths(
                    added,
                    child as int,
                    id,
                    keys,
                    names,
                    k + 1,
                    region_ids,
                );
            }
        }
    }
}

/// Tree with all children in reverse alphabetical order and combined sizes,
/// unless any size cannot be represented.
pub open spec fn is_finished(
    nodes: Seq<RegionView>,
    postal_global_size: u64,
    result: Result<RegionTree, BuildError>,
) -> bool {
    exists|sorted: Seq<RegionView>|
        {
            &&& #[trigger] is_sorted_tree(nodes, sorted)
            &&& match result {
                Ok(tree) => {
                    &&& sizes_fit(sorted, postal_global_size)
                    &&& tree@ == sized_tree(sorted, postal_global_size)
                    &&& well_formed(tree@)
                },
                Err(err) => {
                    &&& !sizes_fit(sorted, postal_global_size)
                    &&& err == BuildError::SizeOverflow
                },
            }
        }
}

/// Tree of all regions in the world, or the reason for rejecting the index.
///
/// The tree holds all regions of the index, with children in reverse
/// alphabetical order and combined sizes.
pub open spec fn is_world(
    modrana: &modrana::Countries,
    tile_sizes: Seq<(Seq<char>, u64)>,
    region_ids: Seq<(Seq<char>, u32)>,
    result: Result<RegionTree, BuildError>,
) -> bool {
    match parsed_u64(modrana.postal_global.postal_global.size@) {
        None => result matches Err(err) && err == BuildError::InvalidSize,
        Some(postal_global_size) => {
            match built(
                modrana.regions@,
                modrana.regions.len() as int,
                region_ids,
                tile_sizes,
            ) {
                Err(err) => result matches Err(failure) && failure == err,
                Ok(nodes) => if has_packages(nodes) {
                    is_finished(nodes, postal_global_size, result)
                } else {
                    result matches Err(failure) && failure == BuildError::MissingPackages
                },
            }
        },
    }
}

/// Get the packages of a region with their size.
fn package_sizes(region: &Region) -> (packages: Vec<(String, u64)>)
    requires
        region@.valhalla_packages.len() > 0,
    ensures
        dataset_views(packages@) == own_packages(region@),
{
    let ghost names = region@.valhalla_packages;
    let size: u64 = region.valhalla_size / region.valhalla_packages.len() as u64;
    let ghost all = names.map_values(|package: Seq<char>| (package, size));
    let mut packages: Vec<(String, u64)> = Vec::new();
    let mut i: usize = 0;
    proof {
        assert(all.take(0) =~= Seq::<Dataset>::empty());
        assert(dataset_views(packages@) =~= Seq::<Dataset>::empty());
    }
    while i < region.valhalla_packages.len()
        invariant
            i <= region.valhalla_packages.len(),
            names == views(region.valhalla_packages@),
            all == names.map_values(|package: Seq<char>| (package, size)),
            dataset_views(packages@) == merged(Seq::empty(), all.take(i as int)),
        decreases region.valhalla_packages.len() - i,
    {
        let ghost before = packages@;
        proof {
            assert(all.take(i + 1).drop_last() =~= all.take(i as int));
            assert(all.take(i + 1).last() == (names[i as int], size));
        }
        if !has_dataset(&packages, region.valhalla_packages[i].as_str(), size) {
            packages.push((region.valhalla_packages[i].clone(), size));
            proof {
                assert(dataset_views(packages@) =~= dataset_views(before).push(
                    (names[i as int], size),
                ));
            }
        }
        i += 1;
    }
    proof {
        assert(all.take(region.valhalla_packages.len() as int) =~= all);
    }
    packages
}

/// Shared datasets are counted once: merging keeps all datasets of both lists
/// and never holds any of them twice.
pub proof fn law_datasets_counted_once(a: Seq<Dataset>, b: Seq<Dataset>)
    requires
        a.no_duplicates(),
    ensures
        merged(a, b).no_duplicates(),
        forall|dataset: Dataset|
            merged(a, b).contains(dataset) <==> a.contains(dataset) || b.contains(dataset),
    decreases b.len(),
{
    if b.len() > 0 {
        let rest = b.drop_last();
        law_datasets_counted_once(a, rest);
        let list = merged(a, rest);
        assert(b =~= rest.push(b.last()));
        assert forall|dataset: Dataset|
            merged(a, b).contains(dataset) <==> a.contains(dataset) || b.contains(dataset) by {
            assert(b.contains(dataset) <==> rest.contains(dataset) || dataset == b.last()) by {
                if b.contains(dataset) {
                    let i = choose|i: int| 0 <= i < b.len() && b[i] == dataset;
                    if i < rest.len() {
                        assert(rest[i] == dataset);
                    }
                }
                if rest.contains(dataset) {
                    let i = choose|i: int| 0 <= i < rest.len() && rest[i] == dataset;
                    assert(b[i] == dataset);
                }
                assert(b[b.len() - 1] == b.last());
            }
            if !list.contains(b.last()) {
                let longer = list.push(b.last());
                if longer.contains(dataset) {
                    let i = choose|i: int| 0 <= i < longer.len() && longer[i] == dataset;
                    if i < list.len() {
                        assert(list[i] == dataset);
                    }
                }
                if list.contains(dataset) {
                    let i = choose|i: int| 0 <= i < list.len() && list[i] == dataset;
                    assert(longer[i] == dataset);
                }
                assert(longer[longer.len() - 1] == b.last());
            }
        }
    }
}

/// The complete size of a region includes each of its own sizes and the global
/// postal data.
pub proof fn law_storage_includes_parts(nodes: Seq<RegionView>, index: int, postal_global_size: u64)
    requires
        well_formed(nodes),
        0 <= index < nodes.len(),
    ensures
        storage_total(nodes, index, postal_global_size) >= nodes[index].geocoder_size
            + nodes[index].valhalla_size + nodes[index].postal_size + nodes[index].tiles_size
            + postal_global_size,
{
    lemma_parts_of_storage(nodes, index, postal_global_size);
    lemma_child_tiles_total(nodes, index, 0, nodes[index].regions.len() as int);
    if nodes[index].postal_size != 0 {
        let own = seq![(nodes[index].postal_path->0, nodes[index].postal_size)];
        assert(own.drop_last() =~= Seq::<Dataset>::empty());
        assert(datasets_size(own.drop_last()) == 0);
        assert(datasets_size(own) == nodes[index].postal_size);
    }
}

/// Geocoder and tile sizes of regions without data of their own are the sum of
/// those of their children, and data of their own replaces that of the children.
pub proof fn law_children_sizes_add_up(nodes: Seq<RegionView>, index: int, n: int)
    requires
        well_formed(nodes),
        0 <= index < nodes.len(),
        0 <= n < nodes[index].regions.len(),
    ensures
        ({
            let child = nodes[index].regions[n].1 as int;
            let count = nodes[index].regions.len() as int;
            &&& child_geocoder_total(nodes, index, n + 1) == child_geocoder_total(nodes, index, n)
                + geocoder_total(nodes, child)
            &&& child_tiles_total(nodes, index, n + 1) == child_tiles_total(nodes, index, n)
                + tiles_total(nodes, child)
            &&& child_geocoder_total(nodes, index, 0) == 0 && child_tiles_total(nodes, index, 0)
                == 0
            &&& geocoder_total(nodes, index) == (if nodes[index].geocoder_size != 0 {
                nodes[index].geocoder_size as int
            } else {
                child_geocoder_total(nodes, index, count)
            })
            &&& nodes[index].tiles_url is Some ==> tiles_total(nodes, index)
                == nodes[index].tiles_size
            &&& nodes[index].tiles_url is None ==> tiles_total(nodes, index)
                == nodes[index].tiles_size + child_tiles_total(nodes, index, count)
        }),
{
    assert(index < nodes[index].regions[n].1 < nodes.len());
}

proof fn lemma_child_datasets(nodes: Seq<RegionView>, index: int, n: int)
    requires
        well_formed(nodes),
        0 <= index < nodes.len(),
        0 <= n <= nodes[index].regions.len(),
    ensures
        child_postal_datasets(nodes, index, n).no_duplicates(),
        child_package_datasets(nodes, index, n).no_duplicates(),
        forall|dataset: Dataset|
            #[trigger] child_postal_datasets(nodes, index, n).contains(dataset) <==> exists|k: int|
                0 <= k < n && postal_datasets(
                    nodes,
                    (#[trigger] nodes[index].regions[k]).1 as int,
                ).contains(dataset),
        forall|dataset: Dataset|
            #[trigger] child_package_datasets(nodes, index, n).contains(dataset) <==> exists|k: int|
                0 <= k < n && package_datasets(
                    nodes,
                    (#[trigger] nodes[index].regions[k]).1 as int,
                ).contains(dataset),
    decreases n,
{
    if n > 0 {
        lemma_child_datasets(nodes, index, n - 1);
        assert(index < nodes[index].regions[n - 1].1 < nodes.len());
        let child = nodes[index].regions[n - 1].1 as int;
        law_datasets_counted_once(
            child_postal_datasets(nodes, index, n - 1),
            postal_datasets(nodes, child),
        );
        law_datasets_counted_once(
            child_package_datasets(nodes, index, n - 1),
            package_datasets(nodes, child),
        );
        assert forall|dataset: Dataset| #[trigger]
            child_postal_datasets(nodes, index, n).contains(dataset) <==> exists|k: int|
            0 <= k < n && postal_datasets(
                nodes,
                (#[trigger] nodes[index].regions[k]).1 as int,
            ).contains(dataset) by {
            if postal_datasets(nodes, child).contains(dataset) {
                assert(nodes[index].regions[n - 1].1 as int == child);
            }
            if child_postal_datasets(nodes, index, n - 1).contains(dataset) {
                let k = choose|k: int|
                    0 <= k < n - 1 && postal_datasets(
                        nodes,
                        (#[trigger] nodes[index].regions[k]).1 as int,
                    ).contains(dataset);
                assert(postal_datasets(nodes, nodes[index].regions[k].1 as int).contains(dataset));
            }
        }
        assert forall|dataset: Dataset| #[trigger]
            child_package_datasets(nodes, index, n).contains(dataset) <==> exists|k: int|
            0 <= k < n && package_datasets(
                nodes,
                (#[trigger] nodes[index].regions[k]).1 as int,
            ).contains(dataset) by {
            if package_datasets(nodes, child).contains(dataset) {
                assert(nodes[index].regions[n - 1].1 as int == child);
            }
            if child_package_datasets(nodes, index, n - 1).contains(dataset) {
                let k = choose|k: int|
                    0 <= k < n - 1 && package_datasets(
                        nodes,
                        (#[trigger] nodes[index].regions[k]).1 as int,
                    ).contains(dataset);
                assert(package_datasets(nodes, nodes[index].regions[k].1 as int).contains(dataset));
            }
        }
    }
}

/// Regions without postal data or packages of their own need exactly the datasets
/// of their children, each of them once.
pub proof fn law_regions_need_datasets_of_children(
    nodes: Seq<RegionView>,
    index: int,
    dataset: Dataset,
)
    requires
        well_formed(nodes),
        0 <= index < nodes.len(),
    ensures
        nodes[index].postal_size == 0 ==> postal_datasets(nodes, index).no_duplicates() && (
        postal_datasets(nodes, index).contains(dataset) <==> exists|k: int|
            0 <= k < nodes[index].regions.len() && postal_datasets(
                nodes,
                (#[trigger] nodes[index].regions[k]).1 as int,
            ).contains(dataset)),
        nodes[index].valhalla_size == 0 ==> package_datasets(nodes, index).no_duplicates() && (
        package_datasets(nodes, index).contains(dataset) <==> exists|k: int|
            0 <= k < nodes[index].regions.len() && package_datasets(
                nodes,
                (#[trigger] nodes[index].regions[k]).1 as int,
            ).contains(dataset)),
        nodes[index].postal_size != 0 ==> postal_datasets(nodes, index) == seq![
            (nodes[index].postal_path->0, nodes[index].postal_size),
        ],
{
    lemma_child_datasets(nodes, index, nodes[index].regions.len() as int);
}

/// The packages of a region share its size evenly, and each of them counts once.
pub proof fn law_packages_share_size(region: RegionView, package: Seq<char>)
    requires
        region.valhalla_packages.len() > 0,
    ensures
        ({
            let size = (region.valhalla_size as int / region.valhalla_packages.len() as int) as u64;
            &&& own_packages(region).no_duplicates()
            &&& own_packages(region).contains((package, size))
                <==> region.valhalla_packages.contains(package)
            &&& size * region.valhalla_packages.len() <= region.valhalla_size
        }),
{
    let count = region.valhalla_packages.len() as int;
    let quotient = region.valhalla_size as int / count;
    vstd::arithmetic::div_mod::lemma_fundamental_div_mod(region.valhalla_size as int, count);
    vstd::arithmetic::div_mod::lemma_mod_bound(region.valhalla_size as int, count);
    vstd::arithmetic::div_mod::lemma_div_pos_is_pos(region.valhalla_size as int, count);
    assert(quotient <= region.valhalla_size) by (nonlinear_arith)
        requires
            region.valhalla_size == count * quotient + region.valhalla_size as int % count,
            0 <= region.valhalla_size as int % count,
            count >= 1,
            quotient >= 0,
    ;
    let size = quotient as u64;
    assert(size * count <= region.valhalla_size) by (nonlinear_arith)
        requires
            region.valhalla_size == count * quotient + region.valhalla_size as int % count,
            0 <= region.valhalla_size as int % count,
            size == quotient,
    ;
    let all = region.valhalla_packages.map_values(|package: Seq<char>| (package, size));
    law_datasets_counted_once(Seq::empty(), all);
    if region.valhalla_packages.contains(package) {
        let i = choose|i: int|
            0 <= i < region.valhalla_packages.len() && region.valhalla_packages[i] == package;
        assert(all[i] == (package, size));
    }
    if all.contains((package, size)) {
        let i = choose|i: int| 0 <= i < all.len() && all[i] == (package, size);
        assert(region.valhalla_packages[i] == package);
    }
}

/// Every dataset adds its size once.
pub proof fn law_dataset_sizes_add_up(list: Seq<Dataset>, dataset: Dataset)
    ensures
        datasets_size(list.push(dataset)) == datasets_size(list) + dataset.1,
        datasets_size(Seq::<Dataset>::empty()) == 0,
{
    assert(list.push(dataset).drop_last() =~= list);
}

/// In the finished tree, the storage size of every region is the sum of its other
/// sizes and the global postal data. Nothing but sizes is changed.
pub proof fn law_storage_size_is_sum(nodes: Seq<RegionView>, i: int, postal_global_size: u64)
    requires
        well_formed(nodes),
        sizes_fit(nodes, postal_global_size),
        0 <= i < nodes.len(),
    ensures
        ({
            let region = sized_tree(nodes, postal_global_size)[i];
            &&& sized_tree(nodes, postal_global_size).len() == nodes.len()
            &&& region.storage_size == region.geocoder_size + region.valhalla_size
                + region.postal_size + region.tiles_size + postal_global_size
            &&& region.id == nodes[i].id && region.name == nodes[i].name
            &&& region.regions == nodes[i].regions
            &&& region.geocoder_path == nodes[i].geocoder_path
            &&& region.postal_path == nodes[i].postal_path
            &&& region.tiles_url == nodes[i].tiles_url
            &&& region.valhalla_packages == nodes[i].valhalla_packages
            &&& nodes[i].geocoder_size != 0 ==> region.geocoder_size == nodes[i].geocoder_size
            &&& nodes[i].valhalla_size != 0 ==> region.valhalla_size == nodes[i].valhalla_size
            &&& nodes[i].postal_size != 0 ==> region.postal_size == nodes[i].postal_size
        }),
{
    lemma_parts_of_storage(nodes, i, postal_global_size);
    assert(storage_total(nodes, i, postal_global_size) <= u64::MAX);
    if nodes[i].postal_size != 0 {
        let own = seq![(nodes[i].postal_path->0, nodes[i].postal_size)];
        assert(own.drop_last() =~= Seq::<Dataset>::empty());
        assert(datasets_size(own.drop_last()) == 0);
    }
}

/// Sorting keeps all children of a region, and only changes their order.
pub proof fn law_sorting_keeps_children(
    nodes: Seq<RegionView>,
    sorted: Seq<RegionView>,
    i: int,
    child: (Seq<char>, usize),
)
    requires
        is_sorted_tree(nodes, sorted),
        0 <= i < nodes.len(),
    ensures
        sorted.len() == nodes.len(),
        sorted[i].regions.len() == nodes[i].regions.len(),
        sorted[i].regions.contains(child) <==> nodes[i].regions.contains(child),
        sorted[i].id == nodes[i].id && sorted[i].name == nodes[i].name,
        sorted[i].geocoder_path == nodes[i].geocoder_path,
        sorted[i].valhalla_packages == nodes[i].valhalla_packages,
{
    assert(sorted[i] == RegionView { regions: sorted[i].regions, ..nodes[i] });
    sorted[i].regions.to_multiset_ensures();
    nodes[i].regions.to_multiset_ensures();
    assert(sorted[i].regions.to_multiset().count(child) == nodes[i].regions.to_multiset().count(
        child,
    ));
    assert(sorted[i].regions.to_multiset().len() == nodes[i].regions.to_multiset().len());
}

/// A key has a value exactly if it is in the table, which is that of its last
/// entry.
pub proof fn law_last_entry_counts<T>(list: Seq<(Seq<char>, T)>, key: Seq<char>, i: int)
    ensures
        0 <= i < list.len() && list[i].0 == key && (forall|j: int|
            i < j < list.len() ==> (#[trigger] list[j]).0 != key) ==> lookup_in(list, key) == Some(
            list[i].1,
        ),
        (forall|j: int| 0 <= j < list.len() ==> (#[trigger] list[j]).0 != key) ==> lookup_in(
            list,
            key,
        ) is None,
    decreases list.len(),
{
    if list.len() > 0 {
        let rest = list.drop_last();
        assert forall|j: int| 0 <= j < rest.len() implies #[trigger] rest[j] == list[j] by {}
        law_last_entry_counts(rest, key, i);
    }
}

/// Russian regions lose the continent in front of their name, all other names
/// stay the same.
pub proof fn law_russian_names_are_stripped(rest: Seq<char>, name: Seq<char>)
    ensures
        index_name("Europe/Russian Federation"@ + rest) == "Russian Federation"@ + rest,
        !starts_with(name, "Europe/Russian Federation"@) ==> index_name(name) == name,
{
    reveal_strlit("Europe/Russian Federation");
    reveal_strlit("Russian Federation");
    let full = "Europe/Russian Federation"@ + rest;
    assert(full.take(25) =~= "Europe/Russian Federation"@);
    assert("Europe/Russian Federation"@.skip(7) =~= "Russian Federation"@);
    assert(full.skip(7) =~= "Europe/Russian Federation"@.skip(7) + rest);
}

/// Names end in front of their first parenthesis.
pub proof fn law_names_end_before_parenthesis(name: Seq<char>)
    ensures
        ({
            let short = short_name(name);
            &&& short.len() <= name.len() && name.take(short.len() as int) == short
            &&& !short.contains('(')
            &&& short.len() < name.len() ==> name[short.len() as int] == '('
        }),
{
    law_next_position(name, '(', 0);
}

/// The ID of a parent region is the part of the ID up to its segment.
pub proof fn law_parent_id_ends_with_segment(id: Seq<char>, segment: Seq<char>)
    ensures
        absolute_id(id, segment) matches Some(absolute) ==> {
            &&& segment.len() <= absolute.len() <= id.len()
            &&& id.take(absolute.len() as int) == absolute
            &&& absolute.skip(absolute.len() - segment.len()) == segment
        },
{
    law_first_occurrence(id, segment, 0);
    if let Some(absolute) = absolute_id(id, segment) {
        let position = absolute.len() - segment.len();
        assert(absolute.skip(position) =~= id.subrange(position, position + segment.len()));
        assert(id.take(absolute.len() as int) =~= absolute);
    }
}

/// Region reached by following some keys.
pub open spec fn followed(
    nodes: Seq<RegionView>,
    index: int,
    keys: Seq<Seq<char>>,
    k: int,
    n: int,
) -> Option<int>
    decreases n - k,
{
    if k >= n {
        Some(index)
    } else {
        let position = key_position(nodes[index].regions, keys[k]);
        if position < 0 {
            None
        } else {
            followed(nodes, nodes[index].regions[position].1 as int, keys, k + 1, n)
        }
    }
}

/// Growing a path below a region never changes the regions in front of it, and
/// keeps everything but the children of all other regions.
proof fn lemma_grown_keeps_regions(
    nodes: Seq<RegionView>,
    index: int,
    id: Seq<char>,
    keys: Seq<Seq<char>>,
    names: Seq<Seq<char>>,
    k: int,
    region_ids: Seq<(Seq<char>, u32)>,
)
    requires
        well_formed(nodes),
        0 <= index < nodes.len(),
        0 <= k,
        nodes.len() + keys.len() < usize::MAX + k,
    ensures
        grown(nodes, index, id, keys, names, k, region_ids) matches Some((tree, end)) ==> {
            &&& nodes.len() <= tree.len()
            &&& forall|i: int| 0 <= i < index ==> #[trigger] tree[i] == nodes[i]
            &&& forall|i: int|
                0 <= i < nodes.len() ==> #[trigger] tree[i] == RegionView {
                    regions: tree[i].regions,
                    ..nodes[i]
                }
            &&& forall|i: int|
                0 <= i < nodes.len() ==> nodes[i].regions.len() <= (#[trigger] tree[i]).regions.len()
                    && tree[i].regions.take(nodes[i].regions.len() as int) == nodes[i].regions
        },
    decreases keys.len() - k,
{
    if k < keys.len() && k < names.len() {
        let position = key_position(nodes[index].regions, keys[k]);
        lemma_key_position(nodes[index].regions, keys[k]);
        if position >= 0 {
            assert(index < nodes[index].regions[position].1 < nodes.len());
            let child = nodes[index].regions[position].1 as int;
            lemma_grown_keeps_regions(nodes, child, id, keys, names, k + 1, region_ids);
        } else if let Some(absolute) = absolute_id(id, keys[k]) {
            if let Some(region_id) = lookup_in(region_ids, absolute) {
                let child = nodes.len() as usize;
                let parent = RegionView {
                    regions: nodes[index].regions.push((keys[k], child)),
                    ..nodes[index]
                };
                let region = empty_region(region_id, short_name(names[k]));
                let added = nodes.update(index, parent).push(region);
                lemma_grown_well_formed(nodes, index, keys[k], region);
                lemma_grown_keeps_regions(added, child as int, id, keys, names, k + 1, region_ids);
                if let Some((tree, end)) = grown(nodes, index, id, keys, names, k, region_ids) {
                    assert forall|i: int| 0 <= i < nodes.len() implies #[trigger] tree[i]
                        == added[i] by {}
                    assert(parent.regions.take(nodes[index].regions.len() as int)
                        =~= nodes[index].regions);
                    assert forall|i: int| 0 <= i < nodes.len() implies nodes[i].regions.len() <= (
                    #[trigger] tree[i]).regions.len() && tree[i].regions.take(
                        nodes[i].regions.len() as int,
                    ) == nodes[i].regions by {
                        if i != index {
                            assert(nodes[i].regions.take(nodes[i].regions.len() as int)
                                =~= nodes[i].regions);
                        }
                    }
                }
            }
        }
    } else {
        assert forall|i: int| 0 <= i < nodes.len() implies (#[trigger] nodes[i]).regions.take(
            nodes[i].regions.len() as int,
        ) == nodes[i].regions by {
            assert(nodes[i].regions.take(nodes[i].regions.len() as int) =~= nodes[i].regions);
        }
    }
}

/// Regions are added below their parents: following the segments of an ID leads
/// to its region. All regions which existed before are kept, with all of their
/// children.
pub proof fn law_regions_are_found_by_id(
    nodes: Seq<RegionView>,
    index: int,
    id: Seq<char>,
    keys: Seq<Seq<char>>,
    names: Seq<Seq<char>>,
    k: int,
    region_ids: Seq<(Seq<char>, u32)>,
)
    requires
        well_formed(nodes),
        0 <= index < nodes.len(),
        0 <= k,
        nodes.len() + keys.len() < usize::MAX + k,
    ensures
        grown(nodes, index, id, keys, names, k, region_ids) matches Some((tree, end)) ==> {
            &&& followed(
                tree,
                index,
                keys,
                k,
                if keys.len() < names.len() {
                    keys.len() as int
                } else {
                    names.len() as int
                },
            ) == Some(end)
            &&& nodes.len() <= tree.len()
            &&& forall|i: int|
                0 <= i < nodes.len() ==> {
                    &&& (#[trigger] tree[i]).id == nodes[i].id && tree[i].name == nodes[i].name
                    &&& tree[i].geocoder_path == nodes[i].geocoder_path
                    &&& tree[i].valhalla_packages == nodes[i].valhalla_packages
                    &&& nodes[i].regions.len() <= tree[i].regions.len()
                    &&& tree[i].regions.take(nodes[i].regions.len() as int) == nodes[i].regions
                }
        },
    decreases keys.len() - k,
{
    lemma_grown_keeps_regions(nodes, index, id, keys, names, k, region_ids);
    if let Some((tree, end)) = grown(nodes, index, id, keys, names, k, region_ids) {
        assert forall|i: int| 0 <= i < nodes.len() implies {
            &&& (#[trigger] tree[i]).id == nodes[i].id && tree[i].name == nodes[i].name
            &&& tree[i].geocoder_path == nodes[i].geocoder_path
            &&& tree[i].valhalla_packages == nodes[i].valhalla_packages
        } by {
            assert(tree[i] == RegionView { regions: tree[i].regions, ..nodes[i] });
        }
        if k < keys.len() && k < names.len() {
            let position = key_position(nodes[index].regions, keys[k]);
            lemma_key_position(nodes[index].regions, keys[k]);
            if position >= 0 {
                assert(index < nodes[index].regions[position].1 < nodes.len());
                let child = nodes[index].regions[position].1 as int;
                law_regions_are_found_by_id(nodes, child, id, keys, names, k + 1, region_ids);
                lemma_grown_keeps_regions(nodes, child, id, keys, names, k + 1, region_ids);
                assert(tree[index] == nodes[index]);
            } else {
                let region_id = lookup_in(region_ids, absolute_id(id, keys[k])->0)->0;
                let child = nodes.len() as usize;
                let parent = RegionView {
                    regions: nodes[index].regions.push((keys[k], child)),
                    ..nodes[index]
                };
                let region = empty_region(region_id, short_name(names[k]));
                let added = nodes.update(index, parent).push(region);
                lemma_grown_well_formed(nodes, index, keys[k], region);
                law_regions_are_found_by_id(
                    added,
                    child as int,
                    id,
                    keys,
                    names,
                    k + 1,
                    region_ids,
                );
                lemma_grown_keeps_regions(
                    added,
                    child as int,
                    id,
                    keys,
                    names,
                    k + 1,
                    region_ids,
                );
                assert(tree[index] == added[index]);
                assert(tree[index].regions.last() == (keys[k], child));
            }
        }
    }
}

/// A region takes all of its data from the index, and its tiles from the archive
/// server if there are any. Only invalid sizes are rejected.
pub proof fn law_region_has_data_of_index(
    region: RegionView,
    id: Seq<char>,
    data: modrana::Region,
    tile_sizes: Seq<(Seq<char>, u64)>,
)
    ensures
        ({
            let geocoder_size = parsed_u64(data.geocoder_nlp.size@);
            let valhalla_size = parsed_u64(data.valhalla.size@);
            let postal_size = parsed_u64(data.postal_country.size@);
            let tile_size = lookup_in(tile_sizes, id);
            match filled(region, id, data, tile_sizes) {
                Ok(after) => {
                    &&& geocoder_size == Some(after.geocoder_size)
                    &&& valhalla_size == Some(after.valhalla_size)
                    &&& postal_size == Some(after.postal_size)
                    &&& after.geocoder_path == Some(data.geocoder_nlp.path@)
                    &&& after.postal_path == Some(data.postal_country.path@)
                    &&& after.valhalla_packages == views(data.valhalla.packages@)
                    &&& tile_size matches Some(size) ==> after.tiles_size == region.tiles_size
                        + size && after.tiles_url == Some(
                        "https://catacombing.org/tiles/"@ + id + "/tiles.tar.gz"@,
                    )
                    &&& tile_size is None ==> after.tiles_size == region.tiles_size
                        && after.tiles_url == region.tiles_url
                    &&& after.id == region.id && after.name == region.name && after.regions
                        == region.regions
                },
                Err(err) => {
                    &&& err == BuildError::InvalidSize <==> geocoder_size is None
                        || valhalla_size is None || postal_size is None
                    &&& err != BuildError::InvalidSize ==> err == BuildError::SizeOverflow
                        && tile_size is Some && region.tiles_size + tile_size->0 > u64::MAX
                },
            }
        }),
{
    reveal_strlit("https://catacombing.org/tiles");
    reveal_strlit("https://catacombing.org/tiles/");
    reveal_strlit("/");
    reveal_strlit("tiles.tar.gz");
    reveal_strlit("/tiles.tar.gz");
    assert("https://catacombing.org/tiles"@ + "/"@ =~= "https://catacombing.org/tiles/"@);
    assert("/"@ + "tiles.tar.gz"@ =~= "/tiles.tar.gz"@);
    assert(slash(slash(TILE_URL_BASE@, id), "tiles.tar.gz"@) =~= ("https://catacombing.org/tiles"@
        + "/"@) + id + ("/"@ + "tiles.tar.gz"@));
}

/// A child stays at its position.
pub open spec fn child_kept(
    nodes: Seq<RegionView>,
    tree: Seq<RegionView>,
    i: int,
    key: Seq<char>,
) -> bool {
    let position = key_position(nodes[i].regions, key);
    position >= 0 ==> {
        &&& key_position(tree[i].regions, key) == position
        &&& tree[i].regions[position] == nodes[i].regions[position]
    }
}

/// All regions of a tree keep their position, children, and paths.
pub open spec fn extends(nodes: Seq<RegionView>, tree: Seq<RegionView>) -> bool {
    &&& nodes.len() <= tree.len()
    &&& forall|i: int, key: Seq<char>|
        0 <= i < nodes.len() ==> #[trigger] child_kept(nodes, tree, i, key)
    &&& forall|i: int|
        0 <= i < nodes.len() ==> (nodes[i].geocoder_path is Some ==> (
        #[trigger] tree[i]).geocoder_path is Some)
}

/// A region has the ID of one of the segments of a path, and its name without
/// anything in parentheses.
pub open spec fn is_region_of_path(
    region: RegionView,
    id: Seq<char>,
    keys: Seq<Seq<char>>,
    names: Seq<Seq<char>>,
    region_ids: Seq<(Seq<char>, u32)>,
) -> bool {
    exists|k: int|
        {
            &&& 0 <= k < keys.len() && k < names.len()
            &&& absolute_id(id, #[trigger] keys[k]) is Some
            &&& lookup_in(region_ids, absolute_id(id, keys[k])->0) == Some(region.id)
            &&& region.name == short_name(names[k])
        }
}

proof fn lemma_extends_transitive(
    a: Seq<RegionView>,
    b: Seq<RegionView>,
    c: Seq<RegionView>,
)
    requires
        extends(a, b),
        extends(b, c),
    ensures
        extends(a, c),
{
    assert forall|i: int, key: Seq<char>| 0 <= i < a.len() implies #[trigger] child_kept(
        a,
        c,
        i,
        key,
    ) by {
        assert(child_kept(a, b, i, key));
        assert(child_kept(b, c, i, key));
    }
    assert forall|i: int| 0 <= i < a.len() && a[i].geocoder_path is Some implies (
    #[trigger] c[i]).geocoder_path is Some by {
        assert(b[i].geocoder_path is Some);
    }
}

/// Growing a tree keeps all of its regions, and only adds regions of the path.
pub proof fn law_growing_keeps_regions(
    nodes: Seq<RegionView>,
    index: int,
    id: Seq<char>,
    keys: Seq<Seq<char>>,
    names: Seq<Seq<char>>,
    k: int,
    region_ids: Seq<(Seq<char>, u32)>,
)
    requires
        well_formed(nodes),
        0 <= index < nodes.len(),
        0 <= k <= keys.len(),
        nodes.len() + keys.len() < usize::MAX + k,
    ensures
        grown(nodes, index, id, keys, names, k, region_ids) matches Some((tree, end)) ==> {
            &&& well_formed(tree)
            &&& 0 <= end < tree.len() <= nodes.len() + keys.len() - k
            &&& extends(nodes, tree)
            &&& forall|i: int|
                nodes.len() <= i < tree.len() ==> is_region_of_path(
                    #[trigger] tree[i],
                    id,
                    keys,
                    names,
                    region_ids,
                )
        },
    decreases keys.len() - k,
{
    if k < keys.len() && k < names.len() {
        let children = nodes[index].regions;
        let position = key_position(children, keys[k]);
        lemma_key_position(children, keys[k]);
        if position >= 0 {
            assert(index < nodes[index].regions[position].1 < nodes.len());
            let child = nodes[index].regions[position].1 as int;
            law_growing_keeps_regions(nodes, child, id, keys, names, k + 1, region_ids);
        } else if let Some(absolute) = absolute_id(id, keys[k]) {
            if let Some(region_id) = lookup_in(region_ids, absolute) {
                let child = nodes.len() as usize;
                let parent = RegionView { regions: children.push((keys[k], child)), ..nodes[index] };
                let region = empty_region(region_id, short_name(names[k]));
                let added = nodes.update(index, parent).push(region);
                lemma_grown_well_formed(nodes, index, keys[k], region);
                assert forall|i: int, key: Seq<char>|
                    0 <= i < nodes.len() implies #[trigger] child_kept(nodes, added, i, key) by {
                    lemma_key_position(nodes[i].regions, key);
                    if i == index {
                        assert(parent.regions.drop_last() =~= children);
                    }
                }
                assert(extends(nodes, added));
                law_growing_keeps_regions(
                    added,
                    child as int,
                    id,
                    keys,
                    names,
                    k + 1,
                    region_ids,
                );
                lemma_grown_keeps_regions(
                    added,
                    child as int,
                    id,
                    keys,
                    names,
                    k + 1,
                    region_ids,
                );
                if let Some((tree, end)) = grown(nodes, index, id, keys, names, k, region_ids) {
                    lemma_extends_transitive(nodes, added, tree);
                    assert(tree[child as int] == RegionView {
                        regions: tree[child as int].regions,
                        ..region
                    });
                    assert(absolute_id(id, keys[k]) is Some);
                    assert(is_region_of_path(tree[child as int], id, keys, names, region_ids));
                    assert forall|i: int|
                        nodes.len() <= i < tree.len() implies is_region_of_path(
                        #[trigger] tree[i],
                        id,
                        keys,
                        names,
                        region_ids,
                    ) by {
                        if i > child {
                            assert(added.len() <= i);
                        }
                    }
                }
            }
        }
    }
}

/// Paths of a tree lead to the same regions after adding more of them.
proof fn lemma_followed_kept(
    nodes: Seq<RegionView>,
    tree: Seq<RegionView>,
    index: int,
    keys: Seq<Seq<char>>,
    k: int,
    n: int,
)
    requires
        well_formed(nodes),
        extends(nodes, tree),
        0 <= index < nodes.len(),
    ensures
        followed(nodes, index, keys, k, n) matches Some(end) ==> {
            &&& 0 <= end < nodes.len()
            &&& followed(tree, index, keys, k, n) == Some(end)
        },
    decreases n - k,
{
    if k < n {
        let position = key_position(nodes[index].regions, keys[k]);
        lemma_key_position(nodes[index].regions, keys[k]);
        if position >= 0 {
            assert(index < nodes[index].regions[position].1 < nodes.len());
            assert(child_kept(nodes, tree, index, keys[k]));
            let child = nodes[index].regions[position].1 as int;
            lemma_followed_kept(nodes, tree, child, keys, k + 1, n);
        }
    }
}

/// Number of segments which a region's ID has in common with its name.
pub open spec fn depth(id: Seq<char>, data: modrana::Region) -> int {
    let keys = split_parts(id, '/', 0).len() as int;
    let names = split_parts(index_name(data.name@), '/', 0).len() as int;
    if keys < names {
        keys
    } else {
        names
    }
}

/// Adding a region of the index keeps all other regions. The segments of its ID lead
/// to the region, which has its data.
pub proof fn law_placed_region_is_found(
    nodes: Seq<RegionView>,
    id: Seq<char>,
    data: modrana::Region,
    region_ids: Seq<(Seq<char>, u32)>,
    tile_sizes: Seq<(Seq<char>, u64)>,
)
    requires
        well_formed(nodes),
        nodes.len() + split_parts(id, '/', 0).len() < usize::MAX,
    ensures
        placed(nodes, id, data, region_ids, tile_sizes) matches Ok(tree) ==> {
            let end = followed(tree, 0, split_parts(id, '/', 0), 0, depth(id, data));
            &&& well_formed(tree)
            &&& tree.len() <= nodes.len() + split_parts(id, '/', 0).len()
            &&& extends(nodes, tree)
            &&& end is Some && 0 <= end->0 < tree.len()
            &&& tree[end->0].geocoder_path == Some(data.geocoder_nlp.path@)
            &&& tree[end->0].postal_path == Some(data.postal_country.path@)
            &&& tree[end->0].valhalla_packages == views(data.valhalla.packages@)
        },
{
    let keys = split_parts(id, '/', 0);
    let names = split_parts(index_name(data.name@), '/', 0);
    law_growing_keeps_regions(nodes, 0, id, keys, names, 0, region_ids);
    law_regions_are_found_by_id(nodes, 0, id, keys, names, 0, region_ids);
    if let Ok(tree) = placed(nodes, id, data, region_ids, tile_sizes) {
        let (before, end) = grown(nodes, 0, id, keys, names, 0, region_ids)->0;
        let region = filled(before[end], id, data, tile_sizes)->Ok_0;
        assert(tree == before.update(end, region));
        assert forall|i: int| 0 <= i < tree.len() implies (#[trigger] tree[i]).regions
            == before[i].regions by {}
        assert forall|i: int, k: int|
            0 <= i < tree.len() && 0 <= k < tree[i].regions.len() implies i < (
        #[trigger] tree[i].regions[k]).1 < tree.len() by {
            assert(i < before[i].regions[k].1 < before.len());
        }
        assert forall|i: int, key: Seq<char>|
            0 <= i < before.len() implies #[trigger] child_kept(before, tree, i, key) by {
            assert(tree[i].regions == before[i].regions);
        }
        assert(extends(before, tree));
        lemma_extends_transitive(nodes, before, tree);
        lemma_followed_kept(before, tree, 0, keys, 0, depth(id, data));
    }
}

proof fn lemma_built_well_formed(
    regions: Seq<(String, modrana::Region)>,
    n: int,
    region_ids: Seq<(Seq<char>, u32)>,
    tile_sizes: Seq<(Seq<char>, u64)>,
)
    requires
        0 <= n <= regions.len(),
        segment_count(regions, n) + 1 < usize::MAX,
    ensures
        built(regions, n, region_ids, tile_sizes) matches Ok(nodes) ==> {
            &&& well_formed(nodes)
            &&& nodes.len() <= 1 + segment_count(regions, n)
        },
    decreases n,
{
    if n > 0 {
        lemma_segment_count(regions, n - 1, n);
        lemma_built_well_formed(regions, n - 1, region_ids, tile_sizes);
        if let Ok(nodes) = built(regions, n - 1, region_ids, tile_sizes) {
            let (id, data) = (regions[n - 1].0@, regions[n - 1].1);
            law_placed_region_is_found(nodes, id, data, region_ids, tile_sizes);
        }
    }
}

/// Every region of the index is part of the tree: the segments of its ID lead to a
/// region with data.
pub proof fn law_all_regions_are_found(
    regions: Seq<(String, modrana::Region)>,
    n: int,
    m: int,
    region_ids: Seq<(Seq<char>, u32)>,
    tile_sizes: Seq<(Seq<char>, u64)>,
)
    requires
        0 <= m < n <= regions.len(),
        segment_count(regions, n) + 1 < usize::MAX,
    ensures
        built(regions, n, region_ids, tile_sizes) matches Ok(nodes) ==> {
            let (id, data) = (regions[m].0@, regions[m].1);
            let end = followed(nodes, 0, split_parts(id, '/', 0), 0, depth(id, data));
            &&& end is Some && 0 <= end->0 < nodes.len()
            &&& nodes[end->0].geocoder_path is Some
        },
    decreases n,
{
    lemma_segment_count(regions, n - 1, n);
    lemma_built_well_formed(regions, n - 1, region_ids, tile_sizes);
    if let Ok(tree) = built(regions, n, region_ids, tile_sizes) {
        let nodes = built(regions, n - 1, region_ids, tile_sizes)->Ok_0;
        law_placed_region_is_found(
            nodes,
            regions[n - 1].0@,
            regions[n - 1].1,
            region_ids,
            tile_sizes,
        );
        if m < n - 1 {
            let (id, data) = (regions[m].0@, regions[m].1);
            law_all_regions_are_found(regions, n - 1, m, region_ids, tile_sizes);
            lemma_followed_kept(nodes, tree, 0, split_parts(id, '/', 0), 0, depth(id, data));
        }
    }
}

/// The finished tree has all regions, with the same children in reverse order. Their
/// storage size is the sum of all their other sizes and the global postal data.
pub proof fn law_finished_tree_has_all_regions(
    nodes: Seq<RegionView>,
    postal_global_size: u64,
    tree: RegionTree,
    i: int,
    child: (Seq<char>, usize),
)
    requires
        well_formed(nodes),
        is_finished(nodes, postal_global_size, Ok(tree)),
        0 <= i < nodes.len(),
    ensures
        ({
            let region = tree@[i];
            &&& tree@.len() == nodes.len()
            &&& region.id == nodes[i].id && region.name == nodes[i].name
            &&& region.geocoder_path == nodes[i].geocoder_path
            &&& region.postal_path == nodes[i].postal_path
            &&& region.tiles_url == nodes[i].tiles_url
            &&& region.valhalla_packages == nodes[i].valhalla_packages
            &&& region.regions.contains(child) <==> nodes[i].regions.contains(child)
            &&& descending(region.regions)
            &&& region.storage_size == region.geocoder_size + region.valhalla_size
                + region.postal_size + region.tiles_size + postal_global_size
            &&& nodes[i].geocoder_size != 0 ==> region.geocoder_size == nodes[i].geocoder_size
            &&& nodes[i].valhalla_size != 0 ==> region.valhalla_size == nodes[i].valhalla_size
            &&& nodes[i].postal_size != 0 ==> region.postal_size == nodes[i].postal_size
        }),
{
    let sorted = choose|sorted: Seq<RegionView>|
        {
            &&& #[trigger] is_sorted_tree(nodes, sorted)
            &&& sizes_fit(sorted, postal_global_size)
            &&& tree@ == sized_tree(sorted, postal_global_size)
        };
    lemma_sorted_well_formed(nodes, sorted);
    law_sorting_keeps_children(nodes, sorted, i, child);
    law_storage_size_is_sum(sorted, i, postal_global_size);
    assert(sorted[i] == RegionView { regions: sorted[i].regions, ..nodes[i] });
}

proof fn lemma_root_is_kept(
    regions: Seq<(String, modrana::Region)>,
    n: int,
    region_ids: Seq<(Seq<char>, u32)>,
    tile_sizes: Seq<(Seq<char>, u64)>,
)
    requires
        0 <= n <= regions.len(),
        segment_count(regions, n) + 1 < usize::MAX,
    ensures
        built(regions, n, region_ids, tile_sizes) matches Ok(nodes) ==> {
            &&& well_formed(nodes)
            &&& nodes[0].id == 0 && nodes[0].name == "World"@
        },
    decreases n,
{
    lemma_built_well_formed(regions, n, region_ids, tile_sizes);
    if n > 0 {
        lemma_segment_count(regions, n - 1, n);
        lemma_built_well_formed(regions, n - 1, region_ids, tile_sizes);
        lemma_root_is_kept(regions, n - 1, region_ids, tile_sizes);
        if let Ok(nodes) = built(regions, n - 1, region_ids, tile_sizes) {
            let (id, data) = (regions[n - 1].0@, regions[n - 1].1);
            let keys = split_parts(id, '/', 0);
            let names = split_parts(index_name(data.name@), '/', 0);
            law_regions_are_found_by_id(nodes, 0, id, keys, names, 0, region_ids);
            law_growing_keeps_regions(nodes, 0, id, keys, names, 0, region_ids);
            if let Some((tree, end)) = grown(nodes, 0, id, keys, names, 0, region_ids) {
                assert(tree[0].id == nodes[0].id && tree[0].name == nodes[0].name);
            }
        }
    }
}

/// The tree's root is the world, and every region of the index is part of the tree.
/// An index with an invalid size of the global postal data is rejected.
pub proof fn law_world_has_all_regions(
    modrana: &modrana::Countries,
    tile_sizes: Seq<(Seq<char>, u64)>,
    region_ids: Seq<(Seq<char>, u32)>,
    result: Result<RegionTree, BuildError>,
)
    requires
        segment_count(modrana.regions@, modrana.regions.len() as int) + 1 < usize::MAX,
        is_world(modrana, tile_sizes, region_ids, result),
    ensures
        ({
            let size = parsed_u64(modrana.postal_global.postal_global.size@);
            match result {
                Ok(tree) => {
                    &&& size is Some
                    &&& tree@.len() > 0 && tree@[0].id == 0 && tree@[0].name == "World"@
                    &&& modrana.regions.len() == 0 ==> tree@.len() == 1
                    &&& forall|i: int|
                        0 <= i < tree@.len() ==> {
                            &&& (#[trigger] tree@[i]).storage_size == tree@[i].geocoder_size
                                + tree@[i].valhalla_size + tree@[i].postal_size
                                + tree@[i].tiles_size + size->0
                            &&& descending(tree@[i].regions)
                        }
                    &&& forall|m: int|
                        0 <= m < modrana.regions.len() ==> exists|i: int|
                            0 <= i < tree@.len() && (#[trigger] tree@[i]).geocoder_path is Some
                                && is_reached(
                                tree@,
                                i,
                                split_parts((#[trigger] modrana.regions[m]).0@, '/', 0),
                                depth(modrana.regions[m].0@, modrana.regions[m].1),
                            )
                },
                Err(err) => size is None ==> err == BuildError::InvalidSize,
            }
        }),
{
    let regions = modrana.regions@;
    let n = regions.len() as int;
    lemma_root_is_kept(regions, n, region_ids, tile_sizes);
    if let Ok(tree) = result {
        let size = parsed_u64(modrana.postal_global.postal_global.size@)->0;
        let nodes = built(regions, n, region_ids, tile_sizes)->Ok_0;
        law_finished_tree_has_all_regions(nodes, size, tree, 0, (Seq::empty(), 0));
        assert forall|i: int| 0 <= i < tree@.len() implies {
            &&& (#[trigger] tree@[i]).storage_size == tree@[i].geocoder_size
                + tree@[i].valhalla_size + tree@[i].postal_size + tree@[i].tiles_size + size
            &&& descending(tree@[i].regions)
        } by {
            law_finished_tree_has_all_regions(nodes, size, tree, i, (Seq::empty(), 0));
        }
        assert forall|m: int| 0 <= m < n implies exists|i: int|
            0 <= i < tree@.len() && (#[trigger] tree@[i]).geocoder_path is Some && is_reached(
                tree@,
                i,
                split_parts((#[trigger] modrana.regions[m]).0@, '/', 0),
                depth(modrana.regions[m].0@, modrana.regions[m].1),
            ) by {
            let (id, data) = (regions[m].0@, regions[m].1);
            let keys = split_parts(id, '/', 0);
            law_all_regions_are_found(regions, n, m, region_ids, tile_sizes);
            let end = followed(nodes, 0, keys, 0, depth(id, data))->0;
            lemma_followed_is_reached(nodes, tree, size, 0, keys, 0, depth(id, data));
            law_finished_tree_has_all_regions(nodes, size, tree, end, (Seq::empty(), 0));
            assert(tree@[end].geocoder_path is Some);
        }
    }
}

/// A region can be reached from the root by following some keys.
pub open spec fn is_reached(
    nodes: Seq<RegionView>,
    end: int,
    keys: Seq<Seq<char>>,
    n: int,
) -> bool {
    is_below(nodes, 0, end, keys, 0, n)
}

/// A region can be reached from one of the regions above it.
pub open spec fn is_below(
    nodes: Seq<RegionView>,
    index: int,
    end: int,
    keys: Seq<Seq<char>>,
    k: int,
    n: int,
) -> bool
    decreases n - k,
{
    if k >= n {
        index == end
    } else {
        exists|child: usize|
            {
                &&& #[trigger] nodes[index].regions.contains((keys[k], child))
                &&& is_below(nodes, child as int, end, keys, k + 1, n)
            }
    }
}

/// Paths of a tree are kept when it is finished.
proof fn lemma_followed_is_reached(
    nodes: Seq<RegionView>,
    tree: RegionTree,
    postal_global_size: u64,
    index: int,
    keys: Seq<Seq<char>>,
    k: int,
    n: int,
)
    requires
        well_formed(nodes),
        is_finished(nodes, postal_global_size, Ok(tree)),
        0 <= index < nodes.len(),
        followed(nodes, index, keys, k, n) is Some,
    ensures
        is_below(tree@, index, followed(nodes, index, keys, k, n)->0, keys, k, n),
    decreases n - k,
{
    if k < n {
        let position = key_position(nodes[index].regions, keys[k]);
        lemma_key_position(nodes[index].regions, keys[k]);
        let child = nodes[index].regions[position];
        assert(nodes[index].regions.contains(child));
        assert(index < nodes[index].regions[position].1 < nodes.len());
        law_finished_tree_has_all_regions(nodes, postal_global_size, tree, index, child);
        assert(tree@[index].regions.contains((keys[k], child.1)));
        lemma_followed_is_reached(
            nodes,
            tree,
            postal_global_size,
            child.1 as int,
            keys,
            k + 1,
            n,
        );
    }
}

} // verus!
