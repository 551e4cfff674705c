//! Region data files.

use vstd::prelude::*;

use crate::region::tree::{
    descendants, lemma_descendants_bound, well_formed, Region, RegionTree, RegionView,
};
use crate::text::{
    chars_of, find_last, is_at, join, last_position, law_last_position, occurs_at, opt_view, slash,
    starts_with, string_of, views,
};

verus! {

/// Required geocoder files for each region.
pub open spec fn geocoder_files() -> Seq<Seq<char>> {
    seq!["geonlp-normalized-id.kch"@, "geonlp-normalized.trie"@, "geonlp-primary.sqlite"@]
}

/// Required postal files for each language.
pub open spec fn postal_country_files() -> Seq<Seq<char>> {
    seq![
        "address_parser_postal_codes.dat"@,
        "address_parser_phrases.dat"@,
        "address_parser_vocab.trie"@,
        "address_parser_crf.dat"@,
    ]
}

/// Required global postal files.
pub open spec fn postal_global_files() -> Seq<Seq<char>> {
    seq![
        "language_classifier/language_classifier.dat"@,
        "address_expansions/address_dictionary.dat"@,
        "transliteration/transliteration.dat"@,
        "numex/numex.dat"@,
    ]
}

/// Contents of a list of file names.
pub open spec fn names(list: Seq<&str>) -> Seq<Seq<char>> {
    list.map_values(|name: &str| name@)
}

/// List the required geocoder files.
fn list_geocoder_files() -> (files: Vec<&'static str>)
    ensures
        names(files@) == geocoder_files(),
{
    let files: Vec<&'static str> = vec![
        "geonlp-normalized-id.kch",
        "geonlp-normalized.trie",
        "geonlp-primary.sqlite",
    ];
    proof {
        assert(names(files@) =~= geocoder_files());
    }
    files
}

/// List the required postal files for a language.
fn list_postal_country_files() -> (files: Vec<&'static str>)
    ensures
        names(files@) == postal_country_files(),
{
    let files: Vec<&'static str> = vec![
        "address_parser_postal_codes.dat",
        "address_parser_phrases.dat",
        "address_parser_vocab.trie",
        "address_parser_crf.dat",
    ];
    proof {
        assert(names(files@) =~= postal_country_files());
    }
    files
}

/// List the required global postal files.
fn list_postal_global_files() -> (files: Vec<&'static str>)
    ensures
        names(files@) == postal_global_files(),
{
    let files: Vec<&'static str> = vec![
        "language_classifier/language_classifier.dat",
        "address_expansions/address_dictionary.dat",
        "transliteration/transliteration.dat",
        "numex/numex.dat",
    ];
    proof {
        assert(names(files@) =~= postal_global_files());
    }
    files
}

/// Name of a dataset, which is the last segment of its path.
pub open spec fn dataset_name(path: Seq<char>) -> Option<Seq<char>> {
    let separator = last_position(path, '/');
    if separator >= 0 {
        Some(path.skip(separator + 1))
    } else {
        None
    }
}

/// Path and name of a dataset.
pub open spec fn uri_path(path: Option<Seq<char>>) -> Option<(Seq<char>, Seq<char>)> {
    match path {
        Some(path) => match dataset_name(path) {
            Some(name) => Some((path, name)),
            None => None,
        },
        None => None,
    }
}

/// Contents of a dataset's path and name.
pub open spec fn pair_view(pair: Option<(String, String)>) -> Option<(Seq<char>, Seq<char>)> {
    match pair {
        Some((path, name)) => Some((path@, name@)),
        None => None,
    }
}

/// Get the path and name of a dataset.
fn split_path(path: &Option<String>) -> (pair: Option<(String, String)>)
    ensures
        pair_view(pair) == uri_path(opt_view(*path)),
{
    match path {
        Some(path) => {
            let chars = chars_of(path.as_str());
            match find_last(&chars, '/') {
                Some(separator) => {
                    let name = string_of(&chars, separator + 1, chars.len());
                    proof {
                        assert(name@ =~= path@.skip(separator + 1));
                    }
                    Some((path.clone(), name))
                },
                None => None,
            }
        },
        None => None,
    }
}

/// Download base URLs.
#[derive(Debug)]
pub struct BaseUrls {
    pub postal_country_base: String,
    pub postal_global_base: String,
    pub valhalla_base: String,
    pub geocoder_base: String,
}

/// File to be downloaded to the cache directory.
#[derive(Debug)]
pub struct FileDownload {
    pub url: String,
    /// Path inside of the cache directory.
    pub path: String,
}

/// Contents of a list of downloads: their URLs and paths.
pub open spec fn download_views(list: Seq<FileDownload>) -> Seq<(Seq<char>, Seq<char>)> {
    list.map_values(|download: FileDownload| (download.url@, download.path@))
}

/// Downloads of compressed files from one directory to another.
pub open spec fn directory_downloads(
    url: Seq<char>,
    directory: Seq<char>,
    files: Seq<Seq<char>>,
) -> Seq<(Seq<char>, Seq<char>)> {
    files.map_values(
        |file: Seq<char>| (slash(url, file) + ".bz2"@, slash(directory, file)),
    )
}

/// Directory of a region's geocoder data.
pub open spec fn geocoder_dir(name: Seq<char>) -> Seq<char> {
    slash("geocoder"@, name)
}

/// Root directory of a country's postal data.
pub open spec fn postal_root(country_code: Seq<char>) -> Seq<char> {
    slash("postal/countries"@, country_code)
}

/// Directory of a country's postal data.
pub open spec fn postal_dir(country_code: Seq<char>) -> Seq<char> {
    slash(postal_root(country_code), "address_parser"@)
}

/// Downloads of a region's geocoder files.
pub open spec fn geocoder_downloads(
    region: RegionView,
    geocoder_base: Seq<char>,
) -> Seq<(Seq<char>, Seq<char>)> {
    match uri_path(region.geocoder_path) {
        Some((path, name)) => directory_downloads(
            slash(geocoder_base, path),
            geocoder_dir(name),
            geocoder_files(),
        ),
        None => Seq::empty(),
    }
}

/// Downloads of a region's postal files.
pub open spec fn postal_downloads(
    region: RegionView,
    postal_country_base: Seq<char>,
) -> Seq<(Seq<char>, Seq<char>)> {
    match uri_path(region.postal_path) {
        Some((path, country_code)) => directory_downloads(
            slash(slash(postal_country_base, path), "address_parser"@),
            postal_dir(country_code),
            postal_country_files(),
        ),
        None => Seq::empty(),
    }
}

/// Downloads of the global postal files, for regions with postal data.
pub open spec fn global_downloads(
    region: RegionView,
    postal_global_base: Seq<char>,
) -> Seq<(Seq<char>, Seq<char>)> {
    match uri_path(region.postal_path) {
        Some(_) => directory_downloads(
            postal_global_base,
            "postal/global"@,
            postal_global_files(),
        ),
        None => Seq::empty(),
    }
}

/// Add the downloads of all files in a directory to a list.
fn add_directory(downloads: &mut Vec<FileDownload>, url: &str, directory: &str, files: &Vec<&'static str>)
    ensures
        download_views(final(downloads)@) == download_views(old(downloads)@) + directory_downloads(
            url@,
            directory@,
            names(files@),
        ),
{
    let ghost before = download_views(downloads@);
    let ghost added = directory_downloads(url@, directory@, names(files@));
    let mut i: usize = 0;
    proof {
        assert(before + added.take(0) =~= before);
    }
    while i < files.len()
        invariant
            i <= files.len(),
            added == directory_downloads(url@, directory@, names(files@)),
            download_views(downloads@) == before + added.take(i as int),
        decreases files.len() - i,
    {
        let ghost partial = downloads@;
        let mut file_url = join(url, files[i]);
        file_url.append(".bz2");
        let path = join(directory, files[i]);
        let download = FileDownload { url: file_url, path };
        downloads.push(download);
        proof {
            assert(added[i as int] == (download.url@, download.path@));
            assert(download_views(downloads@) =~= download_views(partial).push(added[i as int]));
            assert(added.take(i + 1) =~= added.take(i as int).push(added[i as int]));
            assert(download_views(downloads@) =~= before + added.take(i + 1));
        }
        i += 1;
    }
    proof {
        assert(added.take(files.len() as int) =~= added);
    }
}

impl Region {
    /// Get postal URI path and country code.
    pub fn postal_uri_path(&self) -> (pair: Option<(String, String)>)
        ensures
            pair_view(pair) == uri_path(self@.postal_path),
    {
        split_path(self.postal_dataset())
    }

    /// Get geocoder URI path and region name.
    pub fn geocoder_uri_path(&self) -> (pair: Option<(String, String)>)
        ensures
            pair_view(pair) == uri_path(self@.geocoder_path),
    {
        split_path(self.geocoder_dataset())
    }

    /// Get the root of postal's country storage for this region.
    pub fn postal_country_root(&self) -> (path: Option<String>)
        ensures
            opt_view(path) == (match uri_path(self@.postal_path) {
                Some((_, country_code)) => Some(postal_root(country_code)),
                None => None,
            }),
    {
        match self.postal_uri_path() {
            Some((_, country_code)) => Some(join("postal/countries", country_code.as_str())),
            None => None,
        }
    }

    /// Get the geocoder file storage path for this region.
    pub fn geocoder_path(&self) -> (path: Option<String>)
        ensures
            opt_view(path) == (match uri_path(self@.geocoder_path) {
                Some((_, name)) => Some(geocoder_dir(name)),
                None => None,
            }),
    {
        match self.geocoder_uri_path() {
            Some((_, name)) => Some(join("geocoder", name.as_str())),
            None => None,
        }
    }

    /// Get the downloads for this region's geocoder files.
    pub fn geocoder_downloads(&self, geocoder_base: &str) -> (downloads: Vec<FileDownload>)
        ensures
            download_views(downloads@) == geocoder_downloads(self@, geocoder_base@),
    {
        let mut downloads: Vec<FileDownload> = Vec::new();
        if let Some((path, name)) = self.geocoder_uri_path() {
            let url = join(geocoder_base, path.as_str());
            let directory = join("geocoder", name.as_str());
            add_directory(
                &mut downloads,
                url.as_str(),
                directory.as_str(),
                &list_geocoder_files(),
            );
        }
        proof {
            assert(download_views(downloads@) =~= geocoder_downloads(self@, geocoder_base@));
        }
        downloads
    }

    /// Get the downloads for this region's postal country files.
    pub fn postal_downloads(&self, postal_country_base: &str) -> (downloads: Vec<FileDownload>)
        ensures
            download_views(downloads@) == postal_downloads(self@, postal_country_base@),
    {
        let mut downloads: Vec<FileDownload> = Vec::new();
        if let Some((path, country_code)) = self.postal_uri_path() {
            let country_url = join(postal_country_base, path.as_str());
            let url = join(country_url.as_str(), "address_parser");
            let root = join("postal/countries", country_code.as_str());
            let directory = join(root.as_str(), "address_parser");
            add_directory(
                &mut downloads,
                url.as_str(),
                directory.as_str(),
                &list_postal_country_files(),
            );
        }
        proof {
            assert(download_views(downloads@) =~= postal_downloads(self@, postal_country_base@));
        }
        downloads
    }

    /// Get the downloads for the global postal files required by this region.
    pub fn global_downloads(&self, postal_global_base: &str) -> (downloads: Vec<FileDownload>)
        ensures
            download_views(downloads@) == global_downloads(self@, postal_global_base@),
    {
        let mut downloads: Vec<FileDownload> = Vec::new();
        if self.postal_uri_path().is_some() {
            add_directory(
                &mut downloads,
                postal_global_base,
                "postal/global",
                &list_postal_global_files(),
            );
        }
        proof {
            assert(download_views(downloads@) =~= global_downloads(self@, postal_global_base@));
        }
        downloads
    }
}

/// Get the paths of all global postal files inside of the cache directory.
pub fn postal_global_paths() -> (paths: Vec<String>)
    ensures
        views(paths@) == postal_global_files().map_values(
            |file: Seq<char>| slash("postal/global"@, file),
        ),
{
    let files = list_postal_global_files();
    let ghost all = names(files@);
    let mut paths: Vec<String> = Vec::new();
    let mut i: usize = 0;
    while i < files.len()
        invariant
            i <= files.len(),
            all == names(files@),
            paths.len() == i,
            forall|j: int| 0 <= j < i ==> #[trigger] paths[j]@ == slash("postal/global"@, all[j]),
        decreases files.len() - i,
    {
        assert(all[i as int] == files[i as int]@);
        paths.push(join("postal/global", files[i]));
        i += 1;
    }
    proof {
        assert(views(paths@) =~= postal_global_files().map_values(
            |file: Seq<char>| slash("postal/global"@, file),
        ));
    }
    paths
}

/// Downloads without the ones whose file exists already.
pub open spec fn missing(
    downloads: Seq<(Seq<char>, Seq<char>)>,
    exists_already: Seq<bool>,
) -> Seq<(Seq<char>, Seq<char>)>
    decreases downloads.len(),
{
    if downloads.len() == 0 {
        Seq::empty()
    } else {
        let rest = missing(downloads.drop_last(), exists_already.drop_last());
        if exists_already.last() {
            rest
        } else {
            rest.push(downloads.last())
        }
    }
}

/// Remove all downloads from a list whose file exists already.
pub fn skip_existing(downloads: Vec<FileDownload>, exists_already: &Vec<bool>) -> (remaining: Vec<
    FileDownload,
>)
    requires
        exists_already.len() == downloads.len(),
    ensures
        download_views(remaining@) == missing(download_views(downloads@), exists_already@),
{
    let ghost all = download_views(downloads@);
    let mut remaining: Vec<FileDownload> = Vec::new();
    let mut i: usize = 0;
    proof {
        assert(all.take(0) =~= Seq::<(Seq<char>, Seq<char>)>::empty());
        assert(download_views(remaining@) =~= Seq::<(Seq<char>, Seq<char>)>::empty());
    }
    while i < downloads.len()
        invariant
            i <= downloads.len(),
            exists_already.len() == downloads.len(),
            all == download_views(downloads@),
            download_views(remaining@) == missing(
                all.take(i as int),
                exists_already@.take(i as int),
            ),
        decreases downloads.len() - i,
    {
        let ghost before = remaining@;
        proof {
            assert(all.take(i + 1).drop_last() =~= all.take(i as int));
            assert(exists_already@.take(i + 1).drop_last() =~= exists_already@.take(i as int));
            assert(all.take(i + 1).last() == all[i as int]);
            assert(exists_already@.take(i + 1).last() == exists_already@[i as int]);
        }
        if !exists_already[i] {
            let download = FileDownload {
                url: downloads[i].url.clone(),
                path: downloads[i].path.clone(),
            };
            remaining.push(download);
            proof {
                assert(download_views(remaining@) =~= download_views(before).push(all[i as int]));
            }
        }
        i += 1;
    }
    proof {
        assert(all.take(downloads.len() as int) =~= all);
        assert(exists_already@.take(downloads.len() as int) =~= exists_already@);
    }
    remaining
}

/// URL of a Valhalla package.
pub fn package_url(valhalla_base: &str, package: &str) -> (url: String)
    ensures
        url@ == slash(valhalla_base@, package@) + ".tar.bz2"@,
{
    let mut url = join(valhalla_base, package);
    url.append(".tar.bz2");
    url
}

/// Data which is removed when a region is deleted.
///
/// This never includes the global postal data, since it's required to make
/// search work with any region.
#[derive(Debug)]
pub struct Removal {
    /// Directory with geocoder data.
    pub geocoder: Option<String>,
    /// Valhalla packages.
    pub packages: Vec<String>,
    /// Directory with postal country data.
    pub postal: Option<String>,
}

/// Any region of the tree uses a package, other than the ignored one.
pub open spec fn package_required(
    nodes: Seq<RegionView>,
    package: Seq<char>,
    filter: Seq<char>,
) -> bool {
    exists|j: int|
        0 <= j < descendants(nodes, 0).len() && nodes[#[trigger] descendants(
            nodes,
            0,
        )[j]].uses_package(package, filter)
}

/// Any region of the tree uses a postal dataset, other than the ignored one.
pub open spec fn postal_required(
    nodes: Seq<RegionView>,
    postal_path: Seq<char>,
    filter: Seq<char>,
) -> bool {
    exists|j: int|
        0 <= j < descendants(nodes, 0).len() && nodes[#[trigger] descendants(
            nodes,
            0,
        )[j]].uses_postal(postal_path, filter)
}

/// Packages of a region which are not required by any other region.
pub open spec fn removed_packages(nodes: Seq<RegionView>, region: RegionView) -> Seq<Seq<char>> {
    region.valhalla_packages.filter(
        |package: Seq<char>| !package_required(nodes, package, region.name),
    )
}

/// Postal directory of a region, if its dataset is not required by any other
/// region.
pub open spec fn removed_postal(nodes: Seq<RegionView>, region: RegionView) -> Option<Seq<char>> {
    match uri_path(region.postal_path) {
        Some((path, country_code)) => if postal_required(nodes, path, region.name) {
            None
        } else {
            Some(postal_root(country_code))
        },
        None => None,
    }
}

impl RegionTree {
    /// Get the data which is removed when a region is deleted.
    pub fn removal(&self, index: usize) -> (removal: Removal)
        requires
            well_formed(self@),
            index < self@.len(),
        ensures
            ({
                let region = self@[index as int];
                &&& opt_view(removal.geocoder) == (match uri_path(region.geocoder_path) {
                    Some((_, name)) => Some(geocoder_dir(name)),
                    None => None,
                })
                &&& views(removal.packages@) == removed_packages(self@, region)
                &&& opt_view(removal.postal) == removed_postal(self@, region)
            }),
    {
        let region = self.get(index);
        let ghost view = self@[index as int];

        // Delete geocoder data.
        let geocoder = region.geocoder_path();

        // Delete Valhalla packages, if they're not required by another region.
        let all_packages = region.valhalla_packages();
        let ghost all = view.valhalla_packages;
        let ghost unused = |package: Seq<char>| !package_required(self@, package, view.name);
        let mut packages: Vec<String> = Vec::new();
        let mut i: usize = 0;
        proof {
            reveal(Seq::filter);
            assert(all.take(0) =~= Seq::<Seq<char>>::empty());
            assert(views(packages@) =~= Seq::<Seq<char>>::empty());
        }
        while i < all_packages.len()
            invariant
                i <= all_packages.len(),
                well_formed(self@),
                region@ == view,
                all == view.valhalla_packages,
                views(all_packages@) == all,
                unused == (|package: Seq<char>| !package_required(self@, package, view.name)),
                views(packages@) == all.take(i as int).filter(unused),
            decreases all_packages.len() - i,
        {
            let ghost before = packages@;
            proof {
                reveal(Seq::filter);
                assert(all[i as int] == all_packages@[i as int]@);
                assert(all.take(i + 1).drop_last() =~= all.take(i as int));
                assert(all.take(i + 1).last() == all[i as int]);
            }
            let required = self.requires_valhalla_package(
                0,
                all_packages[i].as_str(),
                region.name(),
            );
            if !required {
                packages.push(all_packages[i].clone());
                proof {
                    assert(views(packages@) =~= views(before).push(all[i as int]));
                }
            }
            i += 1;
        }
        proof {
            assert(all.take(all_packages.len() as int) =~= all);
        }

        // Delete postal country files, if they're not required by another region.
        let postal = match region.postal_uri_path() {
            Some((path, country_code)) => if self.requires_postal_country(
                0,
                path.as_str(),
                region.name(),
            ) {
                None
            } else {
                Some(join("postal/countries", country_code.as_str()))
            },
            None => None,
        };

        Removal { geocoder, packages, postal }
    }
}

/// Data which is used by another installed region is never removed.
pub proof fn law_shared_data_is_kept(nodes: Seq<RegionView>, index: int, other: int)
    requires
        well_formed(nodes),
        0 <= index < nodes.len(),
        descendants(nodes, 0).contains(other),
        nodes[other].installed(),
        nodes[other].name != nodes[index].name,
    ensures
        forall|package: Seq<char>|
            nodes[other].valhalla_packages.contains(package) ==> !#[trigger] removed_packages(
                nodes,
                nodes[index],
            ).contains(package),
        nodes[other].postal_path == nodes[index].postal_path ==> removed_postal(
            nodes,
            nodes[index],
        ) is None,
{
    let list = descendants(nodes, 0);
    let j = choose|j: int| 0 <= j < list.len() && list[j] == other;
    let region = nodes[index];
    let unused = |package: Seq<char>| !package_required(nodes, package, region.name);
    assert forall|package: Seq<char>|
        nodes[other].valhalla_packages.contains(package) implies !#[trigger] removed_packages(
        nodes,
        region,
    ).contains(package) by {
        assert(nodes[list[j]].uses_package(package, region.name));
        assert(package_required(nodes, package, region.name));
        if removed_packages(nodes, region).contains(package) {
            region.valhalla_packages.lemma_filter_contains_rev(unused, package);
            let i = choose|i: int|
                0 <= i < removed_packages(nodes, region).len() && removed_packages(nodes, region)[i]
                    == package;
            broadcast use vstd::seq_lib::group_filter_ensures;

            assert(unused(removed_packages(nodes, region)[i]));
        }
    }
    if nodes[other].postal_path == region.postal_path {
        if let Some((path, _)) = uri_path(region.postal_path) {
            assert(nodes[list[j]].uses_postal(path, region.name));
        }
    }
}

/// Path behind any separators and empty segments.
pub open spec fn behind_separators(path: Seq<char>, index: int) -> int
    decreases path.len() - index,
{
    if index < 0 || index >= path.len() {
        index
    } else if path[index] == '/' || (path[index] == '.' && (index + 1 == path.len() || path[index
        + 1] == '/')) {
        behind_separators(path, index + 1)
    } else {
        index
    }
}

/// A path segment ends at a position.
pub open spec fn segment_ends(path: Seq<char>, index: int) -> bool {
    index >= path.len() || path[index] == '/'
}

/// Path of a Valhalla tile inside of the tile directory.
pub open spec fn valhalla_tile(path: Seq<char>) -> Option<Seq<char>> {
    let tiles = behind_separators(path, 8);
    if occurs_at(path, "valhalla"@, 0) && segment_ends(path, 8) && occurs_at(path, "tiles"@, tiles)
        && segment_ends(path, tiles + 5) {
        Some(path.skip(behind_separators(path, tiles + 5)))
    } else {
        None
    }
}

/// Files with this suffix are tiles.
pub open spec fn is_tile(path: Seq<char>) -> bool {
    path.len() >= 7 && occurs_at(path, ".gph.gz"@, path.len() - 7)
}

/// Tile outside of the archive's tile directory.
#[derive(Copy, Clone, Debug, PartialEq, Eq, Structural)]
pub struct TilePrefixMissing;

/// Skip separators and empty segments of a path.
fn skip_separators(path: &Vec<char>, index: usize) -> (end: usize)
    requires
        index <= path.len(),
    ensures
        end == behind_separators(path@, index as int),
        index <= end <= path.len(),
{
    let mut i: usize = index;
    while i < path.len() && (path[i] == '/' || (path[i] == '.' && (i + 1 == path.len() || path[i + 1]
        == '/')))
        invariant
            index <= i <= path.len(),
            behind_separators(path@, i as int) == behind_separators(path@, index as int),
        decreases path.len() - i,
    {
        i += 1;
    }
    i
}

/// Get the storage path of a file in a Valhalla archive.
///
/// Returns nothing for files which are no tiles, and an error for tiles which
/// are not stored in the archive's tile directory.
pub fn valhalla_tile_path(path: &str) -> (tile: Result<Option<String>, TilePrefixMissing>)
    ensures
        match tile {
            Ok(None) => !is_tile(path@),
            Ok(Some(tile)) => is_tile(path@) && valhalla_tile(path@) == Some(tile@),
            Err(_) => is_tile(path@) && valhalla_tile(path@) is None,
        },
{
    let chars = chars_of(path);
    let suffix = chars_of(".gph.gz");
    let root = chars_of("valhalla");
    let directory = chars_of("tiles");
    proof {
        reveal_strlit(".gph.gz");
        reveal_strlit("valhalla");
        reveal_strlit("tiles");
    }

    // Ignore non-tile files.
    if chars.len() < 7 || !is_at(&chars, &suffix, chars.len() - 7) {
        return Ok(None);
    }

    // Get the target path for this tile.
    if !is_at(&chars, &root, 0) || (chars.len() > 8 && chars[8] != '/') {
        return Err(TilePrefixMissing);
    }
    assert(chars@.skip(0) =~= chars@);
    let tiles = skip_separators(&chars, 8);
    if !is_at(&chars, &directory, tiles) {
        return Err(TilePrefixMissing);
    }
    assert(chars@.skip(tiles as int).len() >= 5);
    if chars.len() > tiles + 5 && chars[tiles + 5] != '/' {
        return Err(TilePrefixMissing);
    }
    let start = skip_separators(&chars, tiles + 5);
    let tile = string_of(&chars, start, chars.len());
    proof {
        assert(tile@ =~= path@.skip(start as int));
    }
    Ok(Some(tile))
}

/// Progress of unpacking an archive.
#[derive(Copy, Clone, Debug, PartialEq, Eq, Structural)]
pub struct UnpackProgress {
    pub size: u64,
    pub progress: u64,
}

/// Progress from one position of an archive to another.
pub open spec fn progress_between(from: int, to: int) -> int {
    if to > from {
        to - from
    } else {
        0
    }
}

impl UnpackProgress {
    /// Start unpacking an archive of the specified size.
    pub fn new(size: u64) -> (progress: Self)
        ensures
            progress == (UnpackProgress { size, progress: 0 }),
    {
        UnpackProgress { size, progress: 0 }
    }

    /// Advance to an entry of the archive.
    ///
    /// Returns the progress made since the last entry.
    pub fn advance(&mut self, position: u64) -> (made: u64)
        ensures
            made == progress_between(old(self).progress as int, position as int),
            *final(self) == (UnpackProgress { size: old(self).size, progress: position }),
    {
        let made = position.saturating_sub(self.progress);
        self.progress = position;
        made
    }

    /// Get the progress missing for the last entry.
    pub fn finish(&self) -> (made: u64)
        ensures
            made == progress_between(self.progress as int, self.size as int),
    {
        self.size.saturating_sub(self.progress)
    }
}

/// Position of the last one of the first `n` entries.
pub open spec fn entry_end(positions: Seq<u64>, n: int) -> int {
    if n <= 0 {
        0
    } else {
        positions[n - 1] as int
    }
}

/// Progress reported for the first `n` entries.
pub open spec fn reported_progress(positions: Seq<u64>, n: int) -> int
    decreases n,
{
    if n <= 0 {
        0
    } else {
        reported_progress(positions, n - 1) + progress_between(
            entry_end(positions, n - 1),
            positions[n - 1] as int,
        )
    }
}

/// The progress reported for all entries of an archive and for its end adds up
/// to the size of the archive.
pub proof fn law_progress_adds_up_to_size(positions: Seq<u64>, size: u64)
    requires
        forall|i: int, j: int|
            0 <= i <= j < positions.len() ==> #[trigger] positions[i] <= #[trigger] positions[j],
        forall|i: int| 0 <= i < positions.len() ==> #[trigger] positions[i] <= size,
    ensures
        reported_progress(positions, positions.len() as int) + progress_between(
            entry_end(positions, positions.len() as int),
            size as int,
        ) == size,
{
    lemma_reported_progress(positions, positions.len() as int);
}

proof fn lemma_reported_progress(positions: Seq<u64>, n: int)
    requires
        0 <= n <= positions.len(),
        forall|i: int, j: int|
            0 <= i <= j < positions.len() ==> #[trigger] positions[i] <= #[trigger] positions[j],
    ensures
        reported_progress(positions, n) == entry_end(positions, n),
    decreases n,
{
    if n > 0 {
        lemma_reported_progress(positions, n - 1);
        if n > 1 {
            assert(positions[n - 2] <= positions[n - 1]);
        }
    }
}

/// The name of a dataset is everything behind its last separator.
proof fn lemma_uri_path(directory: Seq<char>, name: Seq<char>)
    requires
        !name.contains('/'),
    ensures
        uri_path(Some(directory.push('/') + name)) == Some((directory.push('/') + name, name)),
{
    let path = directory.push('/') + name;
    law_last_position(path, '/');
    let separator = last_position(path, '/');
    assert(path[directory.len() as int] == '/');
    if separator > directory.len() {
        assert(path[separator] == name[separator - directory.len() - 1]);
        assert(name.contains('/'));
    }
    assert(path.skip(separator + 1) =~= name);
}

/// Every geocoder file is downloaded from the region's directory on the server,
/// and stored below the name of the region.
pub proof fn law_geocoder_files_are_stored_by_region(
    region: RegionView,
    base: Seq<char>,
    directory: Seq<char>,
    name: Seq<char>,
)
    requires
        region.geocoder_path == Some(directory.push('/') + name),
        !name.contains('/'),
    ensures
        ({
            let downloads = geocoder_downloads(region, base);
            let files = seq![
                "geonlp-normalized-id.kch"@,
                "geonlp-normalized.trie"@,
                "geonlp-primary.sqlite"@,
            ];
            &&& downloads.len() == files.len()
            &&& forall|i: int|
                0 <= i < files.len() ==> {
                    let (url, path) = #[trigger] downloads[i];
                    &&& url == base + "/"@ + directory + "/"@ + name + "/"@ + files[i] + ".bz2"@
                    &&& path == "geocoder/"@ + name + "/"@ + files[i]
                }
        }),
{
    lemma_uri_path(directory, name);
    reveal_strlit("/");
    reveal_strlit("geocoder");
    reveal_strlit("geocoder/");
    let downloads = geocoder_downloads(region, base);
    let files = geocoder_files();
    assert forall|i: int| 0 <= i < files.len() implies ({
        let (url, path) = #[trigger] downloads[i];
        &&& url == base + "/"@ + directory + "/"@ + name + "/"@ + files[i] + ".bz2"@
        &&& path == "geocoder/"@ + name + "/"@ + files[i]
    }) by {
        let (url, path) = downloads[i];
        assert(url =~= base + "/"@ + directory + "/"@ + name + "/"@ + files[i] + ".bz2"@);
        assert(path =~= "geocoder/"@ + name + "/"@ + files[i]);
    }
}

/// Every postal file is downloaded from the address parser's directory of the
/// country on the server, and stored in the same directory below the country's
/// code.
pub proof fn law_postal_files_are_stored_for_address_parser(
    region: RegionView,
    base: Seq<char>,
    directory: Seq<char>,
    country_code: Seq<char>,
)
    requires
        region.postal_path == Some(directory.push('/') + country_code),
        !country_code.contains('/'),
    ensures
        ({
            let downloads = postal_downloads(region, base);
            let files = seq![
                "address_parser_postal_codes.dat"@,
                "address_parser_phrases.dat"@,
                "address_parser_vocab.trie"@,
                "address_parser_crf.dat"@,
            ];
            &&& downloads.len() == files.len()
            &&& forall|i: int|
                0 <= i < files.len() ==> {
                    let (url, path) = #[trigger] downloads[i];
                    &&& url == base + "/"@ + directory + "/"@ + country_code + "/address_parser/"@
                        + files[i] + ".bz2"@
                    &&& path == "postal/countries/"@ + country_code + "/address_parser/"@ + files[i]
                }
        }),
{
    lemma_uri_path(directory, country_code);
    reveal_strlit("/");
    reveal_strlit("postal/countries");
    reveal_strlit("postal/countries/");
    reveal_strlit("address_parser");
    reveal_strlit("/address_parser/");
    assert("/"@ + "address_parser"@ + "/"@ =~= "/address_parser/"@);
    assert("postal/countries"@ + "/"@ =~= "postal/countries/"@);
    let downloads = postal_downloads(region, base);
    let files = postal_country_files();
    assert forall|i: int| 0 <= i < files.len() implies ({
        let (url, path) = #[trigger] downloads[i];
        &&& url == base + "/"@ + directory + "/"@ + country_code + "/address_parser/"@ + files[i]
            + ".bz2"@
        &&& path == "postal/countries/"@ + country_code + "/address_parser/"@ + files[i]
    }) by {
        let (url, path) = downloads[i];
        let parser = "/"@ + "address_parser"@ + "/"@;
        assert(url =~= base + "/"@ + directory + "/"@ + country_code + parser + files[i]
            + ".bz2"@);
        assert(path =~= "postal/countries"@ + "/"@ + country_code + parser + files[i]);
    }
}

/// Global postal files are required by every region with postal data, and all
/// regions share the same copy.
pub proof fn law_global_files_are_shared(
    region: RegionView,
    base: Seq<char>,
    directory: Seq<char>,
    country_code: Seq<char>,
)
    requires
        region.postal_path == Some(directory.push('/') + country_code),
        !country_code.contains('/'),
    ensures
        ({
            let downloads = global_downloads(region, base);
            let files = seq![
                "language_classifier/language_classifier.dat"@,
                "address_expansions/address_dictionary.dat"@,
                "transliteration/transliteration.dat"@,
                "numex/numex.dat"@,
            ];
            &&& downloads.len() == files.len()
            &&& forall|i: int|
                0 <= i < files.len() ==> {
                    let (url, path) = #[trigger] downloads[i];
                    &&& url == base + "/"@ + files[i] + ".bz2"@
                    &&& path == "postal/global/"@ + files[i]
                }
        }),
{
    lemma_uri_path(directory, country_code);
    reveal_strlit("/");
    reveal_strlit("postal/global");
    reveal_strlit("postal/global/");
    let downloads = global_downloads(region, base);
    let files = postal_global_files();
    assert forall|i: int| 0 <= i < files.len() implies ({
        let (url, path) = #[trigger] downloads[i];
        &&& url == base + "/"@ + files[i] + ".bz2"@
        &&& path == "postal/global/"@ + files[i]
    }) by {
        let (url, path) = downloads[i];
        assert(url =~= base + "/"@ + files[i] + ".bz2"@);
        assert(path =~= "postal/global/"@ + files[i]);
    }
}

/// Datasets without a valid path have no files.
pub proof fn law_invalid_paths_have_no_files(region: RegionView, base: Seq<char>)
    ensures
        region.geocoder_path is None || !region.geocoder_path->0.contains('/')
            ==> geocoder_downloads(region, base).len() == 0,
        region.postal_path is None || !region.postal_path->0.contains('/') ==> postal_downloads(
            region,
            base,
        ).len() == 0 && global_downloads(region, base).len() == 0,
{
    if let Some(path) = region.geocoder_path {
        law_last_position(path, '/');
    }
    if let Some(path) = region.postal_path {
        law_last_position(path, '/');
    }
}

/// Exactly the downloads whose file does not exist remain, in their order.
pub proof fn law_only_missing_files_are_downloaded(
    downloads: Seq<(Seq<char>, Seq<char>)>,
    exists_already: Seq<bool>,
)
    requires
        exists_already.len() == downloads.len(),
    ensures
        ({
            let remaining = missing(downloads, exists_already);
            &&& remaining.len() == exists_already.filter(|exists_file: bool| !exists_file).len()
            &&& forall|i: int|
                0 <= i < downloads.len() && !#[trigger] exists_already[i] ==> remaining.contains(
                    downloads[i],
                )
            &&& forall|j: int|
                0 <= j < remaining.len() ==> exists|i: int|
                    0 <= i < downloads.len() && !#[trigger] exists_already[i] && downloads[i]
                        == #[trigger] remaining[j]
        }),
    decreases downloads.len(),
{
    reveal(Seq::filter);
    if downloads.len() > 0 {
        let head = downloads.drop_last();
        let known = exists_already.drop_last();
        let before = missing(head, known);
        let remaining = missing(downloads, exists_already);
        law_only_missing_files_are_downloaded(head, known);
        assert forall|i: int| 0 <= i < downloads.len() && !#[trigger] exists_already[i] implies
            remaining.contains(downloads[i]) by {
            if i < head.len() {
                assert(!known[i]);
                assert(before.contains(head[i]));
                let j = choose|j: int| 0 <= j < before.len() && before[j] == head[i];
                assert(remaining[j] == downloads[i]);
            } else {
                assert(remaining[remaining.len() - 1] == downloads[i]);
            }
        }
        assert forall|j: int| 0 <= j < remaining.len() implies exists|i: int|
            0 <= i < downloads.len() && !#[trigger] exists_already[i] && downloads[i]
                == #[trigger] remaining[j] by {
            if j < before.len() {
                let i = choose|i: int|
                    0 <= i < head.len() && !#[trigger] known[i] && head[i] == before[j];
                assert(!exists_already[i] && downloads[i] == remaining[j]);
            } else {
                assert(!exists_already[downloads.len() - 1]);
            }
        }
    }
}

/// Deleting a region removes all of its packages which are not used by any other
/// installed region.
pub proof fn law_unshared_data_is_removed(nodes: Seq<RegionView>, region: RegionView, package: Seq<char>)
    requires
        well_formed(nodes),
        nodes.len() > 0,
        region.valhalla_packages.contains(package),
        forall|j: int|
            0 <= j < nodes.len() && (#[trigger] nodes[j]).installed() && nodes[j].name
                != region.name ==> !nodes[j].valhalla_packages.contains(package),
    ensures
        removed_packages(nodes, region).contains(package),
{
    let unused = |package: Seq<char>| !package_required(nodes, package, region.name);
    let list = descendants(nodes, 0);
    if package_required(nodes, package, region.name) {
        let j = choose|j: int|
            0 <= j < list.len() && nodes[#[trigger] list[j]].uses_package(package, region.name);
        lemma_descendants_bound(nodes, 0);
        assert(nodes[list[j]].installed());
    }
    let i = region.valhalla_packages.index_of(package);
    assert(region.valhalla_packages[i] == package);
    assert(unused(region.valhalla_packages[i]));
    region.valhalla_packages.lemma_filter_contains(unused, i);
}

/// Tiles are stored at their path inside of the archive's tile directory, and
/// nothing else of the archive is stored.
pub proof fn law_tiles_are_stored_by_path(name: Seq<char>)
    requires
        name.len() > 0,
        name[0] != '/',
        name[0] != '.',
    ensures
        valhalla_tile("valhalla/tiles/"@ + name) == Some(name),
        name.len() >= 7 ==> (is_tile("valhalla/tiles/"@ + name) <==> name.skip(name.len() - 7)
            == ".gph.gz"@),
{
    let path = "valhalla/tiles/"@ + name;
    reveal_strlit("valhalla");
    reveal_strlit("tiles");
    reveal_strlit("valhalla/tiles/");
    reveal_strlit(".gph.gz");
    assert(path.skip(0).take(8) =~= "valhalla"@);
    assert(path[8] == '/');
    assert(path[9] == 't');
    assert(path[14] == '/');
    assert(path[15] == name[0]);
    reveal_with_fuel(behind_separators, 3);
    assert(behind_separators(path, 8) == 9);
    assert(path.skip(9).take(5) =~= "tiles"@);
    assert(behind_separators(path, 14) == 15);
    assert(path.skip(15) =~= name);
    if name.len() >= 7 {
        assert(path.skip(path.len() - 7).take(7) =~= name.skip(name.len() - 7));
    }
}

/// Everything downloaded for a region is stored in the directories which are
/// removed when its data is deleted, and which its geocoder reads.
pub proof fn law_downloads_are_stored_in_removed_directories(
    region: RegionView,
    base: Seq<char>,
    i: int,
)
    ensures
        uri_path(region.geocoder_path) matches Some((_, name)) ==> (0 <= i < geocoder_downloads(
            region,
            base,
        ).len() ==> starts_with(
            geocoder_downloads(region, base)[i].1,
            geocoder_dir(name).push('/'),
        )),
        uri_path(region.postal_path) matches Some((_, country_code)) ==> (0 <= i < postal_downloads(
            region,
            base,
        ).len() ==> starts_with(
            postal_downloads(region, base)[i].1,
            postal_root(country_code).push('/'),
        )),
        uri_path(region.geocoder_path) is Some <==> geocoder_downloads(region, base).len() > 0,
        uri_path(region.postal_path) is Some <==> postal_downloads(region, base).len() > 0,
        uri_path(region.postal_path) is Some <==> global_downloads(region, base).len() > 0,
{
    reveal_strlit("/");
    if let Some((_, name)) = uri_path(region.geocoder_path) {
        let downloads = geocoder_downloads(region, base);
        if 0 <= i < downloads.len() {
            let directory = geocoder_dir(name).push('/');
            assert(downloads[i].1.take(directory.len() as int) =~= directory);
        }
    }
    if let Some((_, country_code)) = uri_path(region.postal_path) {
        let downloads = postal_downloads(region, base);
        if 0 <= i < downloads.len() {
            let directory = postal_root(country_code).push('/');
            assert(downloads[i].1.take(directory.len() as int) =~= directory);
        }
    }
}

/// Deleting a region removes its postal data, which is stored by country, unless
/// another installed region uses it.
pub proof fn law_unshared_postal_data_is_removed(
    nodes: Seq<RegionView>,
    region: RegionView,
    directory: Seq<char>,
    country_code: Seq<char>,
)
    requires
        well_formed(nodes),
        nodes.len() > 0,
        region.postal_path == Some(directory.push('/') + country_code),
        !country_code.contains('/'),
        forall|j: int|
            0 <= j < nodes.len() && (#[trigger] nodes[j]).installed() && nodes[j].name
                != region.name ==> nodes[j].postal_path != region.postal_path,
    ensures
        removed_postal(nodes, region) == Some("postal/countries/"@ + country_code),
{
    lemma_uri_path(directory, country_code);
    let path = directory.push('/') + country_code;
    let list = descendants(nodes, 0);
    if postal_required(nodes, path, region.name) {
        let j = choose|j: int|
            0 <= j < list.len() && nodes[#[trigger] list[j]].uses_postal(path, region.name);
        lemma_descendants_bound(nodes, 0);
        assert(nodes[list[j]].installed());
    }
    reveal_strlit("/");
    reveal_strlit("postal/countries");
    reveal_strlit("postal/countries/");
    assert(postal_root(country_code) =~= "postal/countries/"@ + country_code);
}

} // verus!
