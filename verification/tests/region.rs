use charon::build::base_urls as modrana_base_urls;
use charon::build::modrana::{
    Countries, GeocoderRegion, PostalGlobal, PostalGlobalData, PostalRegion,
    Region as ModranaRegion, Urls, ValhallaRegion,
};
use charon::build::region::{BuildError, RegionTree as BuildTree};
use charon::geocoder::nlp::{init_geocoder, GeocoderSetup};
use charon::region::children::key_order;
use charon::region::files::{
    package_url, postal_global_paths, skip_existing, valhalla_tile_path, FileDownload, UnpackProgress,
};
use charon::region::tree::{DownloadState, InstalledFiles, Region, RegionTree};

fn countries(regions: Vec<(String, ModranaRegion)>) -> Countries {
    Countries {
        postal_global: PostalGlobal {
            postal_global: PostalGlobalData {
                path: "postal/global-v1".to_owned(),
                size: "1000".to_owned(),
            },
        },
        url: Urls {
            postal_country: "postal-country-2".to_owned(),
            postal_global: "postal-global-2".to_owned(),
            geocoder_nlp: "geocoder-nlp-39".to_owned(),
            valhalla: "valhalla-33".to_owned(),
            base: "https://data.modrana.org/osm_scout_server".to_owned(),
        },
        regions,
    }
}

#[test]
fn base_urls() {
    const POSTAL_COUNTRY_BASE: &str = "https://data.modrana.org/osm_scout_server/postal-country-2";
    const POSTAL_GLOBAL_BASE: &str =
        "https://data.modrana.org/osm_scout_server/postal-global-2/postal/global-v1";
    const VALHALLA_BASE: &str =
        "https://data.modrana.org/osm_scout_server/valhalla-33/valhalla/packages";
    const GEOCODER_BASE: &str = "https://data.modrana.org/osm_scout_server/geocoder-nlp-39";

    let data = modrana_base_urls(&countries(vec![]));
    assert_eq!(data.postal_country_base, POSTAL_COUNTRY_BASE);
    assert_eq!(data.postal_global_base, POSTAL_GLOBAL_BASE);
    assert_eq!(data.valhalla_base, VALHALLA_BASE);
    assert_eq!(data.geocoder_base, GEOCODER_BASE);
}

fn modrana_region(
    name: &str,
    geocoder: (&str, &str),
    postal: (&str, &str),
    valhalla: (&[&str], &str),
) -> ModranaRegion {
    ModranaRegion {
        geocoder_nlp: GeocoderRegion { path: geocoder.0.to_owned(), size: geocoder.1.to_owned() },
        postal_country: PostalRegion { path: postal.0.to_owned(), size: postal.1.to_owned() },
        valhalla: ValhallaRegion {
            packages: valhalla.0.iter().map(|package| package.to_string()).collect(),
            size: valhalla.1.to_owned(),
        },
        name: name.to_owned(),
    }
}

fn ids(list: &[(&str, u32)]) -> Vec<(String, u32)> {
    list.iter().map(|(path, id)| (path.to_string(), *id)).collect()
}

fn europe() -> Countries {
    countries(vec![
        (
            "europe/austria".to_owned(),
            modrana_region("Europe/Austria", ("geo/at", "10"), ("postal/AT", "20"), (&["a", "b"], "60")),
        ),
        (
            "europe/germany/bayern".to_owned(),
            modrana_region("Europe/Germany/Bayern (old)", ("geo/by", "1"), ("postal/DE", "30"), (&["b", "c"], "60")),
        ),
        (
            "europe/germany/berlin".to_owned(),
            modrana_region("Europe/Germany/Berlin", ("geo/be", "2"), ("postal/DE", "30"), (&["d"], "5")),
        ),
    ])
}

fn europe_ids() -> Vec<(String, u32)> {
    ids(&[
        ("europe", 1),
        ("europe/austria", 2),
        ("europe/germany", 3),
        ("europe/germany/bayern", 4),
        ("europe/germany/berlin", 5),
    ])
}

#[test]
fn region_tree() {
    let tiles = vec![("europe/austria".to_owned(), 7)];
    let tree = BuildTree::world(&europe(), &tiles, &europe_ids()).unwrap();
    let find = |id: u32| tree.nodes.iter().find(|node| node.id == id).unwrap();

    let world = find(0);
    assert_eq!(world.name, "World");
    let keys: Vec<&str> = world.regions.keys().map(|key| key.as_str()).collect();
    assert_eq!(keys, vec!["europe"]);

    // Children are in reverse alphabetical order.
    let europe = find(1);
    assert_eq!(europe.name, "Europe");
    assert_eq!(europe.geocoder_path, None);
    let keys: Vec<&str> = europe.regions.keys().map(|key| key.as_str()).collect();
    assert_eq!(keys, vec!["germany", "austria"]);

    let austria = find(2);
    assert_eq!(austria.geocoder_path, Some("geo/at".to_owned()));
    assert_eq!(austria.tiles_url.as_deref(), Some("https://catacombing.org/tiles/europe/austria/tiles.tar.gz"));
    assert_eq!(austria.storage_size, 10 + 60 + 20 + 7 + 1000);

    // The name is shortened, and the postal data is counted only once.
    assert_eq!(find(4).name, "Bayern ");
    let germany = find(3);
    assert_eq!(germany.postal_size, 30);
    assert_eq!(germany.geocoder_size, 3);
    assert_eq!(germany.valhalla_size, 30 + 30 + 5);
    assert_eq!(germany.storage_size, 30 + 3 + 65 + 1000);

    // Packages shared by multiple regions are counted only once.
    assert_eq!(europe.postal_size, 50);
    assert_eq!(europe.geocoder_size, 13);
    assert_eq!(europe.valhalla_size, 30 + 30 + 30 + 5);
    assert_eq!(europe.tiles_size, 7);
    assert_eq!(world.storage_size, 50 + 13 + 95 + 7 + 1000);
}

#[test]
fn russian_region_names() {
    let regions = countries(vec![(
        "russia/crimea".to_owned(),
        modrana_region("Europe/Russian Federation/Crimean", ("g", "1"), ("p", "1"), (&["a"], "1")),
    )]);
    let ids = ids(&[("russia", 1), ("russia/crimea", 2)]);
    let tree = BuildTree::world(&regions, &vec![], &ids).unwrap();
    assert_eq!(tree.nodes[1].name, "Russian Federation");
    assert_eq!(tree.nodes[2].name, "Crimean");
}

#[test]
fn replaced_region_data() {
    // Both entries belong to the same region, so the last one defines its data.
    let regions = countries(vec![
        (
            "europe/austria".to_owned(),
            modrana_region("Europe/Austria", ("geo/at", "10"), ("postal/AT", "20"), (&[], "60")),
        ),
        (
            "europe/austria/wien".to_owned(),
            modrana_region("Europe/Austria", ("geo/w", "1"), ("postal/AT", "2"), (&["a"], "6")),
        ),
    ]);
    let tree = BuildTree::world(&regions, &vec![], &europe_ids()).unwrap();
    assert_eq!(tree.nodes.len(), 3);
    assert_eq!(tree.nodes[2].valhalla_packages, vec!["a"]);
    assert_eq!(tree.nodes[2].storage_size, 1 + 2 + 6 + 1000);
}

#[test]
fn invalid_regions() {
    let result = BuildTree::world(&europe(), &vec![], &ids(&[("europe", 1)]));
    assert!(matches!(result, Err(BuildError::MissingRegionId)));

    let mut regions = europe();
    regions.postal_global.postal_global.size = "many".to_owned();
    let result = BuildTree::world(&regions, &vec![], &europe_ids());
    assert!(matches!(result, Err(BuildError::InvalidSize)));

    let mut regions = europe();
    regions.regions[0].1.valhalla.packages.clear();
    let result = BuildTree::world(&regions, &vec![], &europe_ids());
    assert!(matches!(result, Err(BuildError::MissingPackages)));

    let mut regions = europe();
    regions.regions[0].1.geocoder_nlp.size = u64::MAX.to_string();
    let result = BuildTree::world(&regions, &vec![], &europe_ids());
    assert!(matches!(result, Err(BuildError::SizeOverflow)));
}

fn region(name: &str, packages: &[&str], geocoder: Option<&str>, postal: Option<&str>) -> Region {
    Region::new(
        name.to_owned(),
        100,
        packages.iter().map(|package| package.to_string()).collect(),
        geocoder.map(|path| path.to_owned()),
        postal.map(|path| path.to_owned()),
    )
}

/// World > Germany (Bayern, Berlin), Austria.
fn tree() -> RegionTree {
    let mut tree = RegionTree::new(region("World", &[], None, None));
    let germany = tree.insert(0, "germany".to_owned(), region("Germany", &[], None, None));
    let bayern = region("Bayern", &["b", "c"], Some("geo/by"), Some("postal/DE"));
    tree.insert(germany, "bayern".to_owned(), bayern);
    let berlin = region("Berlin", &["d", "c"], Some("geo/be"), Some("postal/DE"));
    tree.insert(germany, "berlin".to_owned(), berlin);
    let austria = region("Austria", &["a"], Some("geo/at"), Some("postal/AT"));
    tree.insert(0, "austria".to_owned(), austria);
    tree
}

#[test]
fn tree_navigation() {
    let tree = tree();
    assert_eq!(tree.len(), 5);
    assert_eq!(tree.get(0).region_count(), 2);
    assert_eq!(tree.get(0).region(1), Some(4));
    assert_eq!(tree.get(0).region(2), None);
    assert_eq!(tree.descendants(0), vec![0, 1, 2, 3, 4]);
    assert_eq!(tree.descendants(1), vec![1, 2, 3]);
    let end = usize::MAX;
    assert_eq!(tree.index_region(&[end, end, end, end, end]), 0);
    assert_eq!(tree.index_region(&[0, 1, end, end, end]), 3);
    assert_eq!(tree.index_region(&[1, end, 1, end, end]), 4);
    assert_eq!(tree.get(3).name(), "Berlin");
}

#[test]
fn installed_regions() {
    let mut tree = tree();
    assert_eq!(tree.current_install_size(0), 0);
    assert_eq!(tree.for_installed(0), vec![]);
    assert!(!tree.has_valhalla_tiles(0));
    tree.set_download_state(2, DownloadState::Downloaded);
    tree.set_download_state(4, DownloadState::Downloaded);
    assert_eq!(tree.for_installed(0), vec![2, 4]);
    assert_eq!(tree.current_install_size(0), 200);
    assert_eq!(tree.current_install_size(1), 100);
    assert!(tree.has_valhalla_tiles(0));
    assert!(tree.requires_postal_country(0, "postal/DE", "Berlin"));
    assert!(!tree.requires_postal_country(0, "postal/DE", "Bayern"));
    assert!(tree.requires_valhalla_package(0, "c", "Berlin"));
    assert!(!tree.requires_valhalla_package(0, "d", "Bayern"));
}

#[test]
fn shared_data_is_not_removed() {
    let mut tree = tree();
    tree.set_download_state(2, DownloadState::Downloaded);
    let removal = tree.removal(3);
    assert_eq!(removal.geocoder, Some("geocoder/be".to_owned()));
    assert_eq!(removal.packages, vec!["d".to_owned()]);
    assert_eq!(removal.postal, None);

    tree.set_download_state(2, DownloadState::Available);
    let removal = tree.removal(3);
    assert_eq!(removal.packages, vec!["d".to_owned(), "c".to_owned()]);
    assert!(removal.postal.is_some());
}

#[test]
fn download_progress() {
    let mut region = region("A", &[], None, None);
    assert_eq!(region.download_progress(), None);
    region.add_download(10);
    assert_eq!(region.download_progress(), Some((0, 10)));
    region.add_progress(4);
    assert_eq!(region.download_progress(), Some((4, 10)));
    region.add_progress(40);
    assert_eq!(region.download_progress(), Some((10, 10)));
    region.set_download_state(DownloadState::Downloading);
    assert_eq!(region.download_progress(), None);
}

#[test]
fn download_states() {
    for (number, state) in [
        (0, DownloadState::NoData),
        (1, DownloadState::Available),
        (2, DownloadState::Downloading),
        (3, DownloadState::Downloaded),
    ] {
        assert_eq!(DownloadState::from(number), state);
        assert_eq!(state.number(), number);
    }
}

#[test]
fn refreshed_download_states() {
    let mut tree = tree();
    let files = |packages: usize, installed: bool| InstalledFiles {
        geocoder: if packages > 0 { vec![true, true, installed] } else { vec![] },
        postal: if packages > 0 { vec![true; 4] } else { vec![] },
        packages: (0..packages).map(|_| Some(vec![installed])).collect(),
    };
    let mut list = vec![files(0, true), files(0, true), files(2, true), files(2, false), files(1, true)];
    tree.refresh_download_state(true, &list);
    let states = |tree: &RegionTree| -> Vec<DownloadState> {
        (0..tree.len()).map(|i| tree.get(i).download_state()).collect()
    };
    let (none, available, done) =
        (DownloadState::NoData, DownloadState::Available, DownloadState::Downloaded);
    assert_eq!(states(&tree), vec![none, none, done, available, done]);

    list[4].postal[3] = false;
    tree.refresh_download_state(true, &list);
    assert_eq!(states(&tree), vec![none, none, done, available, available]);
    list[4].postal[3] = true;

    // Packages without any known files are complete.
    list[4].packages[0] = Some(vec![]);
    tree.refresh_download_state(true, &list);
    assert_eq!(states(&tree), vec![none, none, done, available, done]);
    list[4].packages[0] = None;
    tree.refresh_download_state(true, &list);
    assert_eq!(states(&tree), vec![none, none, done, available, available]);
    tree.refresh_download_state(false, &list);
    assert_eq!(states(&tree), vec![none, none, available, available, available]);
}

#[test]
fn global_postal_files() {
    let paths = postal_global_paths();
    assert_eq!(paths.len(), 4);
    assert_eq!(paths[3], "postal/global/numex/numex.dat");
    let region = region("Bayern", &[], Some("geo/by"), Some("postal/DE"));
    let downloads = region.global_downloads("https://postal");
    assert!(downloads.iter().map(|download| &download.path).eq(&paths));
}

#[test]
fn region_downloads() {
    let region = region("Bayern", &[], Some("geo/by"), Some("postal/DE"));
    assert_eq!(region.geocoder_uri_path(), Some(("geo/by".to_owned(), "by".to_owned())));
    assert_eq!(region.postal_uri_path(), Some(("postal/DE".to_owned(), "DE".to_owned())));
    assert_eq!(region.geocoder_path(), Some("geocoder/by".to_owned()));

    let downloads = region.geocoder_downloads("https://geo");
    assert_eq!(downloads.len(), 3);
    assert_eq!(downloads[0].url, "https://geo/geo/by/geonlp-normalized-id.kch.bz2");
    assert_eq!(downloads[0].path, "geocoder/by/geonlp-normalized-id.kch");

    let downloads = region.postal_downloads("https://postal");
    assert_eq!(downloads.len(), 4);
    assert_eq!(
        downloads[3].url,
        "https://postal/postal/DE/address_parser/address_parser_crf.dat.bz2"
    );

    let downloads = region.global_downloads("https://global");
    assert_eq!(downloads[3].url, "https://global/numex/numex.dat.bz2");
    assert_eq!(downloads[3].path, "postal/global/numex/numex.dat");

    let remaining = skip_existing(downloads, &vec![true, false, true, false]);
    let paths: Vec<&str> = remaining.iter().map(|FileDownload { path, .. }| path.as_str()).collect();
    assert_eq!(
        paths,
        vec!["postal/global/address_expansions/address_dictionary.dat", "postal/global/numex/numex.dat"]
    );

    assert_eq!(package_url("https://valhalla", "17/1"), "https://valhalla/17/1.tar.bz2");
}

#[test]
fn valhalla_tile_paths() {
    assert_eq!(
        valhalla_tile_path("valhalla/tiles/2/000/1.gph.gz").unwrap(),
        Some("2/000/1.gph.gz".to_owned())
    );
    assert_eq!(valhalla_tile_path("valhalla/packages/list").unwrap(), None);
    assert!(valhalla_tile_path("other/2/000/1.gph.gz").is_err());
}

#[test]
fn unpack_progress() {
    let mut progress = UnpackProgress::new(100);
    assert_eq!(progress.advance(30), 30);
    assert_eq!(progress.advance(50), 20);
    assert_eq!(progress.advance(50), 0);
    assert_eq!(progress.advance(90), 40);
    assert_eq!(progress.finish(), 10);
    assert_eq!(UnpackProgress::new(100).finish(), 100);
}

#[test]
fn region_key_order() {
    for (a, b) in [("a", "b"), ("b", "a"), ("a", "a"), ("a", "aa"), ("é", "z"), ("", "a")] {
        assert_eq!(key_order(a, b), a.cmp(b));
    }
}

#[test]
fn geocoder_setup() {
    let bayern = region("Bayern", &[], Some("geo/by"), Some("postal/DE"));
    match init_geocoder(&bayern, false) {
        GeocoderSetup::Create(geocoder, _) => assert_eq!(geocoder, "geocoder/by"),
        setup => panic!("{setup:?}"),
    }
    assert!(matches!(init_geocoder(&bayern, true), GeocoderSetup::Update(..)));
    let world = region("World", &[], None, None);
    assert!(matches!(init_geocoder(&world, false), GeocoderSetup::MissingPostal));
    let postal = region("Postal", &[], None, Some("postal/DE"));
    assert!(matches!(init_geocoder(&postal, false), GeocoderSetup::MissingGeocoder));
}
