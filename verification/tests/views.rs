use charon::geocoder::{QueryResult, QueryResultEvent, QueryResultRank};
use charon::geometry::{GeoPoint, Point, Size};
use charon::region::tree::{DownloadState, Region, RegionTree};
use charon::router::{Mode, Route, Segment};
use charon::tiles::{TileIndex, MAX_ZOOM};
use charon::ui::list::SUB_PIXELS;
use charon::ui::skia::{Svg, TextAlign, TextOptions};
use charon::ui::touch::{TouchPoint, TouchSlot, TouchSlots};
use charon::ui::view::download::{
    finish_download, region_element, region_text, DownloadView, RegionElement, RegionLayout,
    TouchRelease as DownloadRelease,
};
use charon::ui::view::map::cursor::{Cursor, ZoomSnap};
use charon::ui::view::map::fallback::{ancestors, place_fallback, PendingTiles};
use charon::ui::view::map::path::{route_path, RouteVerb};
use charon::ui::view::map::route::{MapRoute, RenderGeoPoint};
use charon::ui::view::map::{
    GpsFix, GpsUpdate, MapView, Reroute, RouteFocus, TouchMotion, TouchRelease, GPS_ZOOM,
};
use charon::ui::view::route::{visible_segments, RouteView, TouchRelease as RouteRelease};
use charon::ui::view::search::{
    entity_text, zoom_from_address, ActiveRoute, QueryId, RouteOrigin, SearchLayout, SearchView,
    TouchMotion as SearchMotion, TouchRelease as SearchRelease,
};
use charon::ui::view::{View, Views};
use charon::ui::window::{TextInput, TextInputUpdate, Window};
use charon::ui::{Button, Layout};

const LAYOUT: Layout = Layout {
    size: Size { width: 400, height: 700 },
    button_size: Size { width: 48, height: 48 },
    padding: 16,
};

fn touch(x: i32, y: i32) -> TouchPoint {
    TouchPoint {
        exact: Point::new((x as f64).to_bits(), (y as f64).to_bits()),
        pixel: Point::new(x, y),
        sub_pixel: Point::new(x as i64 * SUB_PIXELS, y as i64 * SUB_PIXELS),
    }
}

fn geo(n: u64) -> GeoPoint {
    GeoPoint::new(n, n)
}

fn cursor(x: u32, y: u32, z: u8) -> Cursor {
    Cursor::new(TileIndex::new(x, y, z), Point::new(0, 0))
}

fn segment(points: &[u64], instruction: &str, time: u64) -> Segment {
    Segment {
        points: points.iter().map(|n| geo(*n)).collect(),
        instruction: instruction.to_owned(),
        time,
        length: time as u32 * 10,
    }
}

fn route(mode: Mode) -> Route {
    Route {
        segments: vec![
            segment(&[1, 2, 3], "Start", 10),
            segment(&[3, 4], "Turn left", 20),
            segment(&[4, 5], "Arrive", 30),
        ],
        time: 60,
        length: 600,
        mode,
    }
}

#[test]
fn buttons() {
    let mut button = Button::new(Point::new(10, 20), Size::new(30, 40), Svg::Search);
    assert!(button.contains(Point::new(10, 20)));
    assert!(button.contains(Point::new(39, 59)));
    assert!(!button.contains(Point::new(40, 59)));
    assert_eq!(button.icon(Size::new(3, 4)), (Point::new(13, 24), Size::new(24, 32)));
    button.set_point(Point::new(0, 0));
    button.set_size(Size::new(5, 5));
    button.set_svg(Svg::Route);
    assert_eq!(button, Button::new(Point::new(0, 0), Size::new(5, 5), Svg::Route));

    assert_eq!(LAYOUT.first_button_point(), Point::new(336, 636));
    assert_eq!(LAYOUT.second_button_point(), Point::new(272, 636));
    assert_eq!(LAYOUT.third_button_point(), Point::new(208, 636));
    let points =
        [LAYOUT.first_button_point(), LAYOUT.second_button_point(), LAYOUT.third_button_point()];
    for x in 0..400 {
        let covered = points
            .iter()
            .filter(|point| {
                let button = Button::new(**point, LAYOUT.button_size, Svg::Gps);
                button.contains(Point::new(x, 640))
            })
            .count();
        assert!(covered <= 1);
    }
    assert_eq!(Svg::ArrowLeft.file(), "arrow_left.svg");

    let mut options = TextOptions::new();
    assert_eq!(options.ellipsize(false), TextOptions { align: TextAlign::Left, ellipsize: false });
    assert_eq!(options.align(TextAlign::Right).align, TextAlign::Right);
}

#[test]
fn touch_slots() {
    let mut slots = TouchSlots::new();
    slots.press(3, touch(1, 1));
    slots.press(5, touch(2, 2));
    assert_eq!(slots.len(), 2);
    assert_eq!(slots.opposing(3), Some(TouchSlot { start: touch(2, 2), point: touch(2, 2) }));
    let moved = TouchSlot { start: touch(1, 1), point: touch(4, 4) };
    assert_eq!(slots.motion(3, touch(4, 4)), Some((moved, touch(1, 1))));
    assert_eq!(slots.motion(4, touch(4, 4)), None);
    assert_eq!(slots.release(3), Some(moved));
    assert_eq!(slots.release(3), None);
    assert_eq!(slots.opposing(5), None);
    slots.clear();
    assert_eq!(slots.len(), 0);
}

#[test]
fn map_positions() {
    let start = Cursor::new(TileIndex::new(4, 4, 3), Point::new(100, 200));
    let moved = start.center_point_tile(200, -300);
    assert_eq!(moved, Cursor::new(TileIndex::new(5, 3, 3), Point::new(44, 156)));
    assert_eq!(moved.center_point_tile(-200, 300), start);

    // The map ends at its borders.
    let corner = start.center_point_tile(i32::MAX, i32::MIN);
    assert_eq!(corner, Cursor::new(TileIndex::new(7, 0, 3), Point::new(255, 0)));
}

#[test]
fn map_zoom() {
    let start = Cursor::new(TileIndex::new(5, 4, 3), Point::new(100, 200));
    let zoomed = start.snap_zoom(ZoomSnap::In);
    assert_eq!(zoomed, Cursor::new(TileIndex::new(10, 9, 4), Point::new(200, 144)));
    assert_eq!(zoomed.snap_zoom(ZoomSnap::Out), start);
    let out = start.snap_zoom(ZoomSnap::Out);
    assert_eq!(out, Cursor::new(TileIndex::new(2, 2, 2), Point::new(178, 100)));
    assert_eq!(start.snap_zoom(ZoomSnap::Current), start);
    let world = cursor(0, 0, 0);
    assert_eq!(world.snap_zoom(ZoomSnap::Out), world);

    // Zooming is limited to the available levels.
    let (zoomed, complete) = start.zoom_by(Point::new(28, -200), 2);
    assert!(complete);
    assert_eq!(zoomed, Cursor::new(TileIndex::new(1, 1, 1), Point::new(96, 0)));
    let (zoomed, complete) = start.zoom_by(Point::new(0, 0), 5);
    assert!(!complete);
    assert_eq!(zoomed.tile, TileIndex::new(0, 0, 0));
    let (zoomed, complete) = start.zoom_by(Point::new(0, 0), -50);
    assert!(!complete);
    assert_eq!(zoomed.tile.z, MAX_ZOOM);
}

#[test]
fn zoom_matches_floating_point() {
    for (levels, focus) in [(-3, 17), (-1, -300), (0, 77), (1, 1_000), (2, -2_000), (3, 5)] {
        let start = Cursor::new(TileIndex::new(5, 2, 4), Point::new(100, 201));
        let (zoomed, _) = start.zoom_by(Point::new(focus, -focus), levels);
        let axis = |tile: u32, offset: i32, focus: i32| {
            let tile = tile as f64 + (offset as f64 + focus as f64) / 256.;
            let scaled = tile * 2f64.powi(-levels);
            (scaled.trunc() as u32, (scaled.fract() * 256.).floor() as i32)
        };
        let (x, offset_x) = axis(5, 100, focus);
        let (y, offset_y) = axis(2, 201, -focus);
        let expected = TileIndex::new(x, y, (4 - levels) as u8);
        assert_eq!(zoomed, Cursor::new(expected, Point::new(offset_x, offset_y)));
    }
}

#[test]
fn tile_placeholders() {
    let tile = TileIndex::new(5, 6, 3);
    let parents = ancestors(tile);
    assert_eq!(
        parents,
        vec![TileIndex::new(2, 3, 2), TileIndex::new(1, 1, 1), TileIndex::new(0, 0, 0)]
    );

    let mut tiles = PendingTiles::new();
    assert!(tiles.is_complete());
    let fallback = tiles.fallback(tile, &vec![false, true, true]);
    assert_eq!(fallback, Some(TileIndex::new(1, 1, 1)));
    assert!(tiles.is_pending(tile));
    assert!(!tiles.is_complete());

    // Every placeholder is used once.
    let sibling = TileIndex::new(4, 6, 3);
    assert_eq!(tiles.fallback(sibling, &vec![false, true, true]), None);
    assert_eq!(tiles.fallback(tile, &vec![true, true, true]), Some(TileIndex::new(2, 3, 2)));
    tiles.clear();
    assert!(tiles.is_complete());
    assert_eq!(tiles.fallback(tile, &vec![false, false, false]), None);

    let placed = place_fallback(tile, TileIndex::new(1, 1, 1), Point::new(100, 50), 256);
    assert_eq!(placed, (100 - 256, 50 - 2 * 256, 1024));
}

#[test]
fn route_paths() {
    let size = Size::new(100, 100);
    let nodes = vec![
        Point::new(10, 10),
        Point::new(12, 12),
        Point::new(50, 50),
        Point::new(300, 50),
        Point::new(300, 300),
        Point::new(90, 90),
        Point::new(91, 91),
    ];
    assert_eq!(
        route_path(&nodes, size),
        vec![
            RouteVerb::MoveTo(Point::new(10, 10)),
            RouteVerb::LineTo(Point::new(50, 50)),
            RouteVerb::LineTo(Point::new(300, 50)),
            RouteVerb::MoveTo(Point::new(300, 300)),
            RouteVerb::LineTo(Point::new(90, 90)),
            RouteVerb::LineTo(Point::new(91, 91)),
        ]
    );
    assert_eq!(route_path(&vec![], size), vec![]);
    assert_eq!(route_path(&vec![Point::new(1, 1)], size), vec![]);
}

#[test]
fn map_route() {
    let mut map_route = MapRoute::new();
    assert_eq!(map_route.len(), 0);
    assert_eq!(map_route.start(), None);
    assert_eq!(map_route.instruction().instruction.text, "Error: No Instruction Found");

    map_route.set_route(&route(Mode::Pedestrian), true);
    assert_eq!(map_route.len(), 7);
    assert!(map_route.has_gps_origin());
    assert_eq!(map_route.mode(), Mode::Pedestrian);
    assert_eq!(map_route.start(), Some(geo(1)));
    assert_eq!(map_route.end(), Some(geo(5)));

    // Text of the next segment, time and length of the current one.
    map_route.truncate_start(2);
    let current = map_route.instruction();
    assert_eq!(current.instruction.text, "Turn left");
    assert_eq!((current.instruction.time, current.instruction.length), (10, 100));
    assert_eq!(current.traveled, Some((2, 3)));

    map_route.truncate_start(4);
    assert_eq!(map_route.progress(), 6);
    assert_eq!(map_route.start(), Some(geo(5)));
    let current = map_route.instruction();
    assert_eq!(current.instruction.text, "Arrive");
    assert_eq!(current.instruction.time, 30);
    assert_eq!(current.traveled, None);

    map_route.truncate_start(10);
    assert_eq!(map_route.progress(), 7);
    assert_eq!(map_route.end(), None);

    // A new route has not been traveled.
    map_route.set_route(&route(Mode::Auto), false);
    assert_eq!(map_route.progress(), 0);
    map_route.point_mut(1).set_tile(cursor(1, 2, 3));
    assert_eq!(map_route.points()[1].tile(3), Some(cursor(1, 2, 3)));
    assert_eq!(map_route.points()[1].tile(4), None);
    assert_eq!(map_route.points()[0].tile(3), None);
}

fn fix(point: u64) -> GpsFix {
    GpsFix {
        point: geo(point),
        cursor: cursor(point as u32, 0, 10),
        end_distance: 1_000,
        nearest_segment: 0,
        segment_distance: 0,
        reroute_due: true,
    }
}

const NO_UPDATE: GpsUpdate = GpsUpdate { progress: None, reroute: None };

#[test]
fn gps_route() {
    let mut map = MapView::new(LAYOUT);
    assert_eq!(map.set_gps(Some(fix(1))), NO_UPDATE);
    assert_eq!(map.set_route(&route(Mode::Auto), true), RouteFocus::Gps(geo(1)));
    assert_eq!(map.buttons()[0].0.svg, Svg::Route);
    assert!(map.lock_gps(cursor(9, 9, GPS_ZOOM)));

    // The map follows the GPS, and traveled segments are removed.
    let moved = GpsFix { nearest_segment: 2, segment_distance: 15, ..fix(2) };
    assert_eq!(map.set_gps(Some(moved)), GpsUpdate { progress: Some(2), reroute: None });
    assert_eq!(map.center_point(), fix(2).cursor);
    assert_eq!(map.route().unwrap().len(), 5);

    // Far away locations are rerouted only once.
    let lost = GpsFix { segment_distance: 29, ..fix(3) };
    assert_eq!(map.set_gps(Some(lost)), NO_UPDATE);
    let lost = GpsFix { segment_distance: 30, reroute_due: false, ..fix(4) };
    assert_eq!(map.set_gps(Some(lost)), NO_UPDATE);
    let lost = GpsFix { segment_distance: 30, ..fix(5) };
    let reroute = Some(Reroute { target: geo(5), mode: Mode::Auto });
    assert_eq!(map.set_gps(Some(lost)), GpsUpdate { progress: None, reroute });
    let lost = GpsFix { segment_distance: 30, ..fix(6) };
    assert_eq!(map.set_gps(Some(lost)), NO_UPDATE);
    map.reset_reroute_timeout();
    let lost = GpsFix { segment_distance: 30, ..fix(7) };
    assert_eq!(map.set_gps(Some(lost)), GpsUpdate { progress: None, reroute });

    // Completed routes are removed.
    let arrived = GpsFix { end_distance: 15, ..fix(8) };
    assert_eq!(map.set_gps(Some(arrived)), NO_UPDATE);
    assert!(map.route().is_none());
    assert_eq!(map.buttons()[0].0.svg, Svg::Search);
}

#[test]
fn gps_indicator() {
    let mut map = MapView::new(LAYOUT);
    map.begin_frame();
    map.set_gps(None);
    assert!(!map.dirty());
    assert_eq!(map.buttons().len(), 1);
    map.set_gps(Some(fix(1)));
    assert!(map.dirty());
    assert_eq!(map.gps(), Some(RenderGeoPoint::new(geo(1))));
    assert_eq!(map.buttons().len(), 2);
    map.begin_frame();
    map.set_gps(Some(fix(1)));
    assert!(!map.dirty());
    map.set_gps_tile(cursor(1, 1, 3));
    map.begin_frame();
    map.set_gps(Some(fix(1)));
    assert!(map.dirty());
    assert_eq!(map.gps(), Some(RenderGeoPoint::new(geo(1))));
    map.set_gps(None);
    assert_eq!(map.gps(), None);
}

#[test]
fn map_overview() {
    let mut map = MapView::new(LAYOUT);
    map.set_poi(Some(geo(9)));
    let overview = RouteFocus::Overview { start: geo(1), end: geo(5) };
    assert_eq!(map.set_route(&route(Mode::Auto), false), overview);
    assert_eq!(map.poi(), None);
    map.set_route_tile(0, cursor(1, 1, 2));
    assert_eq!(map.route().unwrap().points()[0].tile(2), Some(cursor(1, 1, 2)));

    // A new POI removes the route.
    map.set_poi(Some(geo(9)));
    map.set_poi_tile(cursor(2, 2, 2));
    assert_eq!(map.poi().unwrap().tile(2), Some(cursor(2, 2, 2)));
    assert!(map.route().is_none());
    let empty = Route { segments: vec![], time: 0, length: 0, mode: Mode::Auto };
    assert_eq!(map.set_route(&empty, false), RouteFocus::Unchanged);
    assert_eq!(map.set_route(&empty, true), RouteFocus::Unchanged);
}

fn resized_map() -> MapView {
    let mut map = MapView::new(LAYOUT);
    map.set_size(LAYOUT.size);
    map.begin_frame();
    map
}

#[test]
fn map_taps() {
    let mut map = resized_map();
    let here = cursor(1, 1, 3);

    // Tap snaps the zoom.
    assert!(map.touch_down(0, 1_000, touch(50, 50), false, 300));
    let release = map.touch_up(0, ZoomSnap::In, here, here);
    assert_eq!(release, Some(TouchRelease::ResetZoom));
    assert_eq!(map.zoom(), 4);

    // Another tap zooms in.
    assert!(!map.touch_down(0, 1_300, touch(50, 50), true, 300));
    assert_eq!(map.last_point(), touch(50, 50));
    let release = map.touch_up(0, ZoomSnap::Exact, here, here);
    assert_eq!(release, Some(TouchRelease::ZoomIn(touch(50, 50))));
    assert!(map.zoom_by(Point::new(0, 0), -1));
    assert_eq!(map.zoom(), 5);

    // A third tap is a single tap again.
    assert!(map.touch_down(0, 1_400, touch(50, 50), true, 300));
    assert_eq!(map.touch_up(1, ZoomSnap::Exact, here, here), None);
    assert_eq!(map.touch_up(0, ZoomSnap::Exact, here, here), Some(TouchRelease::Nothing));
    assert!(map.touch_down(0, 1_701, touch(50, 50), true, 300));
}

#[test]
fn map_drag_and_zoom() {
    let mut map = resized_map();
    let here = cursor(1, 1, 3);
    map.touch_down(0, 0, touch(50, 50), false, 300);
    let motion = map.touch_motion(0, touch(90, 50));
    let slot = TouchSlot { start: touch(50, 50), point: touch(90, 50) };
    assert_eq!(motion, TouchMotion::Drag { slot, old_point: touch(50, 50) });
    map.drag(Some(Point::new(40, 0)));
    assert_eq!(map.center_point(), Cursor::new(TileIndex::new(3, 4, 3), Point::new(216, 0)));
    assert!(map.dirty());

    // The second slot zooms the map.
    map.touch_down(1, 10, touch(200, 200), false, 300);
    map.touch_down(2, 10, touch(300, 300), false, 300);
    assert_eq!(map.touch_motion(2, touch(0, 0)), TouchMotion::Ignored);
    let moved = TouchSlot { start: touch(200, 200), point: touch(210, 210) };
    let motion = map.touch_motion(1, touch(210, 210));
    let zoom = TouchMotion::Zoom { slot: moved, opposing: slot, old_point: touch(200, 200) };
    assert_eq!(motion, zoom);
    map.touch_up(0, ZoomSnap::Exact, here, here);
    assert_eq!(map.touch_motion(1, touch(0, 0)), TouchMotion::Ignored);
    map.touch_up(1, ZoomSnap::Exact, here, here);
    assert!(map.touch_down(1, 1_000, touch(200, 200), false, 300));
}

#[test]
fn map_buttons() {
    let mut map = resized_map();
    let here = cursor(1, 1, 3);
    let zoomed = cursor(7, 7, GPS_ZOOM);
    map.touch_down(0, 0, touch(340, 640), false, 300);
    assert_eq!(
        map.touch_up(0, ZoomSnap::Exact, here, zoomed),
        Some(TouchRelease::Show(View::Search))
    );
    map.set_route(&route(Mode::Auto), false);
    map.touch_down(0, 0, touch(340, 640), false, 300);
    assert_eq!(
        map.touch_up(0, ZoomSnap::Exact, here, zoomed),
        Some(TouchRelease::Show(View::Route))
    );

    // Pressing the GPS button centers, zooms, and locks.
    map.set_gps(Some(fix(1)));
    let mut press = |current: Cursor| {
        map.touch_down(0, 0, touch(280, 640), false, 300);
        map.touch_up(0, ZoomSnap::Exact, current, zoomed);
        (map.center_point(), map.zooms_center())
    };
    assert_eq!(press(here), (here, false));
    assert_eq!(press(here), (zoomed, false));
    assert_eq!(press(zoomed), (zoomed, true));
    assert_eq!(press(zoomed), (zoomed, false));
}

#[test]
fn map_long_press() {
    let mut map = resized_map();
    map.set_poi(Some(geo(3)));
    map.touch_down(0, 0, touch(50, 50), false, 300);
    let pressed = map.trigger_long_press(300, 0);
    assert_eq!(pressed, Cursor::new(TileIndex::new(5, 4, 3), Point::new(44, 0)));
    assert_eq!(map.poi(), None);
    assert_eq!(map.touch_motion(0, touch(90, 50)), TouchMotion::Ignored);
}

#[test]
fn map_tiles() {
    let mut map = resized_map();
    let tile = TileIndex::new(4, 4, 3);
    assert!(map.preloads_border());
    assert!(!map.tile_loaded(tile));
    map.fallback(tile, &vec![false, false, false]);
    assert!(!map.preloads_border());
    assert!(!map.dirty());
    assert!(map.tile_loaded(tile));
    assert!(map.dirty());
    map.begin_frame();
    map.update_config(false, false);
    assert!(!map.dirty());
    map.update_config(false, true);
    assert!(map.dirty());
    map.move_by(None);
    assert!(!map.goto(map.center_point()));
    assert!(map.goto(cursor(0, 0, 1)));
}

#[test]
fn route_view() {
    let mut view = RouteView::new(LAYOUT);
    view.set_size(LAYOUT.size);
    assert!(view.needs_layout());
    view.set_route(route(Mode::Pedestrian), false);
    let (cancel, mode, back) = view.buttons();
    assert_eq!((cancel.svg, mode.svg, back.svg), (Svg::CancelRoute, Svg::Pedestrian, Svg::ArrowLeft));
    view.set_segment_heights(vec![300, 200, 400], 2, 620, 16);
    assert!(!view.needs_layout());
    assert_eq!(view.max_scroll_offset(), 906 - 620 + 16);

    let heights = view.segment_heights().unwrap();
    assert_eq!(visible_segments(heights, 2, 620, 0), vec![(0, 620), (1, 318), (2, 116)]);
    assert_eq!(visible_segments(heights, 2, 620, 302), vec![(1, 620), (2, 418)]);
    assert_eq!(view.summary_label_point(), Point::new(16, 636));
    assert_eq!(view.summary_label_size(), Size::new(400 - 3 * 64 - 32, 48));

    let mut press = |x: i32| {
        view.touch_down(0, touch(x, 640));
        view.touch_up(0)
    };
    assert_eq!(press(210), RouteRelease::Cancel);
    assert_eq!(press(340), RouteRelease::Back);
    assert_eq!(press(100), RouteRelease::Nothing);
    let reroute = RouteRelease::Route {
        origin: RouteOrigin::GeoPoint(geo(1)),
        target: geo(5),
        mode: Mode::Auto,
    };
    assert_eq!(press(280), reroute);

    view.set_route(route(Mode::Auto), true);
    view.touch_down(0, touch(280, 640));
    view.touch_down(1, touch(340, 640));
    assert_eq!(view.touch_motion(0, touch(281, 640)), None);
    let reroute =
        RouteRelease::Route { origin: RouteOrigin::Gps, target: geo(5), mode: Mode::Pedestrian };
    assert_eq!(view.touch_up(0), reroute);
    assert_eq!(view.touch_up(1), RouteRelease::Nothing);

    view.begin_frame();
    view.touch_down(0, touch(20, 20));
    assert!(view.touch_motion(0, touch(30, 200)).is_some());
    view.drag(true);
    assert!(view.dirty());
    assert_eq!(view.touch_up(0), RouteRelease::Nothing);
}

fn tree() -> RegionTree {
    let region = |name: &str, path: Option<&str>| {
        Region::new(name.to_owned(), 5, vec![], path.map(|path| path.to_owned()), None)
    };
    let mut tree = RegionTree::new(region("World", None));
    let europe = tree.insert(0, "europe".to_owned(), region("Europe", None));
    tree.insert(europe, "germany".to_owned(), region("Germany", Some("geo/de")));
    tree.insert(europe, "austria".to_owned(), region("Austria", Some("geo/at")));
    tree.insert(0, "asia".to_owned(), region("Asia", None));
    tree.set_download_state(2, DownloadState::Available);
    tree
}

const REGIONS: RegionLayout =
    RegionLayout { height: 50, padding: 2, button_size: Size { width: 32, height: 32 } };

#[test]
fn download_view() {
    let mut tree = tree();
    let mut view = DownloadView::new(LAYOUT, REGIONS);
    view.set_scale_factor(LAYOUT, REGIONS);
    assert_eq!(view.region(&tree), 0);
    assert_eq!(view.tiles_text(), Some("Tiles: 0.00 B".to_owned()));
    view.set_tiles_size(2048);
    assert_eq!(view.tiles_text(), Some("Tiles: 2.00 KB".to_owned()));
    let list = view.region_list();
    assert_eq!((list.point, list.width), (Point::new(16, 570), 368));
    assert_eq!(view.region_button_point(), Point::new(327, 9));
    assert_eq!(view.max_scroll_offset(&tree), 0);
    assert_eq!(view.installed_label_point(16), Point::new(32, 636));
    assert_eq!(view.installed_label_size(), Size::new(320, 48));

    let space = 2 * SUB_PIXELS;
    let mut tap = |view: &mut DownloadView, tree: &mut RegionTree, x: i32, y: i32| {
        view.touch_down(0, touch(x, y));
        view.touch_up(tree, 0, 0, space)
    };

    // The last region is at the bottom.
    assert_eq!(tap(&mut view, &mut tree, 30, 580), DownloadRelease::Nothing);
    assert_eq!(tap(&mut view, &mut tree, 30, 530), DownloadRelease::Enter);
    assert_eq!(view.region(&tree), 1);
    assert_eq!(view.tiles_text(), None);

    // Download and delete Germany.
    assert_eq!(tap(&mut view, &mut tree, 30, 530), DownloadRelease::Nothing);
    assert_eq!(tap(&mut view, &mut tree, 350, 540), DownloadRelease::Download(2));
    assert_eq!(tree.get(2).download_state(), DownloadState::Downloading);
    assert_eq!(tap(&mut view, &mut tree, 350, 540), DownloadRelease::Nothing);
    finish_download(&mut tree, 2, true);
    assert_eq!(tap(&mut view, &mut tree, 350, 540), DownloadRelease::Delete(2));
    assert_eq!(tree.get(2).download_state(), DownloadState::Available);
    finish_download(&mut tree, 2, false);
    assert_eq!(tree.get(2).download_state(), DownloadState::Available);
    assert_eq!(tap(&mut view, &mut tree, 30, 400), DownloadRelease::Nothing);

    // Go back to the world, and close the view.
    assert_eq!(tap(&mut view, &mut tree, 340, 640), DownloadRelease::Leave);
    assert_eq!(view.region(&tree), 0);
    assert_eq!(tap(&mut view, &mut tree, 340, 640), DownloadRelease::Close);

    view.begin_frame();
    view.touch_down(0, touch(30, 530));
    assert!(view.touch_motion(0, touch(30, 400)).is_some());
    view.drag(false);
    assert!(!view.dirty());
    assert_eq!(view.touch_up(&mut tree, 0, 0, space), DownloadRelease::Nothing);
}

#[test]
fn deep_regions() {
    let region = || Region::new("A".to_owned(), 5, vec![], None, None);
    let mut tree = RegionTree::new(region());
    for parent in 0..7 {
        tree.insert(parent, "child".to_owned(), region());
    }
    let mut view = DownloadView::new(LAYOUT, REGIONS);
    view.set_size(LAYOUT.size);
    for _ in 0..5 {
        assert_eq!(view.tap_region(&mut tree, 0, false), DownloadRelease::Enter);
    }
    assert_eq!(view.region(&tree), 5);
    assert_eq!(view.tap_region(&mut tree, 0, false), DownloadRelease::TooDeep);
}

#[test]
fn region_entries() {
    assert_eq!(region_text(2048, 0), "2.00 KB");
    assert_eq!(region_text(2048, 1), "2.00 KB · 1 Region");
    assert_eq!(region_text(2048, 12), "2.00 KB · 12 Regions");
    assert_eq!(region_element(DownloadState::NoData), RegionElement::Empty);
    assert_eq!(region_element(DownloadState::Downloading), RegionElement::Progress);
    assert_eq!(region_element(DownloadState::Available), RegionElement::Button(Svg::Download));
    assert_eq!(region_element(DownloadState::Downloaded), RegionElement::Button(Svg::Bin));
}

const SEARCH: SearchLayout = SearchLayout {
    layout: LAYOUT,
    result_height: 100,
    result_padding: 2,
    inside_padding: 16,
    routing_button_size: Size { width: 32, height: 32 },
};

fn search_view() -> SearchView {
    SearchView::new("https://p".to_owned(), "https://v".to_owned(), SEARCH)
}

fn tap(view: &mut SearchView, x: i32, y: i32) -> SearchRelease {
    view.touch_down(0, 1_000, touch(x, y), false, 300, 0);
    view.touch_up(0, 0, 2 * SUB_PIXELS)
}

fn result(title: &str, point: u64, address: &str) -> QueryResult {
    QueryResult {
        point: geo(point),
        distance: None,
        title: title.to_owned(),
        address: address.to_owned(),
        entity_type: String::new(),
        rank: QueryResultRank::Photon(point as usize),
    }
}

#[test]
fn search_layout() {
    assert_eq!(SEARCH.search_button_point(), Point::new(16, 636));
    assert_eq!(SEARCH.back_button_point(), Point::new(336, 636));
    assert_eq!(SEARCH.config_button_point(), Point::new(336, 572));
    assert_eq!(SEARCH.gps_button_point(), Point::new(272, 572));
    assert_eq!(SEARCH.cancel_route_button_point(), Point::new(336, 508));
    assert_eq!(SEARCH.route_mode_button_point(), Point::new(272, 508));
    assert_eq!(SEARCH.search_field_point(), Point::new(80, 636));
    assert_eq!(SEARCH.field_size(), Size::new(240, 48));
    assert_eq!(SEARCH.routing_button_point(), Point::new(368 - 48, 34));
}

#[test]
fn searching() {
    let mut view = search_view();
    assert_eq!(view.status(), Some("Search for an Address or POI".to_owned()));
    view.set_error("Nothing found");
    assert_eq!(view.status(), Some("Nothing found".to_owned()));
    view.set_reference(geo(5), 7);

    // Blank queries just reset the search.
    view.search_field_mut().set_text(" \t".to_owned());
    assert!(matches!(tap(&mut view, 20, 640), SearchRelease::Search(None)));

    view.search_field_mut().set_text("cafe".to_owned());
    let id = match tap(&mut view, 20, 640) {
        SearchRelease::Search(Some(query)) => {
            assert_eq!(query.text, "cafe");
            assert_eq!(query.reference_point, Some(geo(5)));
            assert_eq!(query.reference_zoom, Some(7));
            query.id
        },
        release => panic!("{release:?}"),
    };
    assert_eq!(view.status(), Some("Searching for \"cafe\" …".to_owned()));
    assert_eq!(view.visible_buttons().len(), 2);

    let results = vec![result("A", 1, "1, 2, 3, 4, 5"), result("B", 2, "City, Country")];
    view.geocoder_mut().update(id, QueryResultEvent::Results(results));
    view.geocoder_mut().update(id, QueryResultEvent::PhotonDone);
    view.geocoder_mut().update(id, QueryResultEvent::NlpDone);
    assert_eq!(view.status(), None);
    assert_eq!(view.max_scroll_offset(), 0);
    let titles: Vec<&str> = view.results().iter().map(|result| result.title.as_str()).collect();
    assert_eq!(titles, vec!["A", "B"]);

    // The best result is at the bottom.
    match tap(&mut view, 30, 600) {
        SearchRelease::Goto { point, zoom } => assert_eq!((point, zoom), (geo(1), 18)),
        release => panic!("{release:?}"),
    }
    match tap(&mut view, 30, 500) {
        SearchRelease::Goto { point, zoom } => assert_eq!((point, zoom), (geo(2), 7)),
        release => panic!("{release:?}"),
    }
    assert!(matches!(tap(&mut view, 30, 300), SearchRelease::Nothing));
    assert!(matches!(tap(&mut view, 340, 640), SearchRelease::Show(View::MapView)));
}

#[test]
fn routing() {
    let mut view = search_view();
    assert!(!view.show_route_buttons());
    view.set_route_origin(RouteOrigin::from(geo(1)));
    assert_eq!(view.status(), Some("Enter Destination".to_owned()));
    assert!(view.show_route_buttons());

    // Selecting the GPS location starts the route.
    view.set_gps(Some(geo(2)));
    assert_eq!(view.visible_buttons().len(), 6);
    let query = match tap(&mut view, 280, 580) {
        SearchRelease::Route(request) => {
            assert!(!request.is_gps_route);
            request.query
        },
        release => panic!("{release:?}"),
    };
    assert_eq!((query.origin, query.target, query.mode), (geo(1), geo(2), Mode::Auto));
    assert_eq!(view.status(), Some("Calculating Route …".to_owned()));
    assert!(!view.show_extra_buttons());
    assert!(view.results().is_empty());

    // Routes from the GPS location require a GPS location.
    let request = view.route(RouteOrigin::Gps, geo(3)).unwrap();
    assert!(request.is_gps_route);
    assert_eq!(request.query.origin, geo(2));
    assert_ne!(request.query.id, query.id);
    view.set_gps(None);
    assert_eq!(view.route(RouteOrigin::Gps, geo(3)), None);
}

#[test]
fn active_routes() {
    let mut view = search_view();
    view.set_route(Some(ActiveRoute { origin: RouteOrigin::GeoPoint(geo(1)), target: geo(2) }));
    let request = match tap(&mut view, 280, 510) {
        SearchRelease::Route(request) => request,
        release => panic!("{release:?}"),
    };
    assert_eq!(request.query.mode, Mode::Pedestrian);
    assert_eq!((request.query.origin, request.query.target), (geo(1), geo(2)));

    let mut view = search_view();
    view.set_route(Some(ActiveRoute { origin: RouteOrigin::GeoPoint(geo(1)), target: geo(2) }));
    assert!(matches!(tap(&mut view, 340, 510), SearchRelease::CancelRoute));
    assert!(!view.show_route_buttons());
    assert!(matches!(tap(&mut view, 340, 510), SearchRelease::Nothing));
    assert!(matches!(tap(&mut view, 340, 580), SearchRelease::Show(View::Download)));
    view.set_route_mode(Mode::Pedestrian);
    let request = view.route(RouteOrigin::GeoPoint(geo(1)), geo(2)).unwrap();
    assert_eq!(request.query.mode, Mode::Pedestrian);
}

#[test]
fn routing_buttons_of_results() {
    let mut view = search_view();
    view.search_field_mut().set_text("a".to_owned());
    let id = view.submit_search().unwrap().id;
    let results = vec![result("A", 1, ""), result("B", 2, "")];
    view.geocoder_mut().update(id, QueryResultEvent::Results(results));
    assert_eq!(view.result_at(touch(340, 570).sub_pixel, 0, 2 * SUB_PIXELS), Some((0, true)));
    assert!(matches!(view.tap_result(0, true), SearchRelease::Nothing));
    match view.select_location(RouteOrigin::GeoPoint(geo(2)), geo(2)) {
        SearchRelease::Route(request) => {
            assert_eq!((request.query.origin, request.query.target), (geo(1), geo(2)));
        },
        release => panic!("{release:?}"),
    }
}

#[test]
fn search_focus() {
    let mut view = search_view();
    view.keyboard_enter();
    view.text_input_enter();
    assert!(view.text_input_enabled());
    view.touch_down(0, 1_000, touch(30, 30), false, 300, 0);
    assert!(!view.text_input_enabled());
    assert!(matches!(view.touch_motion(0, touch(40, 90)), SearchMotion::Drag { .. }));
    view.drag(true);
    assert!(matches!(view.touch_up(0, 0, 0), SearchRelease::Nothing));
    view.enter();
    assert!(view.text_input_enabled());

    // Views opened for reverse geocoding are not focused.
    let query = view.reverse(geo(3), 5, "3 3");
    assert_eq!((query.point, query.zoom), (geo(3), 5));
    assert_eq!(view.status(), Some("Searching for \"3 3\" …".to_owned()));
    view.enter();
    assert!(!view.text_input_enabled());
    assert!(matches!(tap(&mut view, 90, 640), SearchRelease::SearchField));
    assert!(view.text_input_enabled());
    view.keyboard_leave();
    view.text_input_leave();
    view.begin_frame();
    view.search_field_mut().draw();
    assert!(!view.dirty());
    view.update_config(true);
    assert!(view.dirty());
    view.set_size(Size::new(500, 800));
    view.set_scale_factor(SEARCH, true);
    assert_eq!(view.layout(), SEARCH);
}

#[test]
fn address_zoom_levels() {
    assert_eq!(zoom_from_address("Germany"), 6);
    assert_eq!(zoom_from_address("City, Germany"), 7);
    assert_eq!(zoom_from_address("a,b,c"), 11);
    assert_eq!(zoom_from_address("a,b,c,d"), 11);
    assert_eq!(zoom_from_address("a,b,c,d,e"), 18);
}

#[test]
fn result_entities() {
    assert_eq!(entity_text("City", None), "City");
    assert_eq!(entity_text("City", Some("5 km")), "City · 5 km");
}

#[test]
fn query_ids() {
    let mut next = u64::MAX;
    assert_eq!(QueryId::new(&mut next), QueryId(u64::MAX));
    assert_eq!(QueryId::new(&mut next), QueryId(0));
    assert_eq!(next, 1);
}

fn views() -> Views {
    Views::new(
        MapView::new(LAYOUT),
        search_view(),
        DownloadView::new(LAYOUT, REGIONS),
        RouteView::new(LAYOUT),
    )
}

#[test]
fn window_views() {
    let mut views = views();
    let mut window = Window::new();
    assert_eq!(views.active(), View::MapView);
    assert!(!window.set_view(&mut views, View::MapView, geo(4)));
    assert!(!window.text_input_dirty);
    assert!(window.set_view(&mut views, View::Search, geo(4)));
    assert!(window.text_input_dirty);
    views.search().search_field_mut().set_text("a".to_owned());
    let query = views.search().submit_search().unwrap();
    assert_eq!(query.reference_point, Some(geo(4)));
    assert_eq!(query.reference_zoom, Some(3));
    views.set_view(View::Route);
    assert_eq!(views.active(), View::Route);
    views.map().set_poi(Some(geo(1)));
    views.download().set_dirty();
    views.route().begin_frame();
    assert!(!views.route.dirty());
}

#[test]
fn window_redraws() {
    let mut window = Window::new();
    assert!(window.perform_initial_draw(false));
    assert!(!window.perform_initial_draw(true));
    assert!(window.stalled);
    assert!(!window.unstall(false));
    assert!(window.stalled);
    assert!(!window.handle_event(false));
    assert!(window.handle_event(true));
    assert!(!window.stalled);
    assert!(!window.handle_event(true));
    assert!(!window.draw(false));
    assert!(window.stalled);
    assert!(!window.set_size(Size::new(360, 720)));
    assert!(window.set_size(Size::new(100, 100)));
    assert!(window.unstall(false));
    window.set_dirty();
    assert!(window.draw(false));
}

#[test]
fn text_input_state() {
    let mut window = Window::new();
    assert_eq!(window.update_text_input(false, true, true), TextInputUpdate::Keep);
    assert_eq!(window.update_text_input(true, false, true), TextInputUpdate::Keep);
    assert_eq!(window.update_text_input(true, true, true), TextInputUpdate::Enable);
    assert_eq!(window.update_text_input(true, true, false), TextInputUpdate::Disable);
    window.text_input_dirty = true;
    assert_eq!(window.update_text_input(false, true, false), TextInputUpdate::Disable);

    let mut input = TextInput::new();
    assert!(!input.disable());
    assert!(input.enable());
    assert!(!input.enable());
    assert!(input.disable());
}
