use charon::geometry::GeoPoint;
use charon::router::polyline::{
    decode_polyline, parse_polyline_coordinate, try_decode_polyline, Coordinate,
};
use charon::router::valhalla::{route_url, Leg, Maneuver, Summary, Trip};
use charon::router::{
    Mode, Route, Router, RouterAction, RoutingQuery, RoutingUpdate, Segment, UrlChange,
};
use charon::ui::skia::Svg;
use charon::ui::view::search::QueryId;

fn coordinates(shape: Vec<(i32, i32)>, precision: f64) -> Vec<(f64, f64)> {
    shape.iter().map(|(lat, lon)| (*lat as f64 / precision, *lon as f64 / precision)).collect()
}

#[test]
fn decode_polyline5() {
    let x = coordinates(decode_polyline("_p~iF~ps|U_ulLnnqC_mqNvxq`@"), 1E5);
    let decoded = vec![(38.5, -120.2), (40.7, -120.95), (43.252, -126.453)];
    assert_eq!(x, decoded);
}

#[test]
fn decode_polyline6() {
    let x = coordinates(decode_polyline("e~epoA|jfpOiDaK"), 1E6);
    let decoded = vec![(42.225139, -8.670911), (42.225224, -8.670718)];
    assert_eq!(x, decoded);
}

#[test]
fn incomplete_polyline() {
    assert_eq!(decode_polyline(""), vec![]);
    assert_eq!(try_decode_polyline("_p~iF~ps|U"), Some(vec![(3850000, -12020000)]));
    assert_eq!(try_decode_polyline("_p~iF~ps|U_ulL"), Some(vec![(3850000, -12020000)]));
    let chars = "_p~iF".chars().collect();
    assert!(matches!(parse_polyline_coordinate(&chars, 0, 7), Coordinate::Value(3850007, 5)));
    assert!(matches!(parse_polyline_coordinate(&chars, 5, 7), Coordinate::End));
    let chars = "~~~~~~~~~~".chars().collect();
    assert!(matches!(parse_polyline_coordinate(&chars, 0, 0), Coordinate::Invalid));
    assert_eq!(try_decode_polyline("~~~~~~~~~~"), None);
}

fn point(n: u64) -> GeoPoint {
    GeoPoint::new(n, n)
}

fn route(time: u64) -> Route {
    Route { segments: vec![], time, length: 5, mode: Mode::Auto }
}

#[test]
fn shortest_route_wins() {
    let mut router = Router::new("https://valhalla".to_owned(), QueryId(0));
    assert!(!router.routing());
    router.route(RoutingQuery::new(QueryId(1), point(0), point(1), Mode::Auto));
    assert!(router.routing());

    // Events for old queries are ignored.
    let action = router.update(QueryId(0), RoutingUpdate::ValhallaApiDone);
    assert!(matches!(action, RouterAction::Wait));
    assert!(router.routing());

    for time in [30, 10, 20] {
        let action = router.update(QueryId(1), RoutingUpdate::Results(route(time)));
        assert!(matches!(action, RouterAction::Wait));
    }
    match router.update(QueryId(1), RoutingUpdate::ValhallaApiDone) {
        RouterAction::Show(route) => assert_eq!(route.time, 10),
        action => panic!("{action:?}"),
    }
    assert!(!router.routing());
}

#[test]
fn no_route() {
    let mut router = Router::new(String::new(), QueryId(0));
    router.route(RoutingQuery::new(QueryId(1), point(0), point(1), Mode::Auto));
    let action = router.update(QueryId(1), RoutingUpdate::ValhallaApiDone);
    assert!(matches!(action, RouterAction::NoRoute));
}

#[test]
fn router_config() {
    let mut router = Router::new("https://a".to_owned(), QueryId(0));
    assert_eq!(router.update_config("https://a"), UrlChange::Unchanged);
    assert_eq!(router.update_config("https://b"), UrlChange::Restart);
    assert_eq!(router.update_config(""), UrlChange::Stop);
}

#[test]
fn transportation_modes() {
    assert_eq!(Mode::default(), Mode::Auto);
    assert_eq!(Mode::Auto.toggled(), Mode::Pedestrian);
    assert_eq!(Mode::Pedestrian.toggled(), Mode::Auto);
    assert_eq!(Mode::Auto.svg(), Svg::Car);
    assert_eq!(Mode::Pedestrian.svg(), Svg::Pedestrian);
}

fn trip(status: i32) -> Trip {
    let maneuver = |begin: usize, end: usize, instruction: &str| Maneuver {
        length: 10,
        instruction: instruction.to_owned(),
        time: 20,
        begin_shape_index: begin,
        end_shape_index: end,
    };
    let leg = Leg {
        maneuvers: vec![maneuver(0, 2, "Turn left."), maneuver(2, 9, "Out of shape"), maneuver(2, 3, "Stop")],
        shape: vec![point(0), point(1), point(2), point(3)],
    };
    Trip {
        legs: vec![leg],
        summary: Summary { length: 30, time: 40 },
        status,
        status_message: String::new(),
    }
}

#[test]
fn valhalla_trip() {
    assert!(trip(0).check_forward());
    assert!(trip(1).route(Mode::Auto).is_none());

    let route = trip(0).route(Mode::Pedestrian).unwrap();
    assert_eq!((route.time, route.length, route.mode), (40, 30, Mode::Pedestrian));
    assert_eq!(route.segments.len(), 2);
    let Segment { points, instruction, time, length } = &route.segments[0];
    assert_eq!(points, &vec![point(0), point(1), point(2)]);
    assert_eq!(instruction, "Turn left");
    assert_eq!((*time, *length), (20, 10));
    assert_eq!(route.segments[1].points, vec![point(2), point(3)]);
}

#[test]
fn valhalla_backward_trip() {
    let mut trip = trip(0);
    trip.legs[0].maneuvers[0].end_shape_index = 0;
    trip.legs[0].maneuvers[0].begin_shape_index = 2;
    assert!(!trip.check_forward());
}

#[test]
fn valhalla_url() {
    assert_eq!(route_url("https://a", "{}"), "https://a/route?json={}");
}
