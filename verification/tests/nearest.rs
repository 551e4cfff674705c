use charon::ui::view::map::nearest::{nearest_route_segment, MAX_BAD_SEGMENTS};

/// Geographical point.
#[derive(Copy, Clone, PartialEq)]
struct GeoPoint {
    lat: f64,
    lon: f64,
}

impl GeoPoint {
    fn new(lat: f64, lon: f64) -> Self {
        Self { lat, lon }
    }

    fn distance(&self, other: Self) -> u32 {
        let slat = self.lat.to_radians();
        let olat = other.lat.to_radians();
        let delta_lat = (self.lat - other.lat).to_radians();
        let delta_lon = (self.lon - other.lon).to_radians();
        let a = (delta_lat / 2.).sin().powi(2)
            + slat.cos() * olat.cos() * (delta_lon / 2.).sin().powi(2);
        let c = 2. * a.sqrt().atan2((1. - a).sqrt());
        (6_371_000. * c).round() as u32
    }
}

fn nearest_point(start: GeoPoint, end: GeoPoint, point: GeoPoint) -> GeoPoint {
    if start == end {
        return start;
    }
    let squared_length = (end.lat - start.lat).powi(2) + (end.lon - start.lon).powi(2);
    let projection = ((point.lat - start.lat) * (end.lat - start.lat)
        + (point.lon - start.lon) * (end.lon - start.lon))
        / squared_length;
    let projection = projection.clamp(0., 1.);
    GeoPoint::new(
        start.lat + projection * (end.lat - start.lat),
        start.lon + projection * (end.lon - start.lon),
    )
}

/// Index of the closest segment, and its distance in meters.
fn nearest(route: &[GeoPoint], point: GeoPoint) -> (usize, u32) {
    let nearest: Vec<GeoPoint> =
        route.windows(2).map(|nodes| nearest_point(nodes[0], nodes[1], point)).collect();
    let distances = nearest
        .iter()
        .map(|nearest| {
            let lat = (point.lat - nearest.lat).powi(2);
            let lon = (point.lon - nearest.lon).powi(2);
            (lat + lon).to_bits()
        })
        .collect();
    match nearest_route_segment(&distances) {
        Some(index) => (index, nearest[index].distance(point)),
        None => (0, u32::MAX),
    }
}

#[test]
fn nearest_segment_broken_route() {
    let (index, distance) = nearest(&[], GeoPoint::new(0., 0.));
    assert_eq!(distance, u32::MAX);
    assert_eq!(index, 0);

    let (index, distance) = nearest(&[GeoPoint::new(10., 10.)], GeoPoint::new(0., 0.));
    assert_eq!(distance, u32::MAX);
    assert_eq!(index, 0);
}

#[test]
fn nearest_segment_tiny_route() {
    let route = vec![GeoPoint::new(1., 1.), GeoPoint::new(0., 0.)];
    let (index, distance) = nearest(&route, GeoPoint::new(0., 0.));
    assert_eq!(distance, 0);
    assert_eq!(index, 0);

    let route = vec![GeoPoint::new(0., 0.), GeoPoint::new(1., 1.)];
    let (index, distance) = nearest(&route, GeoPoint::new(0., 0.));
    assert_eq!(distance, 0);
    assert_eq!(index, 0);
}

#[test]
fn nearest_segment_edge_segment() {
    let route = vec![GeoPoint::new(0., 0.), GeoPoint::new(2., 2.), GeoPoint::new(3., 3.)];
    let (index, distance) = nearest(&route, GeoPoint::new(0., 0.));
    assert_eq!(distance, distance);
    assert_eq!(index, 0);

    let route = vec![GeoPoint::new(3., 3.), GeoPoint::new(2., 2.), GeoPoint::new(1., 1.)];
    let (index, distance) = nearest(&route, GeoPoint::new(0., 0.));
    assert_eq!(distance, distance);
    assert_eq!(index, 1);
}

#[test]
fn nearest_segment_center() {
    let route = vec![
        GeoPoint::new(-1., -1.),
        GeoPoint::new(0., 0.),
        GeoPoint::new(0.5, 0.5),
        GeoPoint::new(1.5, 1.5),
    ];
    let (index, distance) = nearest(&route, GeoPoint::new(0., 0.));
    assert_eq!(distance, 0);
    assert_eq!(index, 1);
}

#[test]
fn nearest_segment_local_optima() {
    let route = vec![
        GeoPoint::new(5., 5.),
        GeoPoint::new(4., 4.),
        GeoPoint::new(3., 3.),
        GeoPoint::new(99., 99.), //  !
        GeoPoint::new(99., 99.),
        GeoPoint::new(99., 99.), // +2
        GeoPoint::new(99., 99.),
        GeoPoint::new(99., 99.),
        GeoPoint::new(99., 99.),
        GeoPoint::new(0., 0.), //   +4
        GeoPoint::new(99., 99.),
    ];
    let (index, distance) = nearest(&route, GeoPoint::new(0., 0.));
    assert_eq!(distance, 0);
    assert_eq!(index, 9);

    let route = vec![
        GeoPoint::new(5., 5.),
        GeoPoint::new(4., 4.),
        GeoPoint::new(3., 3.),
        GeoPoint::new(99., 99.), //  !
        GeoPoint::new(99., 99.),
        GeoPoint::new(99., 99.), // +2
        GeoPoint::new(-1., -1.),
        GeoPoint::new(0., 0.),
        GeoPoint::new(1., 1.),
        GeoPoint::new(2., 2.), //  + 4
        GeoPoint::new(99., 99.),
    ];
    let (index, distance) = nearest(&route, GeoPoint::new(0., 0.));
    assert_eq!(distance, 0);
    assert_eq!(index, 7);
}

#[test]
fn nearest_segment_identical_nodes() {
    let route = vec![GeoPoint::new(0., 0.); 10];
    let (index, distance) = nearest(&route, GeoPoint::new(0., 0.));
    assert_eq!(distance, 0);
    assert_eq!(index, 8);
}

#[test]
fn nearest_segment_equal_distance_separate_nodes() {
    let route = vec![
        GeoPoint::new(9., 9.),
        GeoPoint::new(1., 1.),
        GeoPoint::new(1., -1.),
        GeoPoint::new(-1., -1.),
        GeoPoint::new(-1., 1.),
        GeoPoint::new(1., 1.),
        GeoPoint::new(9., 9.),
    ];
    let origin = GeoPoint::new(0., 0.);
    let (index, distance) = nearest(&route, origin);
    assert_eq!(distance, origin.distance(GeoPoint::new(0., 1.)));
    assert_eq!(index, 4);
}

#[test]
fn nearest_segment_closer_segment_farther_node() {
    let route = vec![
        GeoPoint::new(0., 0.),
        GeoPoint::new(10., 0.),
        GeoPoint::new(10., 3.),
        GeoPoint::new(5., 3.),
        GeoPoint::new(99., 99.),
    ];

    let origin = GeoPoint::new(5., 0.);
    let (index, distance) = nearest(&route, origin);
    assert_eq!(distance, 0);
    assert_eq!(index, 0);
}

#[test]
fn nearest_segment_parallel() {
    let route = vec![
        GeoPoint::new(0., 0.),
        GeoPoint::new(1., 0.),
        GeoPoint::new(2., 0.),
        GeoPoint::new(3., 0.),
        GeoPoint::new(4., 0.),
    ];

    let origin = GeoPoint::new(0., 1.);
    let (index, distance) = nearest(&route, origin);
    assert_eq!(distance, GeoPoint::new(0., 0.).distance(origin));
    assert_eq!(index, 0);

    let origin = GeoPoint::new(2.5, 1.);
    let (index, distance) = nearest(&route, origin);
    assert_eq!(distance, GeoPoint::new(2.5, 0.).distance(origin));
    assert_eq!(index, 2);

    let origin = GeoPoint::new(4., 1.);
    let (index, distance) = nearest(&route, origin);
    assert_eq!(distance, GeoPoint::new(4., 0.).distance(origin));
    assert_eq!(index, 3);
}

#[test]
fn nearest_segment_on_route() {
    let route = vec![
        GeoPoint::new(0., 0.),
        GeoPoint::new(1., 0.),
        GeoPoint::new(2., 0.),
        GeoPoint::new(3., 0.),
        GeoPoint::new(4., 0.),
    ];

    let (index, distance) = nearest(&route, GeoPoint::new(0., 0.));
    assert_eq!(distance, 0);
    assert_eq!(index, 0);

    let (index, distance) = nearest(&route, GeoPoint::new(2.5, 0.));
    assert_eq!(distance, 0);
    assert_eq!(index, 2);

    let (index, distance) = nearest(&route, GeoPoint::new(4., 0.));
    assert_eq!(distance, 0);
    assert_eq!(index, 3);
}

#[test]
fn nearest_segment_beyond_route() {
    let route = vec![GeoPoint::new(0., 0.), GeoPoint::new(1., 0.), GeoPoint::new(2., 0.)];

    let origin = GeoPoint::new(-1., 0.);
    let (index, distance) = nearest(&route, GeoPoint::new(-1., 0.));
    assert_eq!(distance, route[0].distance(origin));
    assert_eq!(index, 0);

    let origin = GeoPoint::new(3., 0.);
    let (index, distance) = nearest(&route, GeoPoint::new(3., 0.));
    assert_eq!(distance, route[2].distance(origin));
    assert_eq!(index, 1);
}

#[test]
fn nearest_segment_real_route() {
    let route = vec![
        GeoPoint::new(51.504314, 7.058997),
        GeoPoint::new(51.504311, 7.059138),
        GeoPoint::new(51.504311, 7.059178),
        GeoPoint::new(51.504311, 7.059279),
        GeoPoint::new(51.504311, 7.059279),
        GeoPoint::new(51.503564, 7.059259),
    ];
    let origin = GeoPoint::new(51.504086, 7.0592);

    let (index, distance) = nearest(&route, origin);

    assert_eq!(distance, 5);
    assert_eq!(index, 4);
}

#[test]
fn search_is_aborted() {
    let mut distances = vec![5u64];
    distances.resize(1 + MAX_BAD_SEGMENTS, 9);
    distances.push(1);
    assert_eq!(nearest_route_segment(&distances), Some(1 + MAX_BAD_SEGMENTS));

    distances.insert(1, 9);
    assert_eq!(nearest_route_segment(&distances), Some(0));
}

#[test]
fn short_routes_are_searched_completely() {
    // Without a finite distance, every segment up to the last one may be bad.
    let mut distances = vec![u64::MAX; MAX_BAD_SEGMENTS];
    distances.push(1);
    assert_eq!(nearest_route_segment(&distances), Some(MAX_BAD_SEGMENTS));
    distances.insert(0, u64::MAX);
    assert_eq!(nearest_route_segment(&distances), None);

    // A finite first distance is never bad.
    distances[0] = 5;
    assert_eq!(nearest_route_segment(&distances), Some(MAX_BAD_SEGMENTS + 1));
}
