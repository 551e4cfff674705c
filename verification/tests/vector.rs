use charon::config::Color;
use charon::tiles::vector::command::{decode_parameter, is_decodable, Command, GeometryIter};
use charon::tiles::vector::draw::{DrawOp, PathVerb, TileRenderer};
use charon::tiles::vector::kind::Kind;
use charon::tiles::vector::layer::{GeometryType, Layer};
use charon::tiles::vector::protobuf::{Feature, GeomType, Layer as ProtobufLayer, Tile, Value};
use charon::tiles::vector::render::is_renderable;
use charon::tiles::vector::theme::{Style, Tags, Theme};

#[test]
fn empty_geometry_iter() {
    let geometry = [];
    let mut iter = GeometryIter::new(&geometry);

    assert_eq!(iter.next(), None);
}

#[test]
fn single_geometry_iter() {
    let geometry = [9, 50, 34];
    let mut iter = GeometryIter::new(&geometry);

    assert_eq!(iter.next(), Some(Command::MoveTo(25, 17)));
    assert_eq!(iter.next(), None);

    let geometry = [10, 50, 34];
    let mut iter = GeometryIter::new(&geometry);

    assert_eq!(iter.next(), Some(Command::LineTo(25, 17)));
    assert_eq!(iter.next(), None);

    let geometry = [15];
    let mut iter = GeometryIter::new(&geometry);

    assert_eq!(iter.next(), Some(Command::ClosePath));
    assert_eq!(iter.next(), None);
}

#[test]
fn multi_geometry_iter() {
    let geometry = [17, 10, 14, 3, 9];
    let mut iter = GeometryIter::new(&geometry);

    assert_eq!(iter.next(), Some(Command::MoveTo(5, 7)));
    assert_eq!(iter.next(), Some(Command::MoveTo(-2, -5)));
    assert_eq!(iter.next(), None);

    let geometry = [9, 4, 4, 18, 0, 16, 16, 0];
    let mut iter = GeometryIter::new(&geometry);

    assert_eq!(iter.next(), Some(Command::MoveTo(2, 2)));
    assert_eq!(iter.next(), Some(Command::LineTo(0, 8)));
    assert_eq!(iter.next(), Some(Command::LineTo(8, 0)));
    assert_eq!(iter.next(), None);

    let geometry = [9, 4, 4, 18, 0, 16, 16, 0, 9, 17, 17, 10, 4, 8];
    let mut iter = GeometryIter::new(&geometry);

    assert_eq!(iter.next(), Some(Command::MoveTo(2, 2)));
    assert_eq!(iter.next(), Some(Command::LineTo(0, 8)));
    assert_eq!(iter.next(), Some(Command::LineTo(8, 0)));
    assert_eq!(iter.next(), Some(Command::MoveTo(-9, -9)));
    assert_eq!(iter.next(), Some(Command::LineTo(2, 4)));
    assert_eq!(iter.next(), None);

    let geometry = [9, 6, 12, 18, 10, 12, 24, 44, 15];
    let mut iter = GeometryIter::new(&geometry);

    assert_eq!(iter.next(), Some(Command::MoveTo(3, 6)));
    assert_eq!(iter.next(), Some(Command::LineTo(5, 6)));
    assert_eq!(iter.next(), Some(Command::LineTo(12, 22)));
    assert_eq!(iter.next(), Some(Command::ClosePath));
    assert_eq!(iter.next(), None);

    let geometry = [
        9, 0, 0, 26, 20, 0, 0, 20, 19, 0, 15, 9, 22, 2, 26, 18, 0, 0, 18, 17, 0, 15, 9, 4, 13, 26,
        0, 8, 8, 0, 0, 7, 15,
    ];
    let mut iter = GeometryIter::new(&geometry);

    assert_eq!(iter.next(), Some(Command::MoveTo(0, 0)));
    assert_eq!(iter.next(), Some(Command::LineTo(10, 0)));
    assert_eq!(iter.next(), Some(Command::LineTo(0, 10)));
    assert_eq!(iter.next(), Some(Command::LineTo(-10, 0)));
    assert_eq!(iter.next(), Some(Command::ClosePath));
    assert_eq!(iter.next(), Some(Command::MoveTo(11, 1)));
    assert_eq!(iter.next(), Some(Command::LineTo(9, 0)));
    assert_eq!(iter.next(), Some(Command::LineTo(0, 9)));
    assert_eq!(iter.next(), Some(Command::LineTo(-9, 0)));
    assert_eq!(iter.next(), Some(Command::ClosePath));
    assert_eq!(iter.next(), Some(Command::MoveTo(2, -7)));
    assert_eq!(iter.next(), Some(Command::LineTo(0, 4)));
    assert_eq!(iter.next(), Some(Command::LineTo(4, 0)));
    assert_eq!(iter.next(), Some(Command::LineTo(0, -4)));
    assert_eq!(iter.next(), Some(Command::ClosePath));
    assert_eq!(iter.next(), None);
}

fn theme() -> Theme {
    let color = |n: u8| Color::new(n, n, n);
    Theme {
        land: color(1),
        water: color(2),
        border: color(3),
        street: color(4),
        street_highway: color(5),
        street_primary: color(6),
        street_secondary: color(7),
        street_footway: color(8),
        street_plaza: color(9),
        street_rail: color(10),
        nature_forest: color(11),
        nature_grass: color(12),
        nature_scrub: color(13),
        nature_park: color(14),
        building: color(15),
        text: color(16),
    }
}

fn tags(kind: &str) -> Tags {
    Tags { name: None, tunnel: false, kind: Kind::from(kind) }
}

#[test]
fn styles() {
    let theme = theme();
    let style = theme.style(Layer::Streets, &tags("primary")).unwrap();
    assert_eq!(style, Style { color: theme.street_primary, stroke_width: 10, dash: None });
    let style = theme.style(Layer::Streets, &tags("footway")).unwrap();
    assert_eq!(style, Style { color: theme.street_footway, stroke_width: 1, dash: Some((4, 6)) });
    assert_eq!(theme.style(Layer::Ocean, &tags("")), Some(Style::from_color(theme.water)));
    assert_eq!(theme.style(Layer::Land, &tags("primary")), None);
    assert_eq!(theme.style(Layer::StreetLabels, &tags("primary")), None);
    assert_eq!(theme.style(Layer::Land, &tags("forest")), Some(Style::from_color(theme.nature_forest)));
}

#[test]
fn layers() {
    assert_eq!(Layer::from_str("street_labels"), Ok(Layer::StreetLabels));
    assert_eq!(Layer::from_str("addresses"), Err(()));
    assert!(Layer::Land.rank() < Layer::Streets.rank());
    assert_eq!(GeometryType::try_from(GeomType::Linestring), Ok(GeometryType::Linestring));
    assert_eq!(GeometryType::try_from(GeomType::Unknown), Err(()));
}

fn text_value(text: &str) -> Value {
    Value {
        string_value: Some(text.to_owned()),
        int_value: None,
        uint_value: None,
        sint_value: None,
        bool_value: None,
    }
}

fn feature(tags: Vec<u32>, geometry_type: i32, geometry: Vec<u32>) -> Feature {
    Feature { id: None, tags, geometry_type: Some(geometry_type), geometry }
}

fn layer(name: &str, features: Vec<Feature>) -> ProtobufLayer {
    ProtobufLayer {
        version: 2,
        name: name.to_owned(),
        features,
        keys: vec!["kind".to_owned(), "name".to_owned()],
        values: vec![text_value("primary"), text_value("path"), text_value("Main Street")],
        extent: 4096,
    }
}

#[test]
fn rendered_tile() {
    let line = || vec![9, 50, 34, 10, 2, 2];
    let polygon = vec![9, 0, 0, 18, 10, 0, 0, 10, 15];
    let tile = Tile {
        layers: vec![
            layer("streets", vec![feature(vec![0, 1], 2, line()), feature(vec![0, 0], 2, line())]),
            layer("ocean", vec![feature(vec![], 3, polygon)]),
            layer("unknown", vec![feature(vec![0, 0], 2, line())]),
            layer("street_labels", vec![feature(vec![0, 0, 1, 2], 2, line())]),
        ],
    };
    assert!(is_renderable(&tile));
    let theme = theme();
    let mut renderer = TileRenderer::new(theme);
    renderer.render(&tile);
    let calls = renderer.into_calls();

    // Layers are drawn from the bottom to the top.
    let street = vec![PathVerb::MoveTo(25, 17), PathVerb::LineTo(26, 18)];
    assert_eq!(calls.len(), 4);
    assert!(matches!(calls[0].op, DrawOp::Fill(color) if color == theme.water));
    assert_eq!(
        calls[0].path,
        vec![
            PathVerb::MoveTo(0, 0),
            PathVerb::LineTo(5, 0),
            PathVerb::LineTo(5, 5),
            PathVerb::Close
        ]
    );
    assert!(matches!(
        calls[1].op,
        DrawOp::Stroke { color, width: 10, dash: None, .. } if color == theme.street_primary
    ));
    assert!(matches!(
        calls[2].op,
        DrawOp::Stroke { color, dash: Some((4, 6)), .. } if color == theme.street_footway
    ));
    assert_eq!(calls[2].path, street);
    assert_eq!(calls[2].extent, 4096);
    match &calls[3].op {
        DrawOp::Text(text) => assert_eq!(text, "Main Street"),
        op => panic!("{op:?}"),
    }
}

#[test]
fn invalid_tile() {
    let tile = Tile { layers: vec![layer("streets", vec![feature(vec![0, 7], 2, vec![])])] };
    assert!(!is_renderable(&tile));
    assert!(is_decodable(&[9, 50, 34]));
    assert!(!is_decodable(&[7]));
    assert_eq!(decode_parameter(3), -2);
    assert_eq!(decode_parameter(50), 25);
}

#[test]
fn kind_order() {
    let kinds = ["sand", "park", "forest", "water", "residential", "primary", "motorway", "path"];
    let ranks: Vec<u8> = kinds.iter().map(|kind| Kind::from(*kind).rank()).collect();
    assert!(ranks.windows(2).all(|ranks| ranks[0] < ranks[1]));
    assert_eq!(Kind::from("unheard of"), Kind::Unknown);
    assert_eq!(Kind::default(), Kind::Untagged);
}
