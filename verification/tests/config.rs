use charon::config::{
    Color, ColorError, Colors, Font, Input, MillisDuration, Search, Tiles, TILESERVER_URL,
};

#[test]
fn colors() {
    assert_eq!(Color::parse("#752a2a"), Ok(Color::new(117, 42, 42)));
    assert_eq!(Color::parse("#FFFFFF"), Ok(Color::new(255, 255, 255)));
    assert_eq!(Color::parse("#+00010"), Ok(Color::new(0, 0, 16)));
    assert_eq!(Color::parse("752a2a"), Err(ColorError::MissingHash));
    assert_eq!(Color::parse("#752a2"), Err(ColorError::WrongDigitCount(5)));
    assert_eq!(Color::parse("#ééé"), Err(ColorError::NonHexDigits));
    assert_eq!(Color::parse("#75za2a"), Err(ColorError::NonHexDigits));
}

#[test]
fn color_text() {
    let color = Color::new(1, 171, 0);
    assert_eq!(color.to_string(), "#01ab00");
    assert_eq!(color.format(), "\"#01ab00\"");
    assert_eq!(Color::parse(&color.to_string()), Ok(color));
}

#[test]
fn default_colors() {
    let colors = Colors::default();
    assert_eq!(colors.foreground.format(), "\"#ffffff\"");
    assert_eq!(colors.background.format(), "\"#181818\"");
    assert_eq!(colors.highlight.format(), "\"#752a2a\"");
    assert_eq!(colors.alt_foreground.format(), "\"#bfbfbf\"");
    assert_eq!(colors.alt_background.format(), "\"#282828\"");
}

#[test]
fn default_tiles() {
    let tiles = Tiles::try_default().unwrap();
    let token = tiles.server.strip_prefix(TILESERVER_URL).unwrap();
    assert!(token.starts_with("?access-token="));
    assert_eq!(token.len(), 78);
    assert_eq!(tiles.max_mem_tiles, 1_000);
    assert_eq!(tiles.max_fs_tiles, 50_000);
    assert_eq!(tiles.attribution, "© JawgMaps © OpenStreetMap");

    let tiles = Tiles::with_token("?a");
    assert_eq!(
        tiles.server,
        "https://tile.jawg.io/c09eed68-abaf-45b9-bed8-8bb2076013d7/{z}/{x}/{y}.png?a"
    );
}

#[test]
fn default_options() {
    let font = Font::default();
    assert_eq!(font.family, "sans");
    assert_eq!(f32::from_bits(font.size), 18.);

    let input = Input::default();
    assert_eq!(input.velocity_interval, 30);
    assert_eq!(f64::from_bits(input.velocity_friction), 0.85);
    assert_eq!(f64::from_bits(input.max_tap_distance), 400.);
    assert_eq!(input.max_multi_tap, MillisDuration(300));
    assert_eq!(input.max_multi_tap.to_string(), "300");

    assert_eq!(Search::default().nominatim_url, "https://nominatim.openstreetmap.org");
}
