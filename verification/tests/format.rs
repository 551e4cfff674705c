use charon::text::{
    find_boundary_after, find_boundary_before, parse_u64, replace, slice, splice, split,
    to_decimal, trim,
};
use charon::ui::list::{EntryList, SUB_PIXELS};
use charon::geometry::Point;
use charon::ui::view::format::{format_duration, format_size};

/// Size formatted with floating point numbers.
///
/// The precision is based on the number after rounding.
fn float_size(size: u64) -> String {
    let (unit, divisor) = match size {
        ..1_000 => ("B", 1.),
        1_000..1_023_488 => ("KB", 1024.),
        1_023_488..1_048_051_712 => ("MB", 1024. * 1024.),
        _ => ("GB", 1024. * 1024. * 1024.),
    };
    let size = size as f64 / divisor;
    let text = format!("{size:.2}");
    if text.len() <= 4 {
        return format!("{text} {unit}");
    }
    let text = format!("{size:.1}");
    if text.len() <= 4 {
        return format!("{text} {unit}");
    }
    format!("{size:.0} {unit}")
}

/// Get the number of digits in front of the unit.
fn digits(text: &str) -> usize {
    text.split(' ').next().unwrap().chars().filter(|c| c.is_ascii_digit()).count()
}

#[test]
fn sizes() {
    assert_eq!(format_size(0), "0.00 B");
    assert_eq!(format_size(5), "5.00 B");
    assert_eq!(format_size(99), "99.0 B");
    assert_eq!(format_size(999), "999 B");
    assert_eq!(format_size(1_000), "0.98 KB");
    assert_eq!(format_size(1_536), "1.50 KB");
    assert_eq!(format_size(1_152), "1.12 KB");
    assert_eq!(format_size(10 * 1024), "10.0 KB");
    assert_eq!(format_size(10_234), "9.99 KB");
    assert_eq!(format_size(10_235), "10.0 KB");
    assert_eq!(format_size(10_239), "10.0 KB");
    assert_eq!(format_size(102_348), "99.9 KB");
    assert_eq!(format_size(102_349), "100 KB");
    assert_eq!(format_size(1_023_487), "999 KB");
    assert_eq!(format_size(1_023_488), "0.98 MB");
    assert_eq!(format_size(1_023_999), "0.98 MB");
    assert_eq!(format_size(1_024_000), "0.98 MB");
    assert_eq!(format_size(1_048_051_711), "999 MB");
    assert_eq!(format_size(1_048_051_712), "0.98 GB");
    assert_eq!(format_size(1_073_204_953_087), "999 GB");
    assert_eq!(format_size(111_656_154_464), "104 GB");
    assert_eq!(format_size(40_147_973_727), "37.4 GB");
    assert_eq!(format_size(8_175_312_800), "7.61 GB");
    assert_eq!(format_size(u64::MAX), "17179869184 GB");
}

#[test]
fn sizes_match_floating_point() {
    let mut size = 1u64;
    let mut step = 0u64;
    while size < 1 << 62 {
        step = step.wrapping_mul(6_364_136_223_846_793_005).wrapping_add(1_442_695_040_888_963_407);
        assert_eq!(format_size(size), float_size(size));
        assert_eq!(format_size(size ^ (step % size)), float_size(size ^ (step % size)));
        size += size / 64 + 1;
    }
    for size in [1 << 53, (1 << 53) + 1, (1 << 60) + 64, (1 << 60) + 192, u64::MAX - 1024] {
        assert_eq!(format_size(size), float_size(size));
    }
    for eighths in 0..20_000 {
        assert_eq!(format_size(eighths * 128), float_size(eighths * 128));
    }
}

#[test]
fn sizes_have_three_digits() {
    let mut size = 0u64;
    while size < 1_073_204_953_088 {
        assert_eq!(digits(&format_size(size)), 3);
        size += size / 5_000 + 1;
    }
}

#[test]
fn durations() {
    assert_eq!(format_duration(0), "00:00");
    assert_eq!(format_duration(29), "00:00");
    assert_eq!(format_duration(30), "00:01");
    assert_eq!(format_duration(3_600 + 5 * 60), "01:05");
    assert_eq!(format_duration(3_599), "00:60");
    assert_eq!(format_duration(360_000), "100:00");
}

#[test]
fn text_helpers() {
    assert_eq!(trim(" \u{a0}a b\u{2003}\n"), "a b");
    assert_eq!(trim(" \u{85} "), "");
    for c in (0..0x3100).filter_map(char::from_u32) {
        let text = c.to_string();
        assert_eq!(trim(&text), text.trim());
    }
    assert_eq!(slice("aéb", 1, 3), "é");
    assert_eq!(splice("aéb", 1, 3, "xy"), "axyb");
    assert_eq!(find_boundary_before("aéb", 2), 1);
    assert_eq!(find_boundary_after("aéb", 2), 3);
    assert_eq!(split("a//b", '/'), vec!["a", "", "b"]);
    assert_eq!(replace("a{x}b{x}", "{x}", "12"), "a12b12");
    assert_eq!(parse_u64("+18446744073709551615"), Some(u64::MAX));
    assert_eq!(parse_u64("18446744073709551616"), None);
    assert_eq!(parse_u64(""), None);
    assert_eq!(parse_u64(&to_decimal(120)), Some(120));
}

fn list() -> EntryList {
    EntryList { point: Point::new(16, 500), width: 300, height: 100, padding: 2 }
}

fn sub_pixel(x: i64, y: i64) -> Point<i64> {
    Point::new(x * SUB_PIXELS, y * SUB_PIXELS)
}

#[test]
fn list_entries() {
    let list = list();
    let space = 2 * SUB_PIXELS;

    let entries = list.visible_entries(10, 50);
    assert_eq!(entries, vec![(0, 550), (1, 448), (2, 346), (3, 244), (4, 142), (5, 40), (6, -62)]);

    // Points inside of an entry belong to the entry.
    let (index, relative) = list.entry_at(sub_pixel(20, 448), 50 * SUB_PIXELS, space).unwrap();
    assert_eq!(index, 1);
    assert_eq!(relative, sub_pixel(4, 2));
    let (index, _) = list.entry_at(sub_pixel(20, 547), 50 * SUB_PIXELS, space).unwrap();
    assert_eq!(index, 1);

    // Points between two entries do not belong to either.
    assert_eq!(list.entry_at(sub_pixel(20, 548), 50 * SUB_PIXELS, space), None);
    assert_eq!(list.entry_at(sub_pixel(20, 549), 50 * SUB_PIXELS, space), None);
    let (index, _) = list.entry_at(sub_pixel(20, 550), 50 * SUB_PIXELS, space).unwrap();
    assert_eq!(index, 0);

    // Points next to the list do not belong to any entry.
    assert_eq!(list.entry_at(sub_pixel(15, 550), 0, space), None);
    assert_eq!(list.entry_at(sub_pixel(316, 550), 0, space), None);
    assert_eq!(list.entry_at(sub_pixel(20, 600), 0, space), None);
}

#[test]
fn list_scrolling() {
    let list = list();
    assert_eq!(list.max_scroll_offset(0, 16), 0);
    assert_eq!(list.max_scroll_offset(3, 16), 0);
    assert_eq!(list.max_scroll_offset(10, 16), 10 * 102 - 2 + 16 - 600);
    let entries = list.visible_entries(10, (10 * 102 - 2 + 16 - 600) as i32);
    assert_eq!(entries.last(), Some(&(9, 16)));
}
