use charon::dbus::modem_manager::{
    gps_refresh_rate, is_modem_path, location, polling_interval, ModemLocationSource, ModemStatus,
};
use charon::dbus::{CompassClaim, CompassUpdate, SensorState};
use charon::geometry::GeoPoint;
use charon::keyboard::{
    ClipboardState, CurrentRepeat, KeyboardState, Keysym, RepeatAction, RepeatInfo,
};

#[test]
fn key_repeat() {
    let mut keyboard = KeyboardState::new();
    let letter = Keysym { raw: 0x61 };
    assert_eq!(keyboard.press_key(1, 30, letter), RepeatAction::Cancel);
    assert_eq!(keyboard.current_repeat, None);

    keyboard.repeat_info = RepeatInfo::Repeat { rate: 30, delay: 400 };
    let action = keyboard.press_key(1, 30, letter);
    assert_eq!(action, RepeatAction::Stage { delay: 400, interval: 33 });
    assert_eq!(keyboard.current_repeat, Some(CurrentRepeat::new(30, 1, 400)));

    // Modifiers do not affect repetition.
    for raw in [0xffe1, 0xffee, 0xfe01, 0xfe13, 0xff7e, 0xff7f] {
        assert_eq!(keyboard.press_key(2, 40, Keysym { raw }), RepeatAction::Keep);
    }
    for raw in [0xffe0, 0xffef, 0xfe00, 0xfe14, 0xff7d, 0xff80] {
        let action = keyboard.press_key(2, 30, Keysym { raw });
        assert_eq!(action, RepeatAction::Stage { delay: 400, interval: 33 });
    }

    assert_eq!(keyboard.release_key(31), RepeatAction::Keep);
    assert!(keyboard.current_repeat.is_some());
    assert_eq!(keyboard.release_key(30), RepeatAction::Cancel);
    assert_eq!(keyboard.current_repeat, None);
}

#[test]
fn repeat_times() {
    let mut repeat = CurrentRepeat::new(30, 100, 33);
    assert_eq!(repeat.next_time(), 133);
    assert_eq!(repeat.next_time(), 166);
}

#[test]
fn clipboard_serials() {
    let mut clipboard = ClipboardState::new();
    assert_eq!(clipboard.text, "");
    assert_eq!(clipboard.next_serial(), 1);
    assert_eq!(clipboard.next_serial(), 2);
}

#[test]
fn gps_refresh_rates() {
    let modem = |enabled: Option<u32>, refresh_rate: Option<u32>| ModemStatus {
        enabled,
        refresh_rate,
    };
    assert_eq!(ModemLocationSource::GpsRaw.bits(), 2);
    assert_eq!(gps_refresh_rate(&vec![]), None);
    let modems = vec![
        modem(Some(6), Some(30)),
        modem(Some(5), Some(1)),
        modem(None, Some(1)),
        modem(Some(2), None),
        modem(Some(2), Some(10)),
    ];
    assert_eq!(gps_refresh_rate(&modems), Some(10));
    assert_eq!(polling_interval(Some(10)), Some(10));
    assert_eq!(polling_interval(Some(0)), Some(1));
    assert_eq!(polling_interval(None), None);
}

#[test]
fn gps_locations() {
    let point = GeoPoint::new(1, 2);
    assert_eq!(location(&vec![None, Some(point), Some(GeoPoint::new(3, 4))]), Some(point));
    assert_eq!(location(&vec![None]), None);
    assert!(is_modem_path("/org/freedesktop/ModemManager1/Modem/0"));
    assert!(!is_modem_path("/org/freedesktop/ModemManager1/SIM/0"));
    assert!(!is_modem_path("/org"));
}

#[test]
fn compass() {
    let mut sensors = SensorState::new(None, true);
    let update = CompassUpdate { claim: CompassClaim::Keep, listen: false };
    assert_eq!(sensors.update_compass(), update);
    sensors.set_location(Some(GeoPoint::new(1, 2)));
    let update = CompassUpdate { claim: CompassClaim::Claim, listen: true };
    assert_eq!(sensors.update_compass(), update);
    let update = CompassUpdate { claim: CompassClaim::Keep, listen: true };
    assert_eq!(sensors.update_compass(), update);
    sensors.set_heading(Some(5));
    assert_eq!(sensors.heading, Some(5));
    sensors.set_heading(None);
    assert_eq!(sensors.heading, Some(0));
    sensors.set_location(None);
    let update = CompassUpdate { claim: CompassClaim::Release, listen: false };
    assert_eq!(sensors.update_compass(), update);
    assert_eq!(sensors.heading, None);

    let mut sensors = SensorState::new(Some(GeoPoint::new(1, 2)), false);
    let update = CompassUpdate { claim: CompassClaim::Keep, listen: false };
    assert_eq!(sensors.update_compass(), update);
}
