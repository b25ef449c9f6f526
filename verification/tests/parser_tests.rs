use zephyr::common::{ParseErrorKind, get_units};
use zephyr::fields::{
    parse_elevation, parse_last_update, parse_temperature, parse_wind, wind_direction_to_degrees,
};
use zephyr::geo::project;
use zephyr::text::{parse_i64, parse_scaled, parse_u64, tokenize, trim_exec};
use zephyr::time_utc::{UtcStamp, format_iso_minute, resolve_time_of_day};

#[test]
fn wind_calm_marker() {
    assert_eq!(parse_wind(b"Calma", true).unwrap(), (0, None));
}

#[test]
fn wind_zero_speed_ignores_direction_token() {
    assert_eq!(parse_wind(b"0 km/h", true).unwrap(), (0, None));
    assert_eq!(parse_wind(b"0 km/h N", true).unwrap(), (0, None));
    assert_eq!(parse_wind(b"0 km/h garbage", true).unwrap(), (0, None));
}

#[test]
fn wind_speed_with_direction() {
    assert_eq!(parse_wind(b"12 km/h N", true).unwrap(), (12, Some(0)));
    assert_eq!(parse_wind(b"7 km/h SW", true).unwrap(), (7, Some(225000)));
}

#[test]
fn wind_wrong_unit_fails() {
    let e = parse_wind(b"12 mph N", true).unwrap_err();
    assert_eq!(e.kind, ParseErrorKind::WrongUnit);
    assert_eq!(e.raw, b"mph".to_vec());
}

#[test]
fn wind_bad_direction_fails() {
    let e = parse_wind(b"12 km/h XX", true).unwrap_err();
    assert_eq!(e.kind, ParseErrorKind::BadDirection);
    let e = parse_wind(b"12 km/h", true).unwrap_err();
    assert_eq!(e.kind, ParseErrorKind::BadDirection);
}

#[test]
fn wind_without_direction_request() {
    assert_eq!(parse_wind(b"12 km/h N", false).unwrap(), (12, None));
    assert_eq!(parse_wind(b"20 km/h", false).unwrap(), (20, None));
}

#[test]
fn wind_bad_speed_fails() {
    let e = parse_wind(b"abc km/h N", true).unwrap_err();
    assert_eq!(e.kind, ParseErrorKind::BadSpeed);
}

#[test]
fn compass_table() {
    assert_eq!(wind_direction_to_degrees(b"N"), Some(0));
    assert_eq!(wind_direction_to_degrees(b"NNE"), Some(22500));
    assert_eq!(wind_direction_to_degrees(b"NE"), Some(45000));
    assert_eq!(wind_direction_to_degrees(b"ENE"), Some(67500));
    assert_eq!(wind_direction_to_degrees(b"E"), Some(90000));
    assert_eq!(wind_direction_to_degrees(b"ESE"), Some(112500));
    assert_eq!(wind_direction_to_degrees(b"SE"), Some(135000));
    assert_eq!(wind_direction_to_degrees(b"SSE"), Some(157500));
    assert_eq!(wind_direction_to_degrees(b"S"), Some(180000));
    assert_eq!(wind_direction_to_degrees(b"SSW"), Some(202500));
    assert_eq!(wind_direction_to_degrees(b"SW"), Some(225000));
    assert_eq!(wind_direction_to_degrees(b"WSW"), Some(247500));
    assert_eq!(wind_direction_to_degrees(b"W"), Some(270000));
    assert_eq!(wind_direction_to_degrees(b"WNW"), Some(292500));
    assert_eq!(wind_direction_to_degrees(b"NW"), Some(315000));
    assert_eq!(wind_direction_to_degrees(b"NNW"), Some(337500));
    assert_eq!(wind_direction_to_degrees(b"sw"), Some(225000));
    assert_eq!(wind_direction_to_degrees(b"Q"), None);
    assert_eq!(wind_direction_to_degrees(b""), None);
}

#[test]
fn temperature_two_separators() {
    // the separator is the mis-decoded degree glyph before C, matched literally
    let two = b"21,4\xc3\x82\xc2\xb0C (...)\xc3\x82\xc2\xb0C (...)";
    assert_eq!(parse_temperature(two).unwrap(), 21400);
}

#[test]
fn temperature_one_or_three_separators_fails() {
    let one = b"21,4\xc3\x82\xc2\xb0C rest";
    assert_eq!(parse_temperature(one).unwrap_err().kind, ParseErrorKind::BadTemperatureFormat);
    let three = b"21,4\xc3\x82\xc2\xb0C a\xc3\x82\xc2\xb0C b\xc3\x82\xc2\xb0C c";
    assert_eq!(parse_temperature(three).unwrap_err().kind, ParseErrorKind::BadTemperatureFormat);
}

#[test]
fn temperature_negative_value() {
    let two = b"-3,2\xc3\x82\xc2\xb0C x\xc3\x82\xc2\xb0C y";
    assert_eq!(parse_temperature(two).unwrap(), -3200);
}

#[test]
fn temperature_bad_value() {
    let two = b"no\xc3\x82\xc2\xb0C x\xc3\x82\xc2\xb0C y";
    assert_eq!(parse_temperature(two).unwrap_err().kind, ParseErrorKind::BadTemperatureValue);
}

#[test]
fn elevation_parses() {
    assert_eq!(parse_elevation(b"(1246 m)").unwrap(), 1246);
    assert_eq!(parse_elevation(b"( 85 m)").unwrap(), 85);
    assert_eq!(parse_elevation(b"(-5 m)").unwrap(), -5);
    assert_eq!(parse_elevation(b"(1246 ft)").unwrap_err().kind, ParseErrorKind::BadElevation);
    assert_eq!(parse_elevation(b"1246 m)").unwrap_err().kind, ParseErrorKind::BadElevation);
    assert_eq!(parse_elevation(b"(x m)").unwrap_err().kind, ParseErrorKind::BadElevation);
}

#[test]
fn last_update_template() {
    assert_eq!(parse_last_update(b"Actualizado: 12:30 UTC").unwrap(), (12, 30));
    assert_eq!(parse_last_update(b"Actualizado:23:59UTC").unwrap(), (23, 59));
    assert_eq!(
        parse_last_update(b"Updated: 12:30 UTC").unwrap_err().kind,
        ParseErrorKind::BadTemplate
    );
    assert_eq!(
        parse_last_update(b"Actualizado: 25:30 UTC").unwrap_err().kind,
        ParseErrorKind::BadTime
    );
}

#[test]
fn time_of_day_after_now_is_yesterday() {
    // now = 2024-01-02T00:05Z, reported 23:50 has not happened yet today
    let now = UtcStamp { year: 2024, month: 1, day: 2, hour: 0, minute: 5 };
    let r = resolve_time_of_day(&now, 23, 50);
    assert_eq!((r.year, r.month, r.day, r.hour, r.minute), (2024, 1, 1, 23, 50));
    assert_eq!(format_iso_minute(&r), b"2024-01-01T23:50Z".to_vec());
}

#[test]
fn time_of_day_before_now_is_today() {
    let now = UtcStamp { year: 2024, month: 1, day: 2, hour: 0, minute: 5 };
    let r = resolve_time_of_day(&now, 0, 4);
    assert_eq!((r.year, r.month, r.day, r.hour, r.minute), (2024, 1, 2, 0, 4));
    let r = resolve_time_of_day(&now, 0, 5);
    assert_eq!((r.year, r.month, r.day), (2024, 1, 2));
}

#[test]
fn previous_day_crosses_month_and_leap_year() {
    let now = UtcStamp { year: 2024, month: 3, day: 1, hour: 0, minute: 0 };
    let r = resolve_time_of_day(&now, 23, 59);
    assert_eq!((r.year, r.month, r.day), (2024, 2, 29));
    let now = UtcStamp { year: 2023, month: 3, day: 1, hour: 0, minute: 0 };
    let r = resolve_time_of_day(&now, 23, 59);
    assert_eq!((r.year, r.month, r.day), (2023, 2, 28));
    let now = UtcStamp { year: 2024, month: 1, day: 1, hour: 0, minute: 0 };
    let r = resolve_time_of_day(&now, 12, 0);
    assert_eq!((r.year, r.month, r.day), (2023, 12, 31));
}

#[test]
fn projector_maps_calibration_points_exactly() {
    assert_eq!(project(394, 223), (2_294_541_510, 42_101_781_061));
    assert_eq!(project(309, 416), (1_811_857_550, 41_235_099_893));
}

#[test]
fn projector_extrapolates() {
    let (long0, _lat0) = project(0, 0);
    let (long1, _lat1) = project(1000, 0);
    assert!(long0 < long1);
}

#[test]
fn units_table() {
    let units = get_units();
    assert_eq!(units.len(), 8);
    let find = |k: &str| units.iter().find(|p| p.0 == k).map(|p| p.1);
    assert_eq!(find("wind_speed"), Some("km/h"));
    assert_eq!(find("wind_direction"), Some("\u{b0}"));
    assert_eq!(find("gusts_speed"), Some("km/h"));
    assert_eq!(find("temperature"), Some("\u{b0}C"));
    assert_eq!(find("lat"), Some("\u{b0}"));
    assert_eq!(find("long"), Some("\u{b0}"));
    assert_eq!(find("elevation"), Some("m"));
    assert_eq!(find("last_update"), Some("ISO 8601"));
}

#[test]
fn byte_helpers() {
    assert_eq!(trim_exec(b"  a b  "), b"a b".to_vec());
    let toks = tokenize(b" 12 km/h  N ");
    assert_eq!(toks, vec![b"12".to_vec(), b"km/h".to_vec(), b"N".to_vec()]);
    assert_eq!(parse_u64(b"007"), Some(7));
    assert_eq!(parse_u64(b"1x"), None);
    assert_eq!(parse_u64(b""), None);
    assert_eq!(parse_i64(b"-42"), Some(-42));
    assert_eq!(parse_i64(b"+42"), Some(42));
    assert_eq!(parse_scaled(b"21.4", 3), Some(21400));
    assert_eq!(parse_scaled(b"-3.25", 3), Some(-3250));
    assert_eq!(parse_scaled(b"41.5", 9), Some(41_500_000_000));
    assert_eq!(parse_scaled(b"2", 3), Some(2000));
    assert_eq!(parse_scaled(b".5", 3), Some(500));
    assert_eq!(parse_scaled(b".", 3), None);
    assert_eq!(parse_scaled(b"1.2.3", 3), None);
}
