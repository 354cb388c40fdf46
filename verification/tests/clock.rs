//! Moments, where the forum stands.
use jiff::tz::TimeZone;
use treff::clock::{day, day_at, resolve, stamp, stamp_at, zone_found, Moments};

/// 2026-01-15 09:41:00 UTC and 2026-07-15 09:41:00 UTC.
const WINTER: i64 = 1_768_470_060;
const SUMMER: i64 = 1_784_108_460;

#[test]
fn a_stamp_carries_the_day_and_the_hour() {
    let utc = TimeZone::UTC;
    assert_eq!(stamp(WINTER, &utc), "2026-01-15 09:41");
}

#[test]
fn summer_time_is_not_an_hour_the_reader_has_to_add() {
    let berlin = TimeZone::get("Europe/Berlin").expect("Europe/Berlin");
    assert_eq!(stamp(WINTER, &berlin), "2026-01-15 10:41");
    assert_eq!(stamp(SUMMER, &berlin), "2026-07-15 11:41");
}

#[test]
fn a_day_carries_no_hour() {
    assert_eq!(day(WINTER, &TimeZone::UTC), "2026-01-15");
    assert_eq!(day_at(WINTER, Some(20 * 3600)), "2026-01-16");
    assert_eq!(stamp_at(WINTER, Some(3600)), "2026-01-15 10:41");
}

#[test]
fn a_moment_outside_the_calendar_is_a_word() {
    assert_eq!(stamp(i64::MAX, &TimeZone::UTC), "unknown");
    assert_eq!(stamp_at(WINTER, None), "unknown");
    assert_eq!(day_at(WINTER, Some(i32::MAX)), "unknown");
}

#[test]
fn a_zone_is_asked_once_for_each_moment() {
    let berlin = TimeZone::get("Europe/Berlin").expect("Europe/Berlin");
    let moments = Moments::read(&berlin, &[WINTER, SUMMER]);
    assert_eq!(moments.offsets, vec![(WINTER, Some(3600)), (SUMMER, Some(7200))]);
    assert_eq!(moments.stamp(WINTER), "2026-01-15 10:41");
    assert_eq!(moments.stamp(SUMMER), "2026-07-15 11:41");
    assert_eq!(moments.day(SUMMER), "2026-07-15");
    assert_eq!(moments.stamp(0), "unknown", "a moment that was not asked about");
}

#[test]
fn an_unknown_zone_is_an_error_and_no_name_is_the_machines() {
    assert!(resolve(Some("Mittelerde/Auenland")).is_err());
    assert!(resolve(Some("Europe/Berlin")).is_ok());
    assert!(resolve(None).is_ok());
}

#[test]
fn a_zone_that_is_found_goes_by_the_name_it_was_looked_for() {
    let berlin = resolve(Some("europe/BERLIN")).expect("zone");
    assert_eq!(berlin.iana_name(), Some("Europe/Berlin"));
    assert_eq!(resolve(Some("utc")).expect("zone").iana_name(), Some("UTC"));
    assert_eq!(resolve(Some("Etc/Unknown")).expect("zone").iana_name(), None);
}

#[test]
fn what_was_found_is_what_comes_back() {
    let found = zone_found(Some(Ok(TimeZone::UTC))).expect("zone");
    assert_eq!(found, TimeZone::UTC);
    assert!(zone_found(Some(TimeZone::get("Mittelerde/Auenland"))).is_err());
    assert!(zone_found(None).is_ok());
}
