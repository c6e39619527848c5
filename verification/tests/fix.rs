use l76k_gps::types::{FixDate, FixTime, GpsError, GpsFix, GpsState};

fn time(secs: u32, nano: u32) -> FixTime {
    FixTime::from_num_seconds_from_midnight(secs, nano).unwrap()
}

fn date(year: i32, month: u32, day: u32) -> FixDate {
    FixDate::from_ymd(year, month, day).unwrap()
}

#[test]
fn time_of_day_validity() {
    assert!(FixTime::from_num_seconds_from_midnight(0, 0).is_some());
    assert!(FixTime::from_num_seconds_from_midnight(86_399, 999_999_999).is_some());
    assert!(FixTime::from_num_seconds_from_midnight(86_399, 1_999_999_999).is_some());
    assert!(FixTime::from_num_seconds_from_midnight(86_400, 0).is_none());
    assert!(FixTime::from_num_seconds_from_midnight(86_399, 2_000_000_000).is_none());
    assert!(FixTime::from_num_seconds_from_midnight(100, 1_000_000_000).is_none());
    let t = time(3_723, 4_000_000);
    assert_eq!(t.num_seconds_from_midnight(), 3_723);
    assert_eq!(t.nanosecond(), 4_000_000);
}

#[test]
fn calendar_date_validity() {
    assert!(FixDate::from_ymd(2015, 3, 14).is_some());
    assert!(FixDate::from_ymd(2015, 0, 14).is_none());
    assert!(FixDate::from_ymd(2015, 2, 29).is_none());
    assert!(FixDate::from_ymd(2024, 2, 29).is_some());
    assert!(FixDate::from_ymd(1900, 2, 29).is_none());
    assert!(FixDate::from_ymd(2000, 2, 29).is_some());
    assert!(FixDate::from_ymd(-4, 2, 29).is_some());
    assert!(FixDate::from_ymd(2023, 4, 31).is_none());
    assert!(FixDate::from_ymd(2023, 12, 31).is_some());
    assert!(FixDate::from_ymd(2023, 13, 1).is_none());
    assert!(FixDate::from_ymd(2023, 1, 0).is_none());
    assert!(FixDate::from_ymd(400_000, 1, 1).is_none());
    assert!(FixDate::from_ymd(-400_000, 1, 1).is_none());
    let d = date(2024, 6, 30);
    assert_eq!((d.year(), d.month(), d.day()), (2024, 6, 30));
}

#[test]
fn fix_from_parts_requires_position() {
    assert!(GpsFix::from_parts(None, Some(1), Some(3), None, None).is_none());
    assert!(GpsFix::from_parts(Some(1), None, Some(3), None, None).is_none());
    let fix = GpsFix::from_parts(Some(52_520_008), Some(-13_404_954), None, None, None).unwrap();
    assert_eq!(fix.lat_microdeg, 52_520_008);
    assert_eq!(fix.lon_microdeg, -13_404_954);
    assert_eq!(fix.sats, 0);
    assert_eq!(fix.utc_time_ms, None);
    assert!(fix.time.is_none());
    assert!(fix.date.is_none());
}

#[test]
fn fix_satellite_count_is_kept_modulo_256() {
    let fix = GpsFix::from_parts(Some(0), Some(0), Some(12), None, None).unwrap();
    assert_eq!(fix.sats, 12);
    let fix = GpsFix::from_parts(Some(0), Some(0), Some(300), None, None).unwrap();
    assert_eq!(fix.sats, 44);
}

#[test]
fn fix_time_of_day_in_milliseconds() {
    let fix = GpsFix::from_parts(Some(0), Some(0), Some(7), Some(time(11_045, 678_900_000)), None)
        .unwrap();
    assert_eq!(fix.utc_time_ms, Some(11_045_678));
    let leap =
        GpsFix::from_parts(Some(0), Some(0), None, Some(time(86_399, 1_500_000_000)), None)
            .unwrap();
    assert_eq!(leap.utc_time_ms, Some(86_400_500));
}

#[test]
fn timestamp_needs_date_and_time() {
    let only_time = GpsFix::from_parts(Some(0), Some(0), None, Some(time(0, 0)), None).unwrap();
    assert!(only_time.get_timestamp().is_none());
    assert_eq!(only_time.get_timestamp_millis(), None);
    let only_date =
        GpsFix::from_parts(Some(0), Some(0), None, None, Some(date(2024, 1, 2))).unwrap();
    assert!(only_date.get_timestamp().is_none());
    assert_eq!(only_date.get_timestamp_millis(), None);
}

#[test]
fn timestamp_millis_since_epoch() {
    let fix = GpsFix::from_parts(
        Some(0),
        Some(0),
        None,
        Some(time(3 * 3600 + 4 * 60 + 5, 678_000_000)),
        Some(date(2024, 1, 2)),
    )
    .unwrap();
    let ts = fix.get_timestamp().unwrap();
    assert_eq!(ts.date.year(), 2024);
    assert_eq!(ts.time.num_seconds_from_midnight(), 11_045);
    assert_eq!(fix.get_timestamp_millis(), Some(1_704_164_645_678));

    let epoch =
        GpsFix::from_parts(Some(0), Some(0), None, Some(time(0, 0)), Some(date(1970, 1, 1)))
            .unwrap();
    assert_eq!(epoch.get_timestamp_millis(), Some(0));
    let before = GpsFix::from_parts(
        Some(0),
        Some(0),
        None,
        Some(time(86_399, 0)),
        Some(date(1969, 12, 31)),
    )
    .unwrap();
    assert_eq!(before.get_timestamp_millis(), Some(-1000));
    let leap = GpsFix::from_parts(
        Some(0),
        Some(0),
        None,
        Some(time(86_399, 1_500_000_000)),
        Some(date(2016, 12, 31)),
    )
    .unwrap();
    assert_eq!(leap.get_timestamp_millis(), Some(1_483_228_800_500));
}

#[test]
fn state_and_error_values() {
    assert_eq!(GpsState::Reset, GpsState::Reset);
    assert_ne!(GpsState::Running, GpsState::Recover);
    let e: GpsError<u8> = GpsError::IO(3);
    assert!(matches!(e, GpsError::IO(3)));
    let s = format!("{:?}", GpsError::<u8>::Timeout);
    assert_eq!(s, "Timeout");
}

fn midnight_millis(year: i32, month: u32, day: u32) -> Option<i64> {
    GpsFix::from_parts(Some(0), Some(0), None, Some(time(0, 0)), Some(date(year, month, day)))
        .unwrap()
        .get_timestamp_millis()
}

#[test]
fn timestamp_millis_across_the_calendar() {
    assert_eq!(midnight_millis(1, 1, 1), Some(-62_135_596_800_000));
    assert_eq!(midnight_millis(0, 1, 1), Some(-62_167_219_200_000));
    assert_eq!(midnight_millis(-1, 12, 31), Some(-62_167_305_600_000));
    assert_eq!(midnight_millis(-4, 2, 29), Some(-62_288_352_000_000));
    assert_eq!(midnight_millis(-262_143, 1, 1), Some(-8_334_601_228_800_000));
    assert_eq!(midnight_millis(262_142, 12, 31), Some(8_210_266_790_400_000));
    assert_eq!(midnight_millis(2000, 3, 1), Some(951_868_800_000));
}

#[test]
fn timestamp_is_days_plus_time_of_day() {
    let t = time(45_296, 789_000_000);
    let fix = GpsFix::from_parts(Some(0), Some(0), None, Some(t), Some(date(2023, 7, 15))).unwrap();
    let days = midnight_millis(2023, 7, 15).unwrap();
    assert_eq!(days % 86_400_000, 0);
    assert_eq!(fix.get_timestamp_millis(), Some(days + fix.utc_time_ms.unwrap() as i64));
}
