use tenda::date::{Date, DateError, IsoParseErrorKind};

#[test]
fn epoch_in_utc() {
    let d = Date::from_timestamp_millis(0, None).unwrap();
    assert_eq!(d.to_timestamp_millis(), 0);
    assert_eq!(d.to_offset_string(), "+00:00");
    assert_eq!(d.to_iso_string(), "1970-01-01T00:00:00+00:00");
    assert_eq!(d.year(), 1970);
    assert_eq!(d.month(), 1);
    assert_eq!(d.day(), 1);
    assert_eq!(d.hour(), 0);
    assert_eq!(d.weekday(), 4);
    assert_eq!(d.ordinal(), 1);
    assert_eq!(d.iso_week(), 1);
    assert!(!d.is_leap_year());
}

#[test]
fn epoch_seen_three_hours_west() {
    let d = Date::from_timestamp_millis(0, Some(-10800)).unwrap();
    assert_eq!(d.to_offset_string(), "-03:00");
    assert_eq!(d.to_iso_string(), "1969-12-31T21:00:00-03:00");
    assert_eq!(d.year(), 1969);
    assert_eq!(d.day(), 31);
    assert_eq!(d.hour(), 21);
}

#[test]
fn timestamps_out_of_range_are_refused() {
    assert!(matches!(
        Date::from_timestamp_millis(i64::MAX, None),
        Err(DateError::InvalidTimestamp { timestamp }) if timestamp == i64::MAX
    ));
}

#[test]
fn iso_text_with_offset() {
    let d = Date::from_iso_string("2024-02-29T12:30:45+05:30").unwrap();
    assert_eq!(d.to_timestamp_millis(), 1709190045000);
    assert_eq!(d.to_offset_string(), "+05:30");
    assert_eq!(d.to_iso_string(), "2024-02-29T12:30:45+05:30");
    assert!(d.is_leap_year());
    assert_eq!(d.weekday(), 4);
    assert_eq!(d.ordinal(), 60);
    assert_eq!(d.iso_week(), 9);
    assert_eq!(d.minute(), 30);
    assert_eq!(d.second(), 45);
}

#[test]
fn iso_text_that_is_not_a_date() {
    assert!(matches!(
        Date::from_iso_string("2024-13-01T00:00:00Z"),
        Err(DateError::IsoParse { kind: IsoParseErrorKind::OutOfRange })
    ));
    assert!(matches!(Date::from_iso_string("ontem"), Err(DateError::IsoParse { .. })));
}

#[test]
fn named_time_zones() {
    let d = Date::from_timestamp_millis(0, None).unwrap();
    let sp = d.with_named_timezone("America/Sao_Paulo").unwrap();
    assert_eq!(sp.to_timestamp_millis(), 0);
    assert_eq!(sp.to_offset_string(), "-03:00");
    assert!(matches!(
        d.with_named_timezone("Lugar/Nenhum"),
        Err(DateError::InvalidTimeZone { name }) if name == "Lugar/Nenhum"
    ));
}

#[test]
fn shifting_and_ordering() {
    let d = Date::from_timestamp_millis(1000, None).unwrap();
    let later = d + 500;
    assert_eq!(later.to_timestamp_millis(), 1500);
    assert_eq!((later - 500), d);
    assert!(d < later);
    let elsewhere = Date::from_timestamp_millis(1000, Some(3600)).unwrap();
    assert_ne!(d, elsewhere);
    assert_eq!(d.partial_cmp(&elsewhere), Some(std::cmp::Ordering::Equal));
}

#[test]
fn calendar_only_where_representable() {
    let d = Date::from_timestamp_millis(0, None).unwrap();
    let c = d.calendar().unwrap();
    assert_eq!((c.year, c.month, c.day, c.weekday), (1970, 1, 1, 4));
    assert_eq!(c.iso, "1970-01-01T00:00:00+00:00");
    let far = d + i64::MAX;
    assert!(!far.in_range());
    assert!(far.calendar().is_none());
    assert!(far.in_zone("UTC").is_none());
    assert!(matches!(far.in_zone("Lugar/Nenhum"), Some(Err(DateError::InvalidTimeZone { .. }))));
}

#[test]
fn clock_fields_before_the_epoch() {
    // One and a half seconds before the epoch: 23:59:58 of the day before, in UTC.
    let d = Date::from_timestamp_millis(-1500, None).unwrap();
    assert_eq!((d.hour(), d.minute(), d.second()), (23, 59, 58));
    let east = Date::from_timestamp_millis(45_296_000, Some(5400)).unwrap();
    assert_eq!((east.hour(), east.minute(), east.second()), (14, 04, 56));
}
