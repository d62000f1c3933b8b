use datetime::Error;
use datetime::LocalDateTime;
use datetime::ParseError;
use datetime::Sign;
use datetime::TimeZone;
use datetime::ZoneFields;
use datetime::ZonedDateTime;

#[test]
fn fixed_seconds() {
    assert!(TimeZone::of_seconds(1234).is_ok());
}

#[test]
fn fixed_seconds_panic() {
    assert!(TimeZone::of_seconds(100_000).is_err());
}

#[test]
fn fixed_hm() {
    assert!(TimeZone::of_hours_and_minutes(5, 30).is_ok());
}

#[test]
fn fixed_hm_negative() {
    assert!(TimeZone::of_hours_and_minutes(-3, -45).is_ok());
}

#[test]
fn fixed_hm_err() {
    assert!(TimeZone::of_hours_and_minutes(8, 60).is_err());
}

#[test]
fn fixed_hm_signs() {
    assert!(TimeZone::of_hours_and_minutes(-4, 30).is_err());
}

#[test]
fn fixed_hm_signs_zero() {
    assert!(TimeZone::of_hours_and_minutes(4, 0).is_ok());
}

#[test]
fn of_seconds_bounds() {
    assert!(matches!(
        TimeZone::of_seconds(86400),
        Ok(TimeZone::FixedOffset { offset: 86400 })
    ));
    assert!(matches!(
        TimeZone::of_seconds(-86400),
        Ok(TimeZone::FixedOffset { offset: -86400 })
    ));
    assert!(matches!(TimeZone::of_seconds(86401), Err(Error::OutOfRange)));
    assert!(matches!(TimeZone::of_seconds(-86401), Err(Error::OutOfRange)));
}

#[test]
fn of_hours_and_minutes_errors() {
    assert!(matches!(
        TimeZone::of_hours_and_minutes(-4, 30),
        Err(Error::SignMismatch)
    ));
    assert!(matches!(
        TimeZone::of_hours_and_minutes(4, -30),
        Err(Error::SignMismatch)
    ));
    assert!(matches!(
        TimeZone::of_hours_and_minutes(24, 0),
        Err(Error::OutOfRange)
    ));
    assert!(matches!(
        TimeZone::of_hours_and_minutes(-24, 0),
        Err(Error::OutOfRange)
    ));
    assert!(matches!(
        TimeZone::of_hours_and_minutes(0, 60),
        Err(Error::OutOfRange)
    ));
}

#[test]
fn of_hours_and_minutes_composes() {
    assert!(matches!(
        TimeZone::of_hours_and_minutes(5, 30),
        Ok(TimeZone::FixedOffset { offset: 19800 })
    ));
    assert!(matches!(
        TimeZone::of_hours_and_minutes(-3, -45),
        Ok(TimeZone::FixedOffset { offset: -13500 })
    ));
    assert!(matches!(
        TimeZone::of_hours_and_minutes(23, 59),
        Ok(TimeZone::FixedOffset { offset: 86340 })
    ));
}

#[test]
fn adjust_utc_is_identity() {
    let t = LocalDateTime::of(123_456_789, 250);
    let adjusted = TimeZone::UTC.adjust(t);
    assert_eq!(adjusted.seconds, 123_456_789);
    assert_eq!(adjusted.millisecond, 250);
}

#[test]
fn adjust_fixed_adds_offset() {
    let zone = TimeZone::of_seconds(7200).unwrap();
    let t = LocalDateTime::of(1000, 1);
    let adjusted = zone.adjust(t);
    assert_eq!(adjusted.seconds, 8200);
    assert_eq!(adjusted.millisecond, 1);

    let negative = TimeZone::of_seconds(-3600).unwrap();
    let shifted = negative.adjust(t);
    assert_eq!(shifted.seconds, -2600);
}

fn transition(timestamp: i64, offset_seconds: i32) -> datetime::Transition {
    datetime::Transition {
        timestamp,
        offset_seconds,
        is_dst: false,
        designation: Vec::new(),
    }
}

#[test]
fn adjust_variable_selects_latest_before() {
    // Descending order, as the loader stores them.
    let zone = TimeZone::VariableOffset {
        transitions: vec![transition(300, 30), transition(200, 20), transition(100, 10)],
    };
    // 250 lies after 200 but before 300: the 200 transition wins.
    assert_eq!(zone.adjust(LocalDateTime::of(250, 0)).seconds, 270);
    // 301 lies after all of them: the most recent, 300, wins.
    assert_eq!(zone.adjust(LocalDateTime::of(301, 0)).seconds, 331);
    // An exact hit is not strictly before: the next older record wins.
    assert_eq!(zone.adjust(LocalDateTime::of(300, 0)).seconds, 320);
}

#[test]
fn adjust_variable_prehistory_unchanged() {
    let zone = TimeZone::VariableOffset {
        transitions: vec![transition(300, 30), transition(200, 20)],
    };
    assert_eq!(zone.adjust(LocalDateTime::of(50, 0)).seconds, 50);
    assert_eq!(zone.adjust(LocalDateTime::of(200, 0)).seconds, 200);
    let empty = TimeZone::VariableOffset { transitions: Vec::new() };
    assert_eq!(empty.adjust(LocalDateTime::of(50, 0)).seconds, 50);
}

#[test]
fn adjust_variable_equal_timestamps_first_wins() {
    let zone = TimeZone::VariableOffset {
        transitions: vec![transition(200, 1000), transition(200, 2000)],
    };
    assert_eq!(zone.adjust(LocalDateTime::of(250, 0)).seconds, 1250);
}

#[test]
fn at_pairs_zone_and_naive() {
    let zone = TimeZone::of_seconds(3600).unwrap();
    let zoned = zone.at(LocalDateTime::of(0, 0));
    assert_eq!(zoned.hour(), 1);
    assert_eq!(zoned.minute(), 0);
    assert_eq!(zoned.second(), 0);
}

#[test]
fn parse_zone_zulu() {
    assert!(matches!(TimeZone::from_str("Z"), Ok(TimeZone::UTC)));
}

#[test]
fn parse_zone_offsets() {
    assert!(matches!(
        TimeZone::from_str("+05:30"),
        Ok(TimeZone::FixedOffset { offset: 19800 })
    ));
    assert!(matches!(
        TimeZone::from_str("-05:30"),
        Ok(TimeZone::FixedOffset { offset: -19800 })
    ));
    assert!(matches!(
        TimeZone::from_str("+05"),
        Ok(TimeZone::FixedOffset { offset: 18000 })
    ));
    assert!(matches!(
        TimeZone::from_str("-01"),
        Ok(TimeZone::FixedOffset { offset: -3600 })
    ));
}

#[test]
fn parse_zone_malformed() {
    assert!(matches!(TimeZone::from_str("+"), Err(ParseError::Parse)));
    assert!(matches!(TimeZone::from_str("-"), Err(ParseError::Parse)));
    assert!(matches!(TimeZone::from_str(""), Err(ParseError::Parse)));
    assert!(matches!(TimeZone::from_str("05:30"), Err(ParseError::Parse)));
    assert!(matches!(TimeZone::from_str("+ab"), Err(ParseError::Parse)));
    assert!(matches!(TimeZone::from_str("+05:3a"), Err(ParseError::Parse)));
    assert!(matches!(TimeZone::from_str("+05-30"), Err(ParseError::Parse)));
    assert!(matches!(TimeZone::from_str("ZZ"), Err(ParseError::Parse)));
}

#[test]
fn parse_zone_out_of_range() {
    assert!(matches!(
        TimeZone::from_str("+99"),
        Err(ParseError::Zone(Error::OutOfRange))
    ));
    assert!(matches!(
        TimeZone::from_str("+05:99"),
        Err(ParseError::Zone(Error::OutOfRange))
    ));
}

#[test]
fn from_fields_zulu_and_offsets() {
    assert!(matches!(TimeZone::from_fields(ZoneFields::Zulu), Ok(TimeZone::UTC)));
    let fields = ZoneFields::Offset {
        sign: Sign::Minus,
        hours: String::from("02"),
        minutes: Some(String::from("15")),
    };
    assert!(matches!(
        TimeZone::from_fields(fields),
        Ok(TimeZone::FixedOffset { offset: -8100 })
    ));
}

#[test]
fn from_fields_bad_numbers() {
    let empty_hours = ZoneFields::Offset {
        sign: Sign::Plus,
        hours: String::new(),
        minutes: None,
    };
    assert!(matches!(TimeZone::from_fields(empty_hours), Err(ParseError::Number)));
    let letters = ZoneFields::Offset {
        sign: Sign::Plus,
        hours: String::from("aa"),
        minutes: None,
    };
    assert!(matches!(TimeZone::from_fields(letters), Err(ParseError::Number)));
    let huge = ZoneFields::Offset {
        sign: Sign::Plus,
        hours: String::from("200"),
        minutes: None,
    };
    assert!(matches!(TimeZone::from_fields(huge), Err(ParseError::Number)));
}

#[test]
fn parse_zoned_timestamp_shifts_hour() {
    let zoned = ZonedDateTime::from_str("2021-06-01T12:00:00+02:00").unwrap();
    assert_eq!(zoned.hour(), 14);
    assert_eq!(zoned.minute(), 0);
    assert_eq!(zoned.second(), 0);

    let utc = ZonedDateTime::from_str("2021-06-01T12:00:00Z").unwrap();
    assert_eq!(utc.hour(), 12);
}

#[test]
fn parse_zoned_timestamp_fields() {
    let zoned = ZonedDateTime::from_str("2021-06-01T12:34:56Z").unwrap();
    assert_eq!(zoned.year(), 2021);
    assert_eq!(zoned.month(), 6);
    assert_eq!(zoned.day(), 1);
    assert_eq!(zoned.yearday(), 152);
    // 2021-06-01 was a Tuesday.
    assert_eq!(zoned.weekday(), 2);
    assert_eq!(zoned.minute(), 34);
    assert_eq!(zoned.second(), 56);
    assert_eq!(zoned.millisecond(), 0);
}

#[test]
fn parse_zoned_timestamp_epoch() {
    let zoned = ZonedDateTime::from_str("1970-01-01T00:00:00Z").unwrap();
    assert_eq!(zoned.year(), 1970);
    assert_eq!(zoned.month(), 1);
    assert_eq!(zoned.day(), 1);
    assert_eq!(zoned.yearday(), 1);
    // The epoch day was a Thursday.
    assert_eq!(zoned.weekday(), 4);
    assert_eq!(zoned.hour(), 0);
}

#[test]
fn parse_zoned_timestamp_before_epoch() {
    let zoned = ZonedDateTime::from_str("1969-12-31T23:00:00Z").unwrap();
    assert_eq!(zoned.year(), 1969);
    assert_eq!(zoned.month(), 12);
    assert_eq!(zoned.day(), 31);
    assert_eq!(zoned.hour(), 23);
    // An hour later, the offset crosses into the epoch day.
    let shifted = ZonedDateTime::from_str("1969-12-31T23:00:00+01:00").unwrap();
    assert_eq!(shifted.year(), 1970);
    assert_eq!(shifted.day(), 1);
    assert_eq!(shifted.hour(), 0);
}

#[test]
fn parse_zoned_timestamp_leap_day() {
    let zoned = ZonedDateTime::from_str("2020-02-29T06:07:08Z").unwrap();
    assert_eq!(zoned.month(), 2);
    assert_eq!(zoned.day(), 29);
    assert_eq!(zoned.yearday(), 60);
}

#[test]
fn parse_zoned_timestamp_malformed() {
    assert!(matches!(
        ZonedDateTime::from_str("2021-06-01 12:00:00Z"),
        Err(ParseError::Parse)
    ));
    assert!(matches!(ZonedDateTime::from_str("2021-06-01T12:00:00"), Err(ParseError::Parse)));
    assert!(matches!(ZonedDateTime::from_str("garbage"), Err(ParseError::Parse)));
    assert!(matches!(
        ZonedDateTime::from_str("2021-06-01T12:00:00+"),
        Err(ParseError::Parse)
    ));
}

#[test]
fn parse_zoned_timestamp_bad_fields() {
    assert!(matches!(
        ZonedDateTime::from_str("2021-13-01T12:00:00Z"),
        Err(ParseError::Date)
    ));
    assert!(matches!(
        ZonedDateTime::from_str("2021-02-29T12:00:00Z"),
        Err(ParseError::Date)
    ));
    assert!(matches!(
        ZonedDateTime::from_str("2021-06-01T24:00:00Z"),
        Err(ParseError::Date)
    ));
    assert!(matches!(
        ZonedDateTime::from_str("2021-06-01T12:00:00+99:00"),
        Err(ParseError::Zone(Error::OutOfRange))
    ));
}
