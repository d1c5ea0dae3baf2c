use ciid::errors::IdError;
use ciid::identifier::get_identifier;
use ciid::timestamp::CaptureTimestamp;

fn at(
    year: u16,
    month: u8,
    day: u8,
    hour: u8,
    minute: u8,
    second: u8,
    millisecond: u16,
    offset_seconds: i32,
) -> CaptureTimestamp {
    CaptureTimestamp {
        year,
        month,
        day,
        hour,
        minute,
        second,
        millisecond,
        offset_seconds,
    }
}

#[test]
fn test_get_identifier_unix_time_no_hash() {
    let timestamp = at(1970, 1, 1, 0, 0, 0, 0, 0);
    assert_eq!("0", get_identifier(&timestamp, 0, None).unwrap());
}

#[test]
fn test_get_identifier_unix_time() {
    let timestamp = at(1970, 1, 1, 0, 0, 0, 0, 0);
    assert_eq!(
        "0-01020304",
        get_identifier(&timestamp, 0, Some(&[1, 2, 3, 4])).unwrap()
    );
}

#[test]
fn test_get_identifier_some_date() {
    let timestamp = at(2009, 2, 13, 23, 31, 30, 123, 0);
    assert_eq!(
        "1234567890123-01020304",
        get_identifier(&timestamp, 0, Some(&[1, 2, 3, 4])).unwrap()
    );
}

#[test]
fn test_get_identifier_unix_time_plus_1_millisecond() {
    let timestamp = at(1970, 1, 1, 0, 0, 0, 1, 0);
    assert_eq!(
        "1-01020304",
        get_identifier(&timestamp, 0, Some(&[1, 2, 3, 4])).unwrap()
    );
}

#[test]
fn test_get_identifier_unix_time_plus_10_milliseconds() {
    let timestamp = at(1970, 1, 1, 0, 0, 0, 10, 0);
    assert_eq!(
        "10-01020304",
        get_identifier(&timestamp, 0, Some(&[1, 2, 3, 4])).unwrap()
    );
}

#[test]
fn test_get_identifier_unix_time_plus_1_second() {
    let timestamp = at(1970, 1, 1, 0, 0, 1, 0, 0);
    assert_eq!(
        "1000-01020304",
        get_identifier(&timestamp, 0, Some(&[1, 2, 3, 4])).unwrap()
    );
}

#[test]
fn test_get_identifier_unix_time_plus_1_minute() {
    let timestamp = at(1970, 1, 1, 0, 1, 0, 0, 0);
    assert_eq!(
        "60000-01020304",
        get_identifier(&timestamp, 0, Some(&[1, 2, 3, 4])).unwrap()
    );
}

#[test]
fn test_get_identifier_unix_time_plus_1_hour() {
    let timestamp = at(1970, 1, 1, 1, 0, 0, 0, 0);
    assert_eq!(
        "3600000-01020304",
        get_identifier(&timestamp, 0, Some(&[1, 2, 3, 4])).unwrap()
    );
}

#[test]
fn test_get_identifier_unix_time_plus_1_day() {
    let timestamp = at(1970, 1, 2, 0, 0, 0, 0, 0);
    assert_eq!(
        "86400000-01020304",
        get_identifier(&timestamp, 0, Some(&[1, 2, 3, 4])).unwrap()
    );
}

#[test]
fn test_get_identifier_unix_time_plus_1_month() {
    let timestamp = at(1970, 2, 1, 0, 0, 0, 0, 0);
    assert_eq!(
        "2678400000-01020304",
        get_identifier(&timestamp, 0, Some(&[1, 2, 3, 4])).unwrap()
    );
}

#[test]
fn test_get_identifier_unix_time_plus_1_year() {
    let timestamp = at(1971, 1, 1, 0, 0, 0, 0, 0);
    assert_eq!(
        "31536000000-01020304",
        get_identifier(&timestamp, 0, Some(&[1, 2, 3, 4])).unwrap()
    );
}

#[test]
fn test_get_identifier_unix_time_tz_minus_1() {
    let timestamp = at(1969, 12, 31, 23, 0, 0, 0, -3600);
    assert_eq!(
        "0-01020304",
        get_identifier(&timestamp, 0, Some(&[1, 2, 3, 4])).unwrap()
    );
}

#[test]
fn test_get_identifier_unix_time_tz_plus_1() {
    let timestamp = at(1970, 1, 1, 1, 0, 0, 0, 3600);
    assert_eq!(
        "0-01020304",
        get_identifier(&timestamp, 0, Some(&[1, 2, 3, 4])).unwrap()
    );
}

#[test]
fn test_get_identifier_pad_less() {
    let timestamp = at(1970, 1, 1, 0, 0, 1, 0, 0);
    assert_eq!(
        "1000-01020304",
        get_identifier(&timestamp, 0, Some(&[1, 2, 3, 4])).unwrap()
    );
}

#[test]
fn test_get_identifier_pad_more() {
    let timestamp = at(1970, 1, 1, 0, 0, 0, 1, 0);
    assert_eq!(
        "0000000001-01020304",
        get_identifier(&timestamp, 10, Some(&[1, 2, 3, 4])).unwrap()
    );
}

#[test]
fn test_get_identifier_pad_exact_width_untouched() {
    // a rendering exactly as wide as the requested width passes unchanged
    let timestamp = at(1970, 1, 1, 0, 0, 1, 0, 0);
    assert_eq!("1000", get_identifier(&timestamp, 4, None).unwrap());
}

#[test]
fn test_get_identifier_before_epoch() {
    let timestamp = at(1969, 12, 31, 23, 59, 59, 999, 0);
    assert!(matches!(
        get_identifier(&timestamp, 0, None),
        Err(IdError::BeforeEpoch)
    ));
}

#[test]
fn test_monotonic_encoding_with_default_width() {
    // epoch, +1 ms, +1 s, +1 min, +1 hour, +1 day, +1 month, +1 year,
    // all padded to the default fourteen digits, must be strictly
    // increasing under plain byte-wise string comparison
    let steps = vec![
        at(1970, 1, 1, 0, 0, 0, 0, 0),
        at(1970, 1, 1, 0, 0, 0, 1, 0),
        at(1970, 1, 1, 0, 0, 1, 0, 0),
        at(1970, 1, 1, 0, 1, 0, 0, 0),
        at(1970, 1, 1, 1, 0, 0, 0, 0),
        at(1970, 1, 2, 0, 0, 0, 0, 0),
        at(1970, 2, 1, 0, 0, 0, 0, 0),
        at(1971, 1, 1, 0, 0, 0, 0, 0),
    ];
    let encoded = steps
        .iter()
        .map(|t| get_identifier(t, 14, None).unwrap())
        .collect::<Vec<_>>();
    for pair in encoded.windows(2) {
        assert!(pair[0] < pair[1]);
    }
}

#[test]
fn test_timezone_neutral_encoding() {
    // the same absolute instant under two offsets encodes identically
    let west = at(1969, 12, 31, 23, 0, 0, 0, -3600);
    let utc = at(1970, 1, 1, 0, 0, 0, 0, 0);
    assert_eq!(
        get_identifier(&west, 14, Some(&[9, 8, 7])).unwrap(),
        get_identifier(&utc, 14, Some(&[9, 8, 7])).unwrap()
    );
}
