use chrono::Datelike;
use chrono::Timelike;

use time_converter::calendar::leap_year;
use time_converter::calendar::month_length;
use time_converter::time_converter;

#[test]
fn test_time_to_posix() {
    let lt = chrono::Local::now().naive_local();
    let result = time_converter(lt.year(), lt.month(), lt.day(), lt.hour(), lt.minute()).unwrap();

    assert!(result != 0);
}

#[test]
fn test_epoch_fixed_point() {
    assert_eq!(time_converter(1970, 1, 1, 0, 0), Ok(0));
}

#[test]
fn test_known_value() {
    assert_eq!(time_converter(2000, 1, 1, 0, 0), Ok(946_684_800_000));
}

#[test]
fn test_leap_year_boundary() {
    assert_eq!(time_converter(2024, 2, 29, 12, 0), Ok(1_709_208_000_000));
    assert!(time_converter(2023, 2, 29, 12, 0).is_err());
}

#[test]
fn test_range_rejection() {
    assert!(time_converter(2024, 13, 1, 0, 0).is_err());
    assert!(time_converter(2024, 1, 1, 24, 0).is_err());
    assert!(time_converter(2024, 1, 1, 0, 60).is_err());
    assert!(time_converter(2024, 1, 32, 0, 0).is_err());
    assert!(time_converter(2024, 0, 1, 0, 0).is_err());
    assert!(time_converter(2024, 1, 0, 0, 0).is_err());
    assert!(time_converter(2024, 4, 31, 0, 0).is_err());
}

#[test]
fn test_negative_year() {
    let ms = time_converter(-1, 1, 1, 0, 0).unwrap();
    assert!(ms < 0);
    assert_eq!(ms, -62_198_755_200_000);
}

#[test]
fn test_error_message() {
    let err = time_converter(2024, 13, 1, 0, 0).unwrap_err();
    assert_eq!(err.message(), "Could not convert to posix timestamp.");
}

#[test]
fn test_timestamp_out_of_i64_millis() {
    // Valid calendar dates this far out have millisecond counts beyond i64.
    assert!(time_converter(i32::MAX, 1, 1, 0, 0).is_err());
    assert!(time_converter(i32::MIN, 1, 1, 0, 0).is_err());
}

#[test]
fn test_leap_year_rule() {
    assert!(leap_year(2000));
    assert!(leap_year(2024));
    assert!(leap_year(-4));
    assert!(leap_year(-400));
    assert!(leap_year(0));
    assert!(!leap_year(1900));
    assert!(!leap_year(2023));
    assert!(!leap_year(-1));
    assert!(!leap_year(-100));
}

#[test]
fn test_month_length() {
    assert_eq!(month_length(2024, 2), 29);
    assert_eq!(month_length(2023, 2), 28);
    assert_eq!(month_length(1900, 2), 28);
    assert_eq!(month_length(2000, 2), 29);
    assert_eq!(month_length(2024, 1), 31);
    assert_eq!(month_length(2024, 4), 30);
    assert_eq!(month_length(2024, 12), 31);
}

#[test]
fn test_round_trip() {
    let cases: [(i32, u32, u32, u32, u32); 7] = [
        (1970, 1, 1, 0, 0),
        (2000, 1, 1, 0, 0),
        (2024, 2, 29, 12, 0),
        (1999, 12, 31, 23, 59),
        (1600, 3, 1, 5, 30),
        (1969, 12, 31, 23, 59),
        (-1, 1, 1, 0, 0),
    ];
    for (y, m, d, h, mi) in cases {
        let ms = time_converter(y, m, d, h, mi).unwrap();
        let back = chrono::DateTime::<chrono::Utc>::from_timestamp_millis(ms).unwrap();
        assert_eq!(back.year(), y);
        assert_eq!(back.month(), m);
        assert_eq!(back.day(), d);
        assert_eq!(back.hour(), h);
        assert_eq!(back.minute(), mi);
        assert_eq!(back.second(), 0);
    }
}

#[test]
fn test_matches_chrono() {
    let cases: [(i32, u32, u32, u32, u32); 6] = [
        (1970, 1, 1, 0, 0),
        (1900, 2, 28, 23, 1),
        (2038, 1, 19, 3, 14),
        (1066, 10, 14, 9, 0),
        (-44, 3, 15, 12, 0),
        (262142, 12, 31, 23, 59),
    ];
    for (y, m, d, h, mi) in cases {
        let ms = time_converter(y, m, d, h, mi).unwrap();
        let date = chrono::NaiveDate::from_ymd_opt(y, m, d).unwrap();
        let expected = date.and_hms_opt(h, mi, 0).unwrap().and_utc().timestamp_millis();
        assert_eq!(ms, expected);
    }
}

#[test]
fn test_monotonic() {
    let ordered: [(i32, u32, u32, u32, u32); 8] = [
        (-1, 12, 31, 23, 59),
        (0, 1, 1, 0, 0),
        (1969, 12, 31, 23, 59),
        (1970, 1, 1, 0, 0),
        (1970, 1, 1, 0, 1),
        (2024, 2, 28, 23, 59),
        (2024, 2, 29, 0, 0),
        (2024, 3, 1, 0, 0),
    ];
    let mut prev: Option<i64> = None;
    for (y, m, d, h, mi) in ordered {
        let ms = time_converter(y, m, d, h, mi).unwrap();
        if let Some(p) = prev {
            assert!(p < ms);
        }
        prev = Some(ms);
    }
}
