use interview_notes::dates::{
    datetime_format, expand_datetime, read_custom_date, timestamp_from_fields,
};
use interview_notes::errors::MyErrors;

fn fields(
    t: interview_notes::stamp::Timestamp,
) -> (u16, u8, u8, u8, u8, u8) {
    (t.year(), t.month(), t.day(), t.hour(), t.minute(), t.second())
}

#[test]
fn date_to_the_minute() {
    let t = read_custom_date("2006-01-02T15:04", "2024-05-06").unwrap();
    assert_eq!(fields(t), (2006, 1, 2, 15, 4, 0));
}

#[test]
fn date_to_the_second() {
    let t = read_custom_date("2006-01-02T15:04:05", "2024-05-06").unwrap();
    assert_eq!(fields(t), (2006, 1, 2, 15, 4, 5));
}

#[test]
fn shorthand_takes_the_date_of_today() {
    let t = read_custom_date("today@15:04", "2024-05-06").unwrap();
    assert_eq!(fields(t), (2024, 5, 6, 15, 4, 0));
    assert_eq!(expand_datetime("today@15:04", "2024-05-06"), "2024-05-06T15:04");
}

#[test]
fn shorthand_needs_its_exact_length() {
    assert_eq!(expand_datetime("today@5:04", "2024-05-06"), "today@5:04");
    assert_eq!(expand_datetime("today@15:04:05", "2024-05-06"), "today@15:04:05");
    assert_eq!(expand_datetime("Today@15:04", "2024-05-06"), "Today@15:04");
    assert!(matches!(
        read_custom_date("today@5:04", "2024-05-06"),
        Err(MyErrors::InvalidCustomDatetime)
    ));
}

#[test]
fn other_lengths_are_invalid() {
    for text in ["", "2006", "2006-01-02", "2006-01-02T15", "2006-01-02T15:04:0", "2006-01-02T15:04:05Z"] {
        assert!(matches!(
            read_custom_date(text, "2024-05-06"),
            Err(MyErrors::InvalidCustomDatetime)
        ));
    }
}

#[test]
fn length_is_counted_in_bytes() {
    assert!(matches!(
        read_custom_date("é006-01-02T15:0", "2024-05-06"),
        Err(MyErrors::CannotParseCustomDate(_))
    ));
}

#[test]
fn accepted_length_that_does_not_parse() {
    assert!(matches!(
        read_custom_date("2006-13-02T15:04", "2024-05-06"),
        Err(MyErrors::CannotParseCustomDate(_))
    ));
    assert!(matches!(
        read_custom_date("2006-01-02 15:04", "2024-05-06"),
        Err(MyErrors::CannotParseCustomDate(_))
    ));
    assert!(matches!(
        read_custom_date("2006-02-30T15:04:05", "2024-05-06"),
        Err(MyErrors::CannotParseCustomDate(_))
    ));
    assert!(matches!(
        read_custom_date("today@25:04", "2024-05-06"),
        Err(MyErrors::CannotParseCustomDate(_))
    ));
}

#[test]
fn format_goes_by_length() {
    assert_eq!(datetime_format("2006-01-02T15:04").unwrap(), "%Y-%m-%dT%H:%M");
    assert_eq!(datetime_format("2006-01-02T15:04:05").unwrap(), "%Y-%m-%dT%H:%M:%S");
    assert!(matches!(datetime_format("2006-01-02"), Err(MyErrors::InvalidCustomDatetime)));
}

#[test]
fn fields_beyond_a_timestamp_are_invalid() {
    assert!(matches!(
        timestamp_from_fields((10000, 1, 1, 0, 0, 0, 0)),
        Err(MyErrors::InvalidCustomDatetime)
    ));
    assert!(matches!(
        timestamp_from_fields((-1, 1, 1, 0, 0, 0, 0)),
        Err(MyErrors::InvalidCustomDatetime)
    ));
    let t = timestamp_from_fields((2024, 2, 29, 1, 2, 3, 999_999_999)).unwrap();
    assert_eq!(fields(t), (2024, 2, 29, 1, 2, 3));
    let t = timestamp_from_fields((2024, 6, 30, 23, 59, 59, 1_000_000_000)).unwrap();
    assert_eq!(fields(t), (2024, 6, 30, 23, 59, 60));
}

#[test]
fn leap_second_is_kept_as_second_sixty() {
    let t = read_custom_date("2015-06-30T23:59:60", "2024-05-06").unwrap();
    assert_eq!(fields(t), (2015, 6, 30, 23, 59, 60));
    assert_eq!(t.file_stamp(), "20150630T235960");
    assert!(matches!(
        read_custom_date("2015-06-30T23:59:61", "2024-05-06"),
        Err(MyErrors::CannotParseCustomDate(_))
    ));
}
