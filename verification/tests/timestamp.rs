use chrono::{NaiveDate, NaiveDateTime};
use panda::timestamp::Timestamp;

fn stamp(year: i32, month: u32, day: u32, hour: u32, minute: u32, second: u32, nano: u32) -> Timestamp {
    Timestamp { year, month, day, hour, minute, second, nanosecond: nano }
}

fn chrono_text(t: &Timestamp) -> String {
    NaiveDate::from_ymd_opt(t.year, t.month, t.day)
        .unwrap()
        .and_hms_nano_opt(t.hour, t.minute, t.second, t.nanosecond)
        .unwrap()
        .to_string()
}

#[test]
fn epoch_text() {
    assert_eq!(Timestamp::epoch().text(), "1970-01-01 00:00:00");
    assert_eq!(Timestamp::epoch().text(), NaiveDateTime::default().to_string());
}

#[test]
fn timestamp_text_matches_chrono() {
    let samples = [
        stamp(2023, 5, 17, 8, 3, 9, 0),
        stamp(7, 12, 31, 23, 59, 59, 0),
        stamp(0, 2, 29, 0, 0, 0, 0),
        stamp(-1, 1, 1, 0, 0, 0, 0),
        stamp(-262143, 1, 1, 0, 0, 0, 0),
        stamp(10000, 6, 1, 12, 30, 0, 0),
        stamp(262142, 12, 31, 1, 2, 3, 0),
        stamp(2024, 2, 29, 1, 2, 3, 500_000_000),
        stamp(2024, 2, 29, 1, 2, 3, 120_000),
        stamp(2024, 2, 29, 1, 2, 3, 7),
        stamp(2016, 12, 31, 23, 59, 59, 1_000_000_000),
        stamp(2016, 12, 31, 23, 59, 59, 1_250_000_000),
    ];
    for t in samples.iter() {
        assert_eq!(t.text(), chrono_text(t), "{:?}", t);
    }
}
