use anpai::temporal::{
    compare_date, datetime_add, mod_div, parse_temporal, timedelta_to_duration, Date, DateTime,
    Duration, Temporal, Time,
};
use std::cmp::Ordering;

#[test]
fn temporal_test_parse_temp_value() {
    assert!(matches!(
        parse_temporal(r#"@"2020-04-06T08:00:00@Europe/Berlin""#),
        Ok(Temporal::DateTime(_))
    ));
    assert!(matches!(
        parse_temporal("2020-04-06T08:00:00@Europe/Berlin"),
        Ok(Temporal::DateTime(_))
    ));
    assert!(matches!(parse_temporal("PT2H3M"), Ok(Temporal::Duration(_))));
}

#[test]
fn parse_temporal_reads_each_form() {
    assert_eq!(
        parse_temporal("2021-02-27"),
        Ok(Temporal::Date(Date::YMD { year: 2021, month: 2, day: 27 }))
    );
    match parse_temporal("10:20:30") {
        Ok(Temporal::Time(t)) => assert_eq!((t.hour, t.minute, t.second), (10, 20, 30)),
        other => panic!("unexpected {:?}", other),
    }
    assert_eq!(parse_temporal("nonsense"), Err("fail to parse temporal value".to_owned()));
}

fn at(year: i32, month: u32, day: u32, hour: u32) -> DateTime {
    DateTime {
        date: Date::YMD { year, month, day },
        time: Time { hour, minute: 0, second: 0, millisecond: 0, tz_offset_hours: 1, tz_offset_minutes: 0 },
    }
}

#[test]
fn datetime_add_carries_units() {
    let d = Duration::YMDHMS { year: 1, month: 11, day: 0, hour: 30, minute: 0, second: 0, millisecond: 0 };
    let r = datetime_add(at(2023, 6, 1, 10), d).unwrap();
    // 40 hours: one day and 16 hours; 17 months: one year and 5 months
    assert_eq!(r, DateTime {
        date: Date::YMD { year: 2025, month: 5, day: 2 },
        time: Time { hour: 16, minute: 0, second: 0, millisecond: 0, tz_offset_hours: 1, tz_offset_minutes: 0 },
    });
    assert_eq!(mod_div(1234, 1000), (234, 1));
    assert_eq!(
        datetime_add(at(2023, 6, 1, 10), Duration::Weeks(2)),
        Err("fail to add temporal value".to_owned())
    );
}

#[test]
fn compare_dates_of_one_form() {
    let a = Date::YMD { year: 2023, month: 9, day: 17 };
    let b = Date::YMD { year: 2023, month: 10, day: 2 };
    assert_eq!(compare_date(&a, &b), Some(Ordering::Less));
    assert_eq!(compare_date(&b, &a), Some(Ordering::Greater));
    assert_eq!(compare_date(&a, &a), Some(Ordering::Equal));
    assert_eq!(compare_date(&a, &Date::Ordinal { year: 2023, ddd: 1 }), None);
}

#[test]
fn timedelta_splits_into_units() {
    let (d, neg) = timedelta_to_duration(-(2 * 86400 + 3 * 3600 + 4 * 60 + 5), Some(-1_500_000_000));
    assert!(neg);
    assert_eq!(d, Duration::YMDHMS { year: 0, month: 0, day: 2, hour: 3, minute: 4, second: 5, millisecond: 1500 });
}
