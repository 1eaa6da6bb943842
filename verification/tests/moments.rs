use owa_calendar::board::today_title;
use owa_calendar::config::{AppConfig, CalendarConfig};
use owa_calendar::moment::{
    is_offset, is_shiftable, local_day, shift, wait_between, Moment, Wait, FIRST_DAY, FIRST_SECOND,
    LAST_DAY, LAST_SECOND,
};
use owa_calendar::requests::{unread_count_request, view_end, view_start, RequestTime};
use owa_calendar::OwaSession;

fn at(secs: i64) -> Moment {
    Moment { secs, nanos: 0 }
}

/// How a request gives its beginning.
fn stamp(begin: Moment, offset: i32) -> String {
    let config = AppConfig {
        calendar: CalendarConfig {
            host: String::new(),
            username: String::new(),
            password: String::new(),
            fetch: 10,
            notify: 15,
            build_version: String::new(),
            action_calendar_view: 0,
            action_calendar_folders: 0,
            action_get_folder: 0,
        },
    };
    let session = OwaSession { canary: String::new(), basic_auth_header: None };
    let time = RequestTime { nanos: 0, begin, offset };
    assert!(time.is_valid());
    let request = unread_count_request(&session, &config, &time);
    let header = request.headers.into_iter().find(|h| h.name == "X-OWA-ClientBegin").unwrap();
    header.value
}

#[test]
fn moments_that_can_be_represented() {
    assert!(at(0).is_valid());
    assert!(at(FIRST_SECOND).is_valid());
    assert!(at(LAST_SECOND).is_valid());
    assert!(!at(FIRST_SECOND - 1).is_valid());
    assert!(!at(LAST_SECOND + 1).is_valid());
    assert!(Moment { secs: 59, nanos: 1_999_999_999 }.is_valid());
    assert!(!Moment { secs: 59, nanos: 2_000_000_000 }.is_valid());
    assert!(!Moment { secs: 58, nanos: 1_000_000_000 }.is_valid());
    assert!(Moment { secs: -1, nanos: 1_000_000_000 }.is_valid());
    assert!(!Moment { secs: -2, nanos: 1_000_000_000 }.is_valid());
    // The bounds are those of the calendar crate.
    assert_eq!(chrono::DateTime::<chrono::Utc>::MIN_UTC.timestamp(), FIRST_SECOND);
    assert_eq!(chrono::DateTime::<chrono::Utc>::MAX_UTC.timestamp(), LAST_SECOND);
}

#[test]
fn order_of_moments() {
    let early = Moment { secs: 5, nanos: 9 };
    let late = Moment { secs: 5, nanos: 10 };
    assert!(late.is_after(&early));
    assert!(!early.is_after(&late));
    assert!(!early.is_after(&early));
    assert!(at(6).is_after(&late));
}

#[test]
fn shifting_by_seconds() {
    assert_eq!(shift(Moment { secs: 100, nanos: 7 }, 900), Moment { secs: 1000, nanos: 7 });
    assert_eq!(shift(Moment { secs: 100, nanos: 7 }, -900), Moment { secs: -800, nanos: 7 });
    assert_eq!(shift(at(LAST_SECOND), FIRST_SECOND - LAST_SECOND), at(FIRST_SECOND));
}

#[test]
fn shifting_out_of_a_leap_second() {
    let leap = Moment { secs: 59, nanos: 1_500_000_000 };
    assert_eq!(shift(leap, 0), leap);
    assert_eq!(shift(leap, 1), Moment { secs: 60, nanos: 500_000_000 });
    assert_eq!(shift(leap, -1), Moment { secs: 59, nanos: 500_000_000 });
}

#[test]
fn what_can_be_shifted() {
    assert!(is_shiftable(at(0), LAST_SECOND));
    assert!(!is_shiftable(at(1), LAST_SECOND));
    assert!(is_shiftable(at(0), FIRST_SECOND));
    assert!(!is_shiftable(at(-1), FIRST_SECOND));
    assert!(!is_shiftable(at(0), i64::MAX));
    assert!(!is_shiftable(at(0), i64::MIN));
}

#[test]
fn waits() {
    let from = Moment { secs: 10, nanos: 900_000_000 };
    let to = Moment { secs: 12, nanos: 100_000_000 };
    assert_eq!(wait_between(from, to), Wait { secs: 1, nanos: 200_000_000 });
    assert_eq!(wait_between(to, from), Wait { secs: 0, nanos: 0 });
    assert_eq!(wait_between(to, to), Wait { secs: 0, nanos: 0 });
}

#[test]
fn waits_around_a_leap_second() {
    let leap = Moment { secs: 59, nanos: 1_500_000_000 };
    assert_eq!(wait_between(leap, at(61)), Wait { secs: 1, nanos: 500_000_000 });
    assert_eq!(wait_between(at(58), leap), Wait { secs: 2, nanos: 500_000_000 });
}

#[test]
fn a_wait_undoes_a_shift() {
    let m = Moment { secs: 1709550000, nanos: 123 };
    assert_eq!(wait_between(m, shift(m, 900)), Wait { secs: 900, nanos: 0 });
}

#[test]
fn view_reaches_from_ten_days_before_to_three_weeks_after() {
    let now = Moment { secs: 1709550000, nanos: 5 };
    assert_eq!(view_start(now), Moment { secs: 1709550000 - 864000, nanos: 5 });
    assert_eq!(view_end(now), Moment { secs: 1709550000 + 1814400, nanos: 5 });
}

#[test]
fn local_days() {
    // March 4, 2024, which is day 738949, begins at second 1709510400.
    assert_eq!(local_day(at(1709510400), 0), 738949);
    assert_eq!(local_day(at(1709510399), 0), 738948);
    assert_eq!(local_day(at(1709510399), 1), 738949);
    assert_eq!(local_day(at(1709510400), -1), 738948);
    assert_eq!(local_day(at(0), 0), 719163);
    assert_eq!(local_day(at(FIRST_SECOND), 0), FIRST_DAY);
    assert_eq!(local_day(at(LAST_SECOND), 0), LAST_DAY);
    assert_eq!(local_day(at(FIRST_SECOND), -86399), FIRST_DAY - 1);
    assert_eq!(local_day(at(LAST_SECOND), 86399), LAST_DAY + 1);
    assert!(is_offset(86399) && is_offset(-86399));
    assert!(!is_offset(86400) && !is_offset(-86400));
}

#[test]
fn written_dates() {
    assert_eq!(today_title(738945), "29.02.2024");
    assert_eq!(today_title(1), "01.01.0001");
    assert_eq!(today_title(0), "31.12.0000");
    assert_eq!(today_title(-366), "31.12.-0001");
    assert_eq!(today_title(3652060), "01.01.+10000");
    assert_eq!(today_title(FIRST_DAY), "01.01.-262143");
    assert_eq!(today_title(LAST_DAY), "31.12.+262142");
}

#[test]
fn written_times() {
    let m = Moment { secs: 1709550000, nanos: 123_999_999 };
    assert_eq!(stamp(m, 0), "2024-03-04T11:00:00.123");
    assert_eq!(stamp(m, 10800), "2024-03-04T14:00:00.123");
    assert_eq!(stamp(m, 19800), "2024-03-04T16:30:00.123");
    assert_eq!(stamp(m, -43200), "2024-03-03T23:00:00.123");
    assert_eq!(stamp(at(0), 0), "1970-01-01T00:00:00.000");
    let leap = Moment { secs: 1483228799, nanos: 1_250_000_000 };
    assert_eq!(stamp(leap, 0), "2016-12-31T23:59:60.250");
}

#[test]
fn written_times_at_the_ends() {
    assert_eq!(stamp(at(LAST_SECOND), 86399), "+262143-01-01T23:59:58.000");
    assert_eq!(stamp(at(FIRST_SECOND), -86399), "-262144-12-31T00:00:01.000");
    assert_eq!(stamp(at(-62135596800), 0), "0001-01-01T00:00:00.000");
}
