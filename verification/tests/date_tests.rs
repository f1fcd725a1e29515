use gtfs_bin::models::{BitMask, Date, Weekday};

#[test]
fn test_unix_epoch() {
    let date = Date(0);
    assert_eq!(date.to_string(), "1970-01-01");
}

#[test]
fn test_future_date() {
    let date = Date(20_533);
    assert_eq!(date.to_string(), "2026-03-21");
}

#[test]
fn test_leap_year_day() {
    // February 29, 2024 is 19,782 days after epoch
    let date = Date(19_782);
    assert_eq!(date.to_string(), "2024-02-29");
}

#[test]
fn test_dates() {
    let weekday = Weekday::monday();
    assert!(weekday.contains(Weekday::monday()));
    assert!(!weekday.contains(Weekday::tuesday()));
    let weekday = Weekday::friday();
    assert!(weekday.contains(Weekday::friday()));
    assert!(!weekday.contains(Weekday::thursday()));
    assert!(!weekday.contains(Weekday::saturday()));
}

#[test]
fn test_weekday_max() {
    let all = Weekday::monday()
        .join(Weekday::tuesday())
        .join(Weekday::wednesday())
        .join(Weekday::thursday())
        .join(Weekday::friday())
        .join(Weekday::saturday())
        .join(Weekday::sunday());
    let max = Weekday(u8::MAX);
    assert!(max.contains(all));
}

#[test]
fn test_day_of_week_of_epoch_is_thursday() {
    // 1970-01-01 was a Thursday; Monday is day 0.
    assert_eq!(Date(0).get_day_of_week(), 3);
    assert_eq!(Date(17_167).get_day_of_week(), 6);
}

#[test]
fn test_civil_dates() {
    assert_eq!(Date(17_167).to_string(), "2017-01-01");
    assert_eq!(Date(17_181).to_string(), "2017-01-15");
}
