use reminder_bot::calendar::DateTime;
use reminder_bot::date::parse_human_datetime;

fn dt(year: u32, month: u32, day: u32, hour: u32, minute: u32, second: u32) -> DateTime {
    DateTime { year, month, day, hour, minute, second }
}

#[test]
fn date_parse_test() {
    let now = dt(2014, 7, 8, 9, 10, 11);

    assert_eq!(parse_human_datetime("tomorrow", &now).unwrap(), dt(2014, 7, 9, 9, 30, 0));

    assert_eq!(
        parse_human_datetime("tomorrow at 1800", &now).unwrap(),
        dt(2014, 7, 9, 18, 00, 0)
    );

    assert!(parse_human_datetime("tomorrow at 9900", &now).is_err());

    assert_eq!(parse_human_datetime("in 1 week", &now).unwrap(), dt(2014, 7, 15, 9, 30, 0));

    assert_eq!(
        parse_human_datetime("in 1 week at 10:00", &now).unwrap(),
        dt(2014, 7, 15, 10, 00, 0)
    );

    assert_eq!(parse_human_datetime("in a few hours", &now).unwrap(), dt(2014, 7, 8, 12, 10, 11));

    assert_eq!(parse_human_datetime("in half an hour", &now).unwrap(), dt(2014, 7, 8, 9, 40, 11));

    assert_eq!(parse_human_datetime("wed", &now).unwrap(), dt(2014, 7, 9, 9, 30, 00));

    assert_eq!(parse_human_datetime("on monday", &now).unwrap(), dt(2014, 7, 14, 9, 30, 00));

    assert_eq!(parse_human_datetime("on 2017-12-04", &now).unwrap(), dt(2017, 12, 04, 9, 30, 00));
}

#[test]
fn parse_boundary_zero_seconds() {
    // "in 0 seconds" succeeds and yields exactly the reference instant: the
    // push-a-day rule fires only on results strictly before it.
    let now = dt(2014, 7, 8, 9, 10, 11);
    assert_eq!(parse_human_datetime("in 0 seconds", &now).unwrap(), now);
}

#[test]
fn parse_boundary_bad_hours() {
    let now = dt(2014, 7, 8, 9, 10, 11);
    assert!(parse_human_datetime("at 25:00", &now).is_err());
    assert!(parse_human_datetime("at 9900", &now).is_err());
}

#[test]
fn parse_is_deterministic() {
    let now = dt(2014, 7, 8, 9, 10, 11);
    let phrases = ["tomorrow at 1800", "in half an hour", "on monday", "nonsense", "at 25:00"];
    for p in phrases {
        assert_eq!(parse_human_datetime(p, &now), parse_human_datetime(p, &now));
    }
}

#[test]
fn parse_next_week() {
    // 2014-07-08 is a Tuesday; "next week" lands on the following Monday.
    let now = dt(2014, 7, 8, 9, 10, 11);
    assert_eq!(parse_human_datetime("next week", &now).unwrap(), dt(2014, 7, 14, 9, 30, 0));
    // From a Monday it is the following Monday, a full week out.
    let monday = dt(2014, 7, 7, 9, 10, 11);
    assert_eq!(parse_human_datetime("next week", &monday).unwrap(), dt(2014, 7, 14, 9, 30, 0));
}

#[test]
fn parse_normalizes_case_and_space() {
    let now = dt(2014, 7, 8, 9, 10, 11);
    assert_eq!(
        parse_human_datetime("  TomorroW  ", &now).unwrap(),
        dt(2014, 7, 9, 9, 30, 0)
    );
}

#[test]
fn parse_day_after_tomorrow() {
    let now = dt(2014, 7, 8, 9, 10, 11);
    assert_eq!(
        parse_human_datetime("day after tomorrow", &now).unwrap(),
        dt(2014, 7, 10, 9, 30, 0)
    );
}

#[test]
fn parse_am_pm() {
    let now = dt(2014, 7, 8, 9, 10, 11);
    // The "tomorrow" prefix keeps the reference time of day, and the
    // meridiem form replaces the hour alone.
    assert_eq!(
        parse_human_datetime("tomorrow at 5 pm", &now).unwrap(),
        dt(2014, 7, 9, 17, 10, 11)
    );
    assert_eq!(
        parse_human_datetime("tomorrow at 8 am", &now).unwrap(),
        dt(2014, 7, 9, 8, 10, 11)
    );
    // Hour 12 pm would be hour 24: out of range.
    assert!(parse_human_datetime("tomorrow at 12 pm", &now).is_err());
}

#[test]
fn parse_at_time_pushes_past_result_a_day() {
    // "at 8:00" alone matches the weekday-less, base-less path only through
    // a base clause; here the weekday clause gives today, 8:00 is already
    // past, so the result moves one day ahead.
    let now = dt(2014, 7, 8, 9, 10, 11);
    assert_eq!(
        parse_human_datetime("tue at 8:00", &now).unwrap(),
        dt(2014, 7, 9, 8, 0, 0)
    );
}

#[test]
fn parse_relative_counts() {
    let now = dt(2014, 7, 8, 9, 10, 11);
    assert_eq!(
        parse_human_datetime("in a couple of days", &now).unwrap(),
        dt(2014, 7, 10, 9, 10, 11)
    );
    assert_eq!(parse_human_datetime("in 90 m", &now).unwrap(), dt(2014, 7, 8, 10, 40, 11));
    // More than 48 hours out snaps to the default morning.
    assert_eq!(parse_human_datetime("in 3 days", &now).unwrap(), dt(2014, 7, 11, 9, 30, 0));
    // Exactly the ceiling is allowed and lands far in the calendar's future.
    let far = parse_human_datetime("in 10000000 w", &now).unwrap();
    assert!(far.year > 190000);
    assert_eq!((far.hour, far.minute, far.second), (9, 30, 0));
    // Over the ceiling.
    assert!(parse_human_datetime("in 10000001 weeks", &now).is_err());
    assert_eq!(
        parse_human_datetime("in 2 months", &now).unwrap(),
        dt(2014, 9, 8, 9, 30, 0)
    );
    assert_eq!(
        parse_human_datetime("in 1 year", &now).unwrap(),
        dt(2015, 7, 8, 9, 30, 0)
    );
}

#[test]
fn unix_timestamp_round_trip() {
    let now = dt(2014, 7, 8, 9, 10, 11);
    assert_eq!(now.unix_timestamp(), 1404810611);
    assert_eq!(DateTime::from_unix_timestamp(1404810611), Some(now));
    assert_eq!(DateTime::from_unix_timestamp(0), Some(dt(1970, 1, 1, 0, 0, 0)));
    // 2014-07-08 is a Tuesday: one day from Monday.
    assert_eq!(now.days_from_monday(), 1);
}

#[test]
fn parse_invalid_dates_fail() {
    let now = dt(2014, 7, 8, 9, 10, 11);
    assert!(parse_human_datetime("on 2017-02-29", &now).is_err());
    assert!(parse_human_datetime("on 2017-13-01", &now).is_err());
    assert!(parse_human_datetime("on 2017-00-10", &now).is_err());
    assert!(parse_human_datetime("gibberish", &now).is_err());
    assert_eq!(parse_human_datetime("on 2016-02-29", &now).unwrap(), dt(2016, 2, 29, 9, 30, 0));
}
