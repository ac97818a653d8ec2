use jrn::date::{Date, DateFromStrError, DateRequest};

fn ymd(year: i32, month: u8, day: u8) -> Date {
    Date { year, month, day }
}

#[test]
fn absolute_date_is_read() {
    assert_eq!(Date::from_str("2024-01-01"), Ok(ymd(2024, 1, 1)));
    assert_eq!(Date::from_str("1999-12-31"), Ok(ymd(1999, 12, 31)));
    assert_eq!(Date::from_str("0-1-1"), Ok(ymd(0, 1, 1)));
}

#[test]
fn white_space_around_the_text_is_dropped() {
    assert_eq!(Date::from_str("  2024-03-05\n"), Ok(ymd(2024, 3, 5)));
}

#[test]
fn plus_sign_and_leading_zeros_are_read() {
    assert_eq!(Date::from_str("+2024-+1-+9"), Ok(ymd(2024, 1, 9)));
    assert_eq!(Date::from_str("02024-001-009"), Ok(ymd(2024, 1, 9)));
}

#[test]
fn leap_day_exists_only_in_leap_years() {
    assert_eq!(Date::from_str("2024-02-29"), Ok(ymd(2024, 2, 29)));
    assert_eq!(Date::from_str("2000-02-29"), Ok(ymd(2000, 2, 29)));
    assert_eq!(Date::from_str("2023-02-29"), Err(DateFromStrError::InvalidDate));
    assert_eq!(Date::from_str("1900-02-29"), Err(DateFromStrError::InvalidDate));
}

#[test]
fn days_and_months_out_of_the_calendar_are_invalid_dates() {
    assert_eq!(Date::from_str("2024-13-01"), Err(DateFromStrError::InvalidDate));
    assert_eq!(Date::from_str("2024-00-10"), Err(DateFromStrError::InvalidDate));
    assert_eq!(Date::from_str("2024-04-31"), Err(DateFromStrError::InvalidDate));
    assert_eq!(Date::from_str("2024-04-00"), Err(DateFromStrError::InvalidDate));
    assert_eq!(Date::from_str("2024-01-32"), Err(DateFromStrError::InvalidDate));
}

#[test]
fn years_beyond_the_calendar_are_invalid_dates() {
    assert_eq!(Date::from_str("262142-12-31"), Ok(ymd(262142, 12, 31)));
    assert_eq!(Date::from_str("262143-01-01"), Err(DateFromStrError::InvalidDate));
    assert_eq!(Date::from_str("400000-01-01"), Err(DateFromStrError::InvalidDate));
}

#[test]
fn other_than_two_hyphens_is_invalid_length() {
    assert_eq!(Date::from_str(""), Err(DateFromStrError::InvalidLength));
    assert_eq!(Date::from_str("20240101"), Err(DateFromStrError::InvalidLength));
    assert_eq!(Date::from_str("2024-01"), Err(DateFromStrError::InvalidLength));
    assert_eq!(Date::from_str("2024-01-01-01"), Err(DateFromStrError::InvalidLength));
    assert_eq!(Date::from_str("-5-01-01"), Err(DateFromStrError::InvalidLength));
}

#[test]
fn fields_that_are_no_numbers_are_not_numeric() {
    assert_eq!(Date::from_str("abcd-01-01"), Err(DateFromStrError::IsNotNumeric));
    assert_eq!(Date::from_str("2024-1a-01"), Err(DateFromStrError::IsNotNumeric));
    assert_eq!(Date::from_str("2024--01"), Err(DateFromStrError::IsNotNumeric));
    assert_eq!(Date::from_str("--"), Err(DateFromStrError::IsNotNumeric));
    assert_eq!(Date::from_str("2024- 1-01"), Err(DateFromStrError::IsNotNumeric));
    assert_eq!(Date::from_str("+-1-1"), Err(DateFromStrError::IsNotNumeric));
}

#[test]
fn fields_too_large_for_their_type_are_not_numeric() {
    assert_eq!(Date::from_str("2024-256-01"), Err(DateFromStrError::IsNotNumeric));
    assert_eq!(Date::from_str("2024-01-256"), Err(DateFromStrError::IsNotNumeric));
    assert_eq!(Date::from_str("2147483648-01-01"), Err(DateFromStrError::IsNotNumeric));
    assert_eq!(Date::from_str("2147483647-01-01"), Err(DateFromStrError::InvalidDate));
    assert_eq!(Date::from_str("2024-255-01"), Err(DateFromStrError::InvalidDate));
}

#[test]
fn today_is_read_in_any_case() {
    let before = Date::today();
    let read = Date::from_str(" ToDay ").unwrap();
    let after = Date::today();
    assert!(read == before || read == after);
}

#[test]
fn today_minus_nothing_is_today() {
    let before = Date::today();
    let read = Date::from_str("today - 0").unwrap();
    let after = Date::today();
    assert!(read == before || read == after);
}

#[test]
fn today_minus_days_lies_before_today() {
    let read = Date::from_str("today-1").unwrap();
    assert!(read.is_before(&Date::today()));
    let far = Date::from_str("TODAY-400").unwrap();
    assert!(far.is_before(&read));
    assert!(far.year < Date::today().year);
}

#[test]
fn malformed_delta_is_rejected() {
    assert_eq!(Date::from_str("today+1"), Err(DateFromStrError::InvalidTodayMinusFormat));
    assert_eq!(Date::from_str("today-x"), Err(DateFromStrError::InvalidTodayMinusFormat));
    assert_eq!(Date::from_str("today-"), Err(DateFromStrError::InvalidTodayMinusFormat));
    assert_eq!(Date::from_str("today--1"), Err(DateFromStrError::InvalidTodayMinusFormat));
    assert_eq!(Date::from_str("todayish"), Err(DateFromStrError::InvalidTodayMinusFormat));
    assert_eq!(
        Date::from_str("today-400000000000000000000000000000000000000"),
        Err(DateFromStrError::InvalidTodayMinusFormat)
    );
}

#[test]
fn delta_beyond_the_calendar_is_an_invalid_date() {
    assert_eq!(Date::from_str("today-9999999999"), Err(DateFromStrError::InvalidDate));
    assert_eq!(
        Date::from_str("today-99999999999999999999"),
        Err(DateFromStrError::InvalidDate)
    );
    assert_eq!(
        Date::from_str("today-18446744073709551616"),
        Err(DateFromStrError::InvalidDate)
    );
}

#[test]
fn request_of_a_normal_text() {
    assert_eq!(
        jrn::date::parse_request("2024-01-01"),
        Ok(DateRequest::Absolute(ymd(2024, 1, 1)))
    );
    assert_eq!(jrn::date::parse_request("today"), Ok(DateRequest::Today));
    assert_eq!(jrn::date::parse_request("today   "), Ok(DateRequest::Today));
    assert_eq!(jrn::date::parse_request("today -  3"), Ok(DateRequest::DaysAgo(3)));
    assert_eq!(jrn::date::parse_request("today-+7"), Ok(DateRequest::DaysAgo(7)));
    assert_eq!(
        jrn::date::parse_request("today-9223372036854775807"),
        Ok(DateRequest::DaysAgo(i64::MAX))
    );
    assert_eq!(
        jrn::date::parse_request("today-9223372036854775808"),
        Err(DateFromStrError::InvalidDate)
    );
    assert_eq!(
        jrn::date::parse_request("Today"),
        Err(DateFromStrError::InvalidLength)
    );
}

#[test]
fn request_is_resolved_against_the_clock() {
    let d = ymd(2024, 1, 1);
    let t = ymd(2025, 6, 7);
    assert_eq!(Date::resolve(DateRequest::Absolute(d), None), Ok(d));
    assert_eq!(Date::resolve(DateRequest::Absolute(d), Some(t)), Ok(d));
    assert_eq!(Date::resolve(DateRequest::Today, Some(t)), Ok(t));
    assert_eq!(Date::resolve(DateRequest::DaysAgo(3), Some(t)), Ok(t));
    assert_eq!(
        Date::resolve(DateRequest::DaysAgo(3), None),
        Err(DateFromStrError::InvalidDate)
    );
}

#[test]
fn days_ago_gives_days_of_the_calendar() {
    let today = Date::today();
    let same = Date::days_ago(0).unwrap();
    assert!(same == today || today.is_before(&same) || same.is_before(&today));
    let week = Date::days_ago(7).unwrap();
    assert!(week.is_before(&today));
    assert!(1 <= week.month && week.month <= 12);
    assert!(1 <= week.day && week.day <= 31);
    assert_eq!(Date::days_ago(i64::MAX), None);
}

#[test]
fn date_is_written_with_padded_month_and_day() {
    assert_eq!(ymd(2024, 1, 1).to_string(), "2024-01-01");
    assert_eq!(ymd(2024, 12, 31).to_string(), "2024-12-31");
    assert_eq!(ymd(5, 10, 9).to_string(), "5-10-09");
    assert_eq!(ymd(0, 1, 1).to_string(), "0-01-01");
    assert_eq!(ymd(-5, 12, 31).to_string(), "-5-12-31");
    assert_eq!(ymd(i32::MIN, 255, 100).to_string(), "-2147483648-255-100");
    assert_eq!(ymd(i32::MAX, 0, 0).to_string(), "2147483647-00-00");
}

#[test]
fn written_date_reads_back() {
    for date in [ymd(2024, 1, 1), ymd(1, 2, 3), ymd(0, 12, 31), ymd(262142, 12, 31)] {
        assert_eq!(Date::from_str(&date.to_string()), Ok(date));
    }
}

#[test]
fn dates_are_ordered_by_year_then_month_then_day() {
    assert!(ymd(2023, 12, 31).is_before(&ymd(2024, 1, 1)));
    assert!(ymd(2024, 1, 31).is_before(&ymd(2024, 2, 1)));
    assert!(ymd(2024, 2, 1).is_before(&ymd(2024, 2, 2)));
    assert!(ymd(-1, 12, 31).is_before(&ymd(0, 1, 1)));
    assert!(!ymd(2024, 2, 2).is_before(&ymd(2024, 2, 2)));
    assert!(!ymd(2024, 2, 2).is_before(&ymd(2024, 2, 1)));
    assert!(ymd(2023, 12, 31) < ymd(2024, 1, 1));
    assert!(ymd(2024, 1, 31) < ymd(2024, 2, 1));
    let mut dates = vec![ymd(2024, 2, 1), ymd(2023, 5, 5), ymd(2024, 1, 31)];
    dates.sort();
    assert_eq!(dates, vec![ymd(2023, 5, 5), ymd(2024, 1, 31), ymd(2024, 2, 1)]);
}

#[test]
fn today_is_a_day_of_the_calendar() {
    let today = Date::today();
    assert!(today.year >= 2024);
    assert!(1 <= today.month && today.month <= 12);
    assert!(1 <= today.day && today.day <= 31);
}

#[test]
fn date_errors_have_names() {
    assert_eq!(
        DateFromStrError::InvalidTodayMinusFormat.to_string(),
        "InvalidTodayMinusFormat"
    );
    assert_eq!(DateFromStrError::InvalidLength.to_string(), "InvalidLength");
    assert_eq!(DateFromStrError::IsNotNumeric.to_string(), "IsNotNumeric");
    assert_eq!(DateFromStrError::InvalidDate.to_string(), "InvalidDate");
}

#[test]
fn days_that_are_no_span_of_time_give_no_day() {
    assert_eq!(Date::days_ago(106_751_991_168), None);
    assert_eq!(Date::days_ago(-106_751_991_168), None);
    assert_eq!(Date::days_ago(i64::MIN), None);
    assert_eq!(Date::days_ago(106_751_991_167), None);
    assert!(Date::days_ago(1).is_some());
    assert!(Date::days_ago(36_525).is_some());
}

#[test]
fn clock_answer_becomes_a_date() {
    assert_eq!(Date::from_clock(None), None);
    assert_eq!(Date::from_clock(Some((2024, 2, 29))), Some(ymd(2024, 2, 29)));
    assert_eq!(Date::from_clock(Some((-44, 3, 15))), Some(ymd(-44, 3, 15)));
    assert_eq!(Date::from_clock(Some((1, 255, 255))), Some(ymd(1, 255, 255)));
}

#[test]
fn days_within_reach_always_give_a_day() {
    let today = Date::today();
    for days in [0i64, 1, 2, 30, 365, 36_499, 36_500] {
        let day = Date::days_ago(days).unwrap();
        assert!(1 <= day.month && day.month <= 12);
        assert!(1 <= day.day && day.day <= 31);
        assert!(day == today || day.is_before(&today));
    }
    assert!(Date::days_ago(36_500).unwrap().year <= today.year - 99);
}

#[test]
fn today_minus_days_within_reach_is_read() {
    for text in ["today-0", "today-1", "today - 365", "TODAY-36500", " today -36500 "] {
        assert!(Date::from_str(text).is_ok());
    }
    let far = Date::from_str("today-36500").unwrap();
    assert!(far.is_before(&Date::from_str("today-36499").unwrap()));
}

#[test]
fn rest_behind_today_is_read_from_its_trimmed_parts() {
    assert_eq!(jrn::date::parse_relative("", ""), Ok(DateRequest::Today));
    assert_eq!(jrn::date::parse_relative("-3", "3"), Ok(DateRequest::DaysAgo(3)));
    assert_eq!(jrn::date::parse_relative("- 3", "3"), Ok(DateRequest::DaysAgo(3)));
    assert_eq!(jrn::date::parse_relative("-+12", "+12"), Ok(DateRequest::DaysAgo(12)));
    assert_eq!(
        jrn::date::parse_relative("x", ""),
        Err(DateFromStrError::InvalidTodayMinusFormat)
    );
    assert_eq!(
        jrn::date::parse_relative("+3", "3"),
        Err(DateFromStrError::InvalidTodayMinusFormat)
    );
    assert_eq!(
        jrn::date::parse_relative("-", ""),
        Err(DateFromStrError::InvalidTodayMinusFormat)
    );
    assert_eq!(
        jrn::date::parse_relative("-x", "x"),
        Err(DateFromStrError::InvalidTodayMinusFormat)
    );
    assert_eq!(
        jrn::date::parse_relative("--3", "-3"),
        Err(DateFromStrError::InvalidTodayMinusFormat)
    );
    assert_eq!(
        jrn::date::parse_relative("-9223372036854775808", "9223372036854775808"),
        Err(DateFromStrError::InvalidDate)
    );
    assert_eq!(
        jrn::date::parse_relative("-9223372036854775807", "9223372036854775807"),
        Ok(DateRequest::DaysAgo(i64::MAX))
    );
}
