//! Calendar dates, the keys of journal entries.

use crate::text::{
    all_digits, append_decimal, append_padded, chars_of, decimal_text, is_digit,
    lemma_decimal_text, lemma_number_in_digits, lemma_padded_text, lowercase_text, lowercased,
    number_in, padded_text, parse_number, trim_text, trimmed,
};
use chrono::Datelike;
use vstd::prelude::*;
use vstd::string::{StrSliceExecFns, StringExecFns};

verus! {

/// The earliest year a date may carry.
pub const MIN_YEAR: i32 = -262143;

/// The latest year a date may carry.
pub const MAX_YEAR: i32 = 262142;

/// Whether `year` is a leap year of the proleptic Gregorian calendar.
pub open spec fn is_leap_year(year: int) -> bool {
    year % 4 == 0 && (year % 100 != 0 || year % 400 == 0)
}

/// The number of days of `month` in `year`; zero where `month` is no month.
pub open spec fn days_in_month(year: int, month: int) -> int {
    if month == 2 {
        if is_leap_year(year) {
            29
        } else {
            28
        }
    } else if month == 4 || month == 6 || month == 9 || month == 11 {
        30
    } else if 1 <= month <= 12 {
        31
    } else {
        0
    }
}

/// Whether month and day name a day of the year `year`.
pub open spec fn is_day_of_year(year: int, month: int, day: int) -> bool {
    1 <= month <= 12 && 1 <= day <= days_in_month(year, month)
}

/// Whether year, month and day name a day of the calendar: a day of a
/// year from `MIN_YEAR` to `MAX_YEAR`.
pub open spec fn is_calendar_date(year: int, month: int, day: int) -> bool {
    MIN_YEAR <= year <= MAX_YEAR && is_day_of_year(year, month, day)
}

/// A date with a year, month, and day value.
#[derive(Debug, Clone, Copy, PartialEq, Eq, PartialOrd, Ord, Hash, Structural)]
pub struct Date {
    /// The year; negative for years before the common era.
    pub year: i32,
    /// The month, from 1.
    pub month: u8,
    /// The day of the month, from 1.
    pub day: u8,
}

/// `chrono::Local::now`, and `Datelike::year`, `month` and `day` of what it
/// returns. Trusted: month and day name a day of the year, whatever the
/// clock says.
#[verifier::external_body]
fn local_today() -> (ymd: (i32, u32, u32))
    ensures
        is_day_of_year(ymd.0 as int, ymd.1 as int, ymd.2 as int),
{
    let now = chrono::Local::now();
    (now.year(), now.month(), now.day())
}

impl Date {
    /// Today's date by the local clock.
    pub fn today() -> (d: Date)
        ensures
            d.names_a_day(),
    {
        let (year, month, day) = local_today();
        Date { year, month: month as u8, day: day as u8 }
    }

    /// Whether this value names a day of the calendar.
    pub open spec fn is_valid(&self) -> bool {
        is_calendar_date(self.year as int, self.month as int, self.day as int)
    }

    /// Whether month and day of this value name a day of its year.
    pub open spec fn names_a_day(&self) -> bool {
        is_day_of_year(self.year as int, self.month as int, self.day as int)
    }

    /// Whether `self` comes before `other`: by year, then month, then day.
    pub open spec fn precedes(&self, other: &Date) -> bool {
        self.year < other.year || (self.year == other.year && (self.month < other.month || (
        self.month == other.month && self.day < other.day)))
    }

    /// Tells whether `self` comes before `other` in calendar order.
    pub fn is_before(&self, other: &Date) -> (b: bool)
        ensures
            b == self.precedes(other),
    {
        self.year < other.year || (self.year == other.year && (self.month < other.month || (
        self.month == other.month && self.day < other.day)))
    }
}

/// `chrono::NaiveDate`, a day of the calendar. Only whether there is one is
/// looked at.
#[verifier::external_type_specification]
#[verifier::external_body]
pub struct ExNaiveDate(chrono::NaiveDate);

/// `chrono::NaiveDate::from_ymd_opt`. Trusted: it returns a date where
/// year, month and day name a day of the calendar, and nothing elsewhere.
#[verifier::external_body]
fn naive_date(year: i32, month: u32, day: u32) -> (r: Option<chrono::NaiveDate>)
    ensures
        r is Some <==> is_calendar_date(year as int, month as int, day as int),
{
    chrono::NaiveDate::from_ymd_opt(year, month, day)
}

/// The seconds of a day.
pub const SECONDS_PER_DAY: i64 = 86_400;

/// The most seconds, either way, that a span of time holds.
pub const MAX_SPAN_SECONDS: i64 = 9_223_372_036_854_775;

/// A number of days, a hundred years' worth, that the calendar reaches back
/// from any day that the clock can say: the clock says no day before 1970.
pub const DAYS_IN_REACH: i64 = 36_500;

/// Whether so many days are a span of time: no more seconds, either way,
/// than a span holds.
pub open spec fn is_span_of_days(days: int) -> bool {
    -MAX_SPAN_SECONDS <= days * SECONDS_PER_DAY <= MAX_SPAN_SECONDS
}

/// `chrono::TimeDelta::try_days`, `DateTime::checked_sub_signed` of the
/// span on `chrono::Local::now()`, and `Datelike::year`, `month` and `day`
/// of the result. Trusted: nothing comes back where so many days are no
/// span of time; a day comes back for up to `DAYS_IN_REACH` days back,
/// whatever the clock says; and of a day that comes back, month and day
/// name a day of the year. Beyond `DAYS_IN_REACH` days, whether the
/// calendar reaches that far is the clock's to say.
#[verifier::external_body]
fn local_days_ago(days: i64) -> (r: Option<(i32, u32, u32)>)
    ensures
        !is_span_of_days(days as int) ==> r is None,
        0 <= days <= DAYS_IN_REACH ==> r is Some,
        r matches Some(ymd) ==> is_day_of_year(ymd.0 as int, ymd.1 as int, ymd.2 as int),
{
    let span = chrono::TimeDelta::try_days(days)?;
    let then = chrono::Local::now().checked_sub_signed(span)?;
    Some((then.year(), then.month(), then.day()))
}

/// The ways in which reading a date from text can go wrong.
#[derive(Debug, Clone, Copy, PartialEq, Eq, Structural)]
pub enum DateFromStrError {
    /// What follows `today` is no hyphen and a number of days.
    InvalidTodayMinusFormat,
    /// The text does not have exactly two hyphens.
    InvalidLength,
    /// Year, month or day is no number.
    IsNotNumeric,
    /// Year, month and day name no day of the calendar, or the day lies
    /// beyond the calendar.
    InvalidDate,
}

impl DateFromStrError {
    /// The name of the error.
    pub fn to_string(&self) -> (name: String)
        ensures
            name@ == (match *self {
                DateFromStrError::InvalidTodayMinusFormat => "InvalidTodayMinusFormat"@,
                DateFromStrError::InvalidLength => "InvalidLength"@,
                DateFromStrError::IsNotNumeric => "IsNotNumeric"@,
                DateFromStrError::InvalidDate => "InvalidDate"@,
            }),
    {
        match self {
            DateFromStrError::InvalidTodayMinusFormat => "InvalidTodayMinusFormat".to_owned(),
            DateFromStrError::InvalidLength => "InvalidLength".to_owned(),
            DateFromStrError::IsNotNumeric => "IsNotNumeric".to_owned(),
            DateFromStrError::InvalidDate => "InvalidDate".to_owned(),
        }
    }
}

/// What a text asks for: a day relative to today, or a day of the calendar.
#[derive(Debug, Clone, Copy, PartialEq, Eq, Structural)]
pub enum DateRequest {
    /// Today.
    Today,
    /// So many days before today.
    DaysAgo(i64),
    /// This day.
    Absolute(Date),
}

/// The position of the first hyphen of `text` at or behind `from`; the
/// length of `text` where there is none.
pub open spec fn next_hyphen(text: Seq<char>, from: int) -> int
    decreases text.len() - from,
{
    if from < 0 || from >= text.len() {
        text.len() as int
    } else if text[from] == '-' {
        from
    } else {
        next_hyphen(text, from + 1)
    }
}

/// Whether `text` begins with the word `today`.
pub open spec fn begins_with_today(text: Seq<char>) -> bool {
    text.len() >= 5 && text[0] == 't' && text[1] == 'o' && text[2] == 'd' && text[3] == 'a'
        && text[4] == 'y'
}

/// What a text of the form `YYYY-MM-DD` asks for. The text must have
/// exactly two hyphens, else `InvalidLength`; the three fields must be
/// numbers, else `IsNotNumeric`; and they must name a day of the calendar,
/// else `InvalidDate`.
pub open spec fn absolute_request(text: Seq<char>) -> Result<DateRequest, DateFromStrError> {
    let first = next_hyphen(text, 0);
    let second = next_hyphen(text, first + 1);
    if first >= text.len() || second >= text.len() || next_hyphen(text, second + 1) < text.len() {
        Err(DateFromStrError::InvalidLength)
    } else {
        match (
            number_in(text.subrange(0, first), i32::MAX as nat),
            number_in(text.subrange(first + 1, second), u8::MAX as nat),
            number_in(text.subrange(second + 1, text.len() as int), u8::MAX as nat),
        ) {
            (Some(year), Some(month), Some(day)) => if is_calendar_date(
                year as int,
                month as int,
                day as int,
            ) {
                Ok(DateRequest::Absolute(Date { year: year as i32, month: month as u8, day: day as u8 }))
            } else {
                Err(DateFromStrError::InvalidDate)
            },
            _ => Err(DateFromStrError::IsNotNumeric),
        }
    }
}

/// The request for a day that lies back by the number that `number` holds:
/// `number` must be a number, else `InvalidTodayMinusFormat`, and one by
/// which a day can lie back, else `InvalidDate`.
pub open spec fn days_request(number: Seq<char>) -> Result<DateRequest, DateFromStrError> {
    match number_in(number, u128::MAX as nat) {
        None => Err(DateFromStrError::InvalidTodayMinusFormat),
        Some(days) => if days > i64::MAX {
            Err(DateFromStrError::InvalidDate)
        } else {
            Ok(DateRequest::DaysAgo(days as i64))
        },
    }
}

/// What stands behind `rest`'s first character.
pub open spec fn behind_first(rest: Seq<char>) -> Seq<char> {
    if rest.len() == 0 {
        rest
    } else {
        rest.subrange(1, rest.len() as int)
    }
}

/// What the text behind the word `today` asks for, given that text without
/// the white space at its ends, `rest`, and what stands behind the first
/// character of `rest`, again without the white space at its ends,
/// `number`. An empty `rest` asks for today; else `rest` must begin with a
/// hyphen, else `InvalidTodayMinusFormat`, and `number` says how far back.
pub open spec fn relative_of(rest: Seq<char>, number: Seq<char>) -> Result<
    DateRequest,
    DateFromStrError,
> {
    if rest.len() == 0 {
        Ok(DateRequest::Today)
    } else if rest[0] != '-' {
        Err(DateFromStrError::InvalidTodayMinusFormat)
    } else {
        days_request(number)
    }
}

/// What the text behind the word `today` asks for. Nothing but white space
/// asks for today; else a hyphen and a number of days must follow, with
/// white space around them at will, else `InvalidTodayMinusFormat`; and
/// the number must be one by which a day can lie back, else `InvalidDate`.
pub open spec fn relative_request(rest: Seq<char>) -> Result<DateRequest, DateFromStrError> {
    relative_of(trimmed(rest), trimmed(behind_first(trimmed(rest))))
}

/// What a text, trimmed and in lower case, asks for.
pub open spec fn date_request(text: Seq<char>) -> Result<DateRequest, DateFromStrError> {
    if begins_with_today(text) {
        relative_request(text.subrange(5, text.len() as int))
    } else {
        absolute_request(text)
    }
}

/// Finds the first hyphen at or behind `from`.
fn find_hyphen(chars: &Vec<char>, from: usize) -> (at: usize)
    requires
        from <= chars@.len(),
    ensures
        at == next_hyphen(chars@, from as int),
        from <= at <= chars@.len(),
{
    let mut i = from;
    while i < chars.len()
        invariant
            from <= i <= chars@.len(),
            next_hyphen(chars@, from as int) == next_hyphen(chars@, i as int),
        decreases chars@.len() - i,
    {
        if chars[i] == '-' {
            return i;
        }
        i += 1;
    }
    i
}

/// Reads a text of the form `YYYY-MM-DD`.
fn parse_absolute(chars: &Vec<char>) -> (r: Result<DateRequest, DateFromStrError>)
    ensures
        r == absolute_request(chars@),
{
    let n = chars.len();
    let first = find_hyphen(chars, 0);
    if first >= n {
        return Err(DateFromStrError::InvalidLength);
    }
    let second = find_hyphen(chars, first + 1);
    if second >= n {
        return Err(DateFromStrError::InvalidLength);
    }
    if find_hyphen(chars, second + 1) < n {
        return Err(DateFromStrError::InvalidLength);
    }
    let year = parse_number(chars, 0, first, i32::MAX as u128);
    let month = parse_number(chars, first + 1, second, u8::MAX as u128);
    let day = parse_number(chars, second + 1, n, u8::MAX as u128);
    match (year, month, day) {
        (Some(year), Some(month), Some(day)) => {
            if naive_date(year as i32, month as u32, day as u32).is_some() {
                Ok(DateRequest::Absolute(Date { year: year as i32, month: month as u8, day: day as u8 }))
            } else {
                Err(DateFromStrError::InvalidDate)
            }
        },
        _ => Err(DateFromStrError::IsNotNumeric),
    }
}

/// Reads what the text behind the word `today` asks for, out of that text
/// without the white space at its ends, `rest`, and of what stands behind
/// the first character of `rest`, again without the white space at its
/// ends, `number`.
pub fn parse_relative(rest: &str, number: &str) -> (r: Result<DateRequest, DateFromStrError>)
    ensures
        r == relative_of(rest@, number@),
{
    let chars = chars_of(rest);
    if chars.len() == 0 {
        return Ok(DateRequest::Today);
    }
    if chars[0] != '-' {
        return Err(DateFromStrError::InvalidTodayMinusFormat);
    }
    let digits = chars_of(number);
    assert(digits@.subrange(0, digits@.len() as int) =~= digits@);
    match parse_number(&digits, 0, digits.len(), u128::MAX) {
        None => Err(DateFromStrError::InvalidTodayMinusFormat),
        Some(days) => {
            if days > i64::MAX as u128 {
                Err(DateFromStrError::InvalidDate)
            } else {
                Ok(DateRequest::DaysAgo(days as i64))
            }
        },
    }
}

/// What stands behind the first character of a text.
fn text_behind_first<'a>(rest: &'a str) -> (tail: &'a str)
    ensures
        tail@ == behind_first(rest@),
{
    let n = rest.unicode_len();
    if n == 0 {
        rest
    } else {
        rest.substring_char(1, n)
    }
}

/// Reads what a text, trimmed and in lower case, asks for.
pub fn parse_request(text: &str) -> (r: Result<DateRequest, DateFromStrError>)
    ensures
        r == date_request(text@),
{
    let chars = chars_of(text);
    let n = chars.len();
    if n >= 5 && chars[0] == 't' && chars[1] == 'o' && chars[2] == 'd' && chars[3] == 'a'
        && chars[4] == 'y' {
        let rest = trim_text(text.substring_char(5, n));
        parse_relative(rest, trim_text(text_behind_first(rest)))
    } else {
        parse_absolute(&chars)
    }
}

/// The text of a date: year, month and day with hyphens between them, the
/// year with a minus sign where it is negative, month and day in two
/// places at least.
pub open spec fn date_text(date: Date) -> Seq<char> {
    let year = if date.year < 0 {
        seq!['-'] + decimal_text((-date.year) as nat)
    } else {
        decimal_text(date.year as nat)
    };
    year + seq!['-'] + padded_text(date.month as nat) + seq!['-'] + padded_text(date.day as nat)
}

impl Date {
    /// The date that the clock's answer names, if it gave one: its year,
    /// month and day.
    pub fn from_clock(answer: Option<(i32, u32, u32)>) -> (r: Option<Date>)
        requires
            answer matches Some(ymd) ==> ymd.1 <= u8::MAX && ymd.2 <= u8::MAX,
        ensures
            r == (match answer {
                Some(ymd) => Some(Date { year: ymd.0, month: ymd.1 as u8, day: ymd.2 as u8 }),
                None => None,
            }),
    {
        match answer {
            Some((year, month, day)) => Some(Date { year, month: month as u8, day: day as u8 }),
            None => None,
        }
    }

    /// The day that lies `days` days before today by the local clock. None
    /// comes back where so many days are no span of time. A day comes back
    /// for up to `DAYS_IN_REACH` days back; beyond that, one comes back if
    /// the calendar reaches that far back from what the clock says. A day
    /// that comes back is a day of its year.
    pub fn days_ago(days: i64) -> (r: Option<Date>)
        ensures
            !is_span_of_days(days as int) ==> r is None,
            0 <= days <= DAYS_IN_REACH ==> r is Some,
            r matches Some(date) ==> date.names_a_day(),
    {
        Date::from_clock(local_days_ago(days))
    }

    /// The day that a request asks for, given what the clock answered to a
    /// request that needs it: a day of the calendar names itself; any other
    /// request names the clock's day, and fails with `InvalidDate` where
    /// the clock has none.
    pub fn resolve(request: DateRequest, clock: Option<Date>) -> (r: Result<
        Date,
        DateFromStrError,
    >)
        ensures
            r == (match request {
                DateRequest::Absolute(date) => Ok::<Date, DateFromStrError>(date),
                _ => match clock {
                    Some(date) => Ok(date),
                    None => Err(DateFromStrError::InvalidDate),
                },
            }),
    {
        match request {
            DateRequest::Absolute(date) => Ok(date),
            _ => match clock {
                Some(date) => Ok(date),
                None => Err(DateFromStrError::InvalidDate),
            },
        }
    }

    /// Reads a date from text of the form `YYYY-MM-DD`, `today` or
    /// `today-N`, in any case and with white space around it at will. A
    /// date that is read from `YYYY-MM-DD` is a day of the calendar; a
    /// date that the clock gives is a day of its year. `today-N` gives a
    /// date for N up to `DAYS_IN_REACH`, and `InvalidDate` where N days are
    /// no span of time or lie beyond the calendar.
    pub fn from_str(s: &str) -> (r: Result<Date, DateFromStrError>)
        ensures
            match date_request(lowercased(trimmed(s@))) {
                Err(e) => r == Err::<Date, DateFromStrError>(e),
                Ok(DateRequest::Absolute(date)) => r == Ok::<Date, DateFromStrError>(date),
                Ok(DateRequest::Today) => r is Ok,
                Ok(DateRequest::DaysAgo(days)) => {
                    &&& 0 <= days <= DAYS_IN_REACH ==> r is Ok
                    &&& !is_span_of_days(days as int) ==> r is Err
                    &&& r is Err ==> r->Err_0 == DateFromStrError::InvalidDate
                },
            },
            r matches Ok(date) ==> date.names_a_day(),
    {
        let text = lowercase_text(trim_text(s));
        match parse_request(text.as_str()) {
            Err(e) => Err(e),
            Ok(request) => {
                let clock = match request {
                    DateRequest::Absolute(_) => None,
                    DateRequest::Today => Some(Date::today()),
                    DateRequest::DaysAgo(days) => Date::days_ago(days),
                };
                Date::resolve(request, clock)
            },
        }
    }

    /// The date as text.
    pub fn to_string(&self) -> (text: String)
        ensures
            text@ == date_text(*self),
    {
        let mut text = String::new();
        proof {
            reveal_strlit("-");
        }
        if self.year < 0 {
            text.append("-");
            append_decimal(&mut text, (-(self.year as i64)) as u64);
        } else {
            append_decimal(&mut text, self.year as u64);
        }
        text.append("-");
        append_padded(&mut text, self.month as u64);
        text.append("-");
        append_padded(&mut text, self.day as u64);
        assert(text@ =~= date_text(*self));
        text
    }
}

/// Where no hyphen stands from `from` up to `to`, the first hyphen at or
/// behind `from` is the first at or behind `to`.
proof fn lemma_no_hyphen_between(text: Seq<char>, from: int, to: int)
    requires
        0 <= from <= to <= text.len(),
        forall|k: int| from <= k < to ==> text[k] != '-',
    ensures
        next_hyphen(text, from) == next_hyphen(text, to),
    decreases to - from,
{
    if from < to {
        lemma_no_hyphen_between(text, from + 1, to);
    }
}

/// The text of a day of the calendar in a year that is not negative reads
/// back as that day.
pub proof fn lemma_date_text_reads_back(date: Date)
    requires
        date.is_valid(),
        date.year >= 0,
    ensures
        date_request(date_text(date)) == Ok::<DateRequest, DateFromStrError>(
            DateRequest::Absolute(date),
        ),
{
    let year = decimal_text(date.year as nat);
    let month = padded_text(date.month as nat);
    let day = padded_text(date.day as nat);
    let text = date_text(date);
    lemma_decimal_text(date.year as nat);
    lemma_padded_text(date.month as nat);
    lemma_padded_text(date.day as nat);
    let first = year.len() as int;
    let second = first + 1 + month.len();
    let end = text.len() as int;
    assert(text =~= year + seq!['-'] + month + seq!['-'] + day);
    assert(end == second + 1 + day.len());
    assert forall|k: int| 0 <= k < first implies text[k] != '-' by {
        assert(text[k] == year[k]);
        assert(is_digit(year[k]));
    }
    assert forall|k: int| first + 1 <= k < second implies text[k] != '-' by {
        assert(text[k] == month[k - first - 1]);
        assert(is_digit(month[k - first - 1]));
    }
    assert forall|k: int| second + 1 <= k < end implies text[k] != '-' by {
        assert(text[k] == day[k - second - 1]);
        assert(is_digit(day[k - second - 1]));
    }
    assert(text[first] == '-');
    assert(text[second] == '-');
    lemma_no_hyphen_between(text, 0, first);
    lemma_no_hyphen_between(text, first + 1, second);
    lemma_no_hyphen_between(text, second + 1, end);
    assert(next_hyphen(text, 0) == first);
    assert(next_hyphen(text, first + 1) == second);
    assert(next_hyphen(text, second + 1) == end);
    assert(text.subrange(0, first) =~= year);
    assert(text.subrange(first + 1, second) =~= month);
    assert(text.subrange(second + 1, end) =~= day);
    lemma_number_in_digits(year, i32::MAX as nat);
    lemma_number_in_digits(month, u8::MAX as nat);
    lemma_number_in_digits(day, u8::MAX as nat);
    assert(!begins_with_today(text)) by {
        assert(text[0] == year[0]);
        assert(is_digit(year[0]));
    }
}

} // verus!
