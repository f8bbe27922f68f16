//! Calendar dates of the proleptic Gregorian calendar.

use chrono::{Datelike, NaiveDate, TimeDelta};
use crate::text::decimal;
use vstd::prelude::*;

verus! {

/// The earliest year a `Date` can lie in.
pub const MIN_YEAR: i32 = -262143;

/// The latest year a `Date` can lie in.
pub const MAX_YEAR: i32 = 262142;

/// No two dates lie this many days apart.
pub const MAX_SHIFT: i64 = 200_000_000;

/// Whether `year` has a 29th of February.
pub open spec fn is_leap_year(year: int) -> bool {
    year % 4 == 0 && (year % 100 != 0 || year % 400 == 0)
}

/// The number of days of the month `month` (1 to 12) of `year`.
pub open spec fn days_in_month(year: int, month: int) -> int {
    if month == 2 {
        if is_leap_year(year) {
            29
        } else {
            28
        }
    } else if month == 4 || month == 6 || month == 9 || month == 11 {
        30
    } else {
        31
    }
}

/// The number of days of `year` that lie before the first day of `month`.
pub open spec fn days_before_month(year: int, month: int) -> int {
    let leap: int = if month > 2 && is_leap_year(year) {
        1
    } else {
        0
    };
    leap + if month <= 1 {
        0int
    } else if month == 2 {
        31
    } else if month == 3 {
        59
    } else if month == 4 {
        90
    } else if month == 5 {
        120
    } else if month == 6 {
        151
    } else if month == 7 {
        181
    } else if month == 8 {
        212
    } else if month == 9 {
        243
    } else if month == 10 {
        273
    } else if month == 11 {
        304
    } else {
        334
    }
}

/// The number of days from the first of January of year 1 up to, and not
/// including, the first of January of `year`.
pub open spec fn days_before_year(year: int) -> int {
    let y = year - 1;
    365 * y + y / 4 - y / 100 + y / 400
}

/// A calendar date without a time of day.
#[derive(Debug, Clone, Copy, PartialEq, Eq, Structural)]
pub struct Date {
    pub year: i32,
    pub month: u32,
    pub day: u32,
}

impl Date {
    /// The date exists in the calendar and its year lies in
    /// `MIN_YEAR..=MAX_YEAR`.
    pub open spec fn wf(self) -> bool {
        &&& MIN_YEAR <= self.year <= MAX_YEAR
        &&& 1 <= self.month <= 12
        &&& 1 <= self.day <= days_in_month(self.year as int, self.month as int)
    }

    /// The day's number, counted so that the first of January of year 1 is
    /// day 1.
    pub open spec fn day_number(self) -> int {
        days_before_year(self.year as int) + days_before_month(
            self.year as int,
            self.month as int,
        ) + self.day
    }

    /// The day of the week, counted from Monday as 0 to Sunday as 6.
    pub open spec fn weekday(self) -> int {
        (self.day_number() - 1) % 7
    }

    /// The first date there is.
    pub open spec fn first() -> Date {
        Date { year: MIN_YEAR, month: 1, day: 1 }
    }

    /// The last date there is.
    pub open spec fn last() -> Date {
        Date { year: MAX_YEAR, month: 12, day: 31 }
    }

    /// Whether some date has the day number `n`.
    pub open spec fn in_range(n: int) -> bool {
        Date::first().day_number() <= n <= Date::last().day_number()
    }

    /// The date with the day number `n`.
    pub open spec fn on_day(n: int) -> Date {
        choose|d: Date| d.wf() && d.day_number() == n
    }

    /// The date `days` days after `self`, or before it where `days` is
    /// negative; none where the calendar ends before.
    pub open spec fn shifted(self, days: int) -> Option<Date> {
        if Date::in_range(self.day_number() + days) {
            Some(Date::on_day(self.day_number() + days))
        } else {
            None
        }
    }

    /// The date with this year, month and day, where the calendar has it.
    pub fn new(year: i32, month: u32, day: u32) -> (r: Option<Date>)
        ensures
            r == if (Date { year, month, day }).wf() {
                Some(Date { year, month, day })
            } else {
                None::<Date>
            },
    {
        checked_date(year, month, day)
    }

    /// The date `days` days after this one, or before it where `days` is
    /// negative.
    pub fn plus_days(self, days: i64) -> (r: Option<Date>)
        requires
            self.wf(),
        ensures
            r == self.shifted(days as int),
            r matches Some(d) ==> d.wf() && d.day_number() == self.day_number() + days,
    {
        proof {
            lemma_on_day_finds(self);
        }
        if days < -MAX_SHIFT || days > MAX_SHIFT {
            return None;
        }
        let r = add_days(self, days);
        proof {
            if let Some(d) = r {
                lemma_day_number_names_one_date(Date::on_day(self.day_number() + days), d);
            }
        }
        r
    }

    /// The day of the week, counted from Monday as 0 to Sunday as 6.
    pub fn day_of_week(self) -> (r: u32)
        requires
            self.wf(),
        ensures
            r == self.weekday(),
            r <= 6,
    {
        weekday_of(self)
    }

    /// How many days this date lies after `other`; negative where it lies
    /// before.
    pub fn days_since(self, other: Date) -> (r: i64)
        requires
            self.wf(),
            other.wf(),
        ensures
            r == self.day_number() - other.day_number(),
    {
        days_between(self, other)
    }

    /// The date as text, in the form in which it is stored.
    pub fn to_text(self) -> (r: String)
        requires
            self.wf(),
        ensures
            r@ == iso_text(self),
            parsed_date(r@, "%Y-%m-%d"@) == Some(self),
    {
        format_date(self)
    }

    /// The date that `text` spells as year, month and day with `-`
    /// between them.
    pub fn from_text(text: &str) -> (r: Option<Date>)
        ensures
            r == parsed_date(text@, "%Y-%m-%d"@),
            r matches Some(d) ==> d.wf(),
    {
        parse_date(text, "%Y-%m-%d")
    }

    /// Whether `self` comes before `other`, by year, then month, then day.
    pub open spec fn precedes(self, other: Date) -> bool {
        self.year < other.year || (self.year == other.year && (self.month < other.month || (
        self.month == other.month && self.day < other.day)))
    }

    /// Decides `precedes`.
    pub fn is_before(&self, other: &Date) -> (b: bool)
        ensures
            b == self.precedes(*other),
    {
        self.year < other.year || (self.year == other.year && (self.month < other.month || (
        self.month == other.month && self.day < other.day)))
    }
}

/// `NaiveDate::from_ymd_opt` of chrono: the date of the proleptic
/// Gregorian calendar with this year, month and day, and none where the
/// month has no such day or the year lies outside chrono's range.
#[verifier::external_body]
fn checked_date(year: i32, month: u32, day: u32) -> (r: Option<Date>)
    ensures
        r == if (Date { year, month, day }).wf() {
            Some(Date { year, month, day })
        } else {
            None::<Date>
        },
{
    match NaiveDate::from_ymd_opt(year, month, day) {
        Some(d) => Some(Date { year: d.year(), month: d.month(), day: d.day() }),
        None => None,
    }
}

/// `NaiveDate::checked_add_signed` of chrono, with `TimeDelta::days`: the
/// date that many days later, and none where that day lies outside
/// chrono's range. `TimeDelta::days` does not take every `i64`; it takes
/// the numbers admitted here.
#[verifier::external_body]
fn add_days(date: Date, days: i64) -> (r: Option<Date>)
    requires
        date.wf(),
        -MAX_SHIFT <= days <= MAX_SHIFT,
    ensures
        match r {
            Some(d) => d.wf() && d.day_number() == date.day_number() + days,
            None => !Date::in_range(date.day_number() + days),
        },
{
    let from = NaiveDate::from_ymd_opt(date.year, date.month, date.day).unwrap();
    match from.checked_add_signed(TimeDelta::days(days)) {
        Some(d) => Some(Date { year: d.year(), month: d.month(), day: d.day() }),
        None => None,
    }
}

/// `NaiveDate::pred_opt` of chrono: the day before, and none before the
/// first date there is.
#[verifier::external_body]
fn previous_day(date: Date) -> (r: Option<Date>)
    requires
        date.wf(),
    ensures
        match r {
            Some(d) => d.wf() && d.day_number() == date.day_number() - 1,
            None => date == Date::first(),
        },
{
    let from = NaiveDate::from_ymd_opt(date.year, date.month, date.day).unwrap();
    match from.pred_opt() {
        Some(d) => Some(Date { year: d.year(), month: d.month(), day: d.day() }),
        None => None,
    }
}

/// `Datelike::weekday` of chrono, as `Weekday::num_days_from_monday`
/// numbers it: 0 for a Monday up to 6 for a Sunday.
#[verifier::external_body]
fn weekday_of(date: Date) -> (r: u32)
    requires
        date.wf(),
    ensures
        r == date.weekday(),
{
    let d = NaiveDate::from_ymd_opt(date.year, date.month, date.day).unwrap();
    d.weekday().num_days_from_monday()
}

/// `NaiveDate::signed_duration_since` of chrono, in whole days: how many
/// days `a` lies after `b`.
#[verifier::external_body]
fn days_between(a: Date, b: Date) -> (r: i64)
    requires
        a.wf(),
        b.wf(),
    ensures
        r == a.day_number() - b.day_number(),
{
    let later = NaiveDate::from_ymd_opt(a.year, a.month, a.day).unwrap();
    let earlier = NaiveDate::from_ymd_opt(b.year, b.month, b.day).unwrap();
    later.signed_duration_since(earlier).num_days()
}

/// What `NaiveDate::parse_from_str` of chrono reads from `text` under the
/// format `format`; none where it reports an error.
pub uninterp spec fn parsed_date(text: Seq<char>, format: Seq<char>) -> Option<Date>;

/// `NaiveDate::parse_from_str` of chrono. A date that it reads exists in
/// the calendar.
#[verifier::external_body]
fn parse_date(text: &str, format: &str) -> (r: Option<Date>)
    ensures
        r == parsed_date(text@, format@),
        r matches Some(d) ==> d.wf(),
{
    match NaiveDate::parse_from_str(text, format) {
        Ok(d) => Some(Date { year: d.year(), month: d.month(), day: d.day() }),
        Err(_) => None,
    }
}

/// `n` in decimal digits, with zeros before them where there are fewer
/// than `width`.
pub open spec fn zero_padded(n: nat, width: nat) -> Seq<char> {
    let digits = decimal(n);
    if digits.len() >= width {
        digits
    } else {
        Seq::new((width - digits.len()) as nat, |i: int| '0') + digits
    }
}

/// The year as a date's text writes it: in four digits from 0 to 9999,
/// else after its sign in four digits or more.
pub open spec fn year_text(year: int) -> Seq<char> {
    if 0 <= year <= 9999 {
        zero_padded(year as nat, 4)
    } else if year < 0 {
        seq!['-'] + zero_padded((-year) as nat, 4)
    } else {
        seq!['+'] + zero_padded(year as nat, 4)
    }
}

/// The date as text: year, month and day with `-` between them, month and
/// day in two digits each.
pub open spec fn iso_text(date: Date) -> Seq<char> {
    year_text(date.year as int) + seq!['-'] + zero_padded(date.month as nat, 2) + seq!['-']
        + zero_padded(date.day as nat, 2)
}

/// `NaiveDate::format` of chrono with the format `%Y-%m-%d`, written out.
/// `NaiveDate::parse_from_str` reads the date back from that text under
/// the same format.
#[verifier::external_body]
fn format_date(date: Date) -> (r: String)
    requires
        date.wf(),
    ensures
        r@ == iso_text(date),
        parsed_date(r@, "%Y-%m-%d"@) == Some(date),
{
    let d = NaiveDate::from_ymd_opt(date.year, date.month, date.day).unwrap();
    d.format("%Y-%m-%d").to_string()
}

/// The number of days of the month `month` of `year`.
pub fn month_length(year: i32, month: u32) -> (r: u32)
    requires
        MIN_YEAR <= year <= MAX_YEAR,
        1 <= month <= 12,
    ensures
        r == days_in_month(year as int, month as int),
{
    let next = match checked_date(year, month + 1, 1) {
        Some(d) => Some(d),
        None => checked_date(year + 1, 1, 1),
    };
    match next {
        Some(first) => match previous_day(first) {
            Some(last) => {
                proof {
                    let end = Date {
                        year,
                        month,
                        day: days_in_month(year as int, month as int) as u32,
                    };
                    lemma_month_ends(year as int, month as int);
                    assert(end.day_number() == first.day_number() - 1);
                    lemma_day_number_names_one_date(last, end);
                }
                last.day
            },
            None => 31,
        },
        None => 31,
    }
}

/// The first date that `text` spells in one of the exact forms: year,
/// month and day with `-` between them; day, month and year with `/`;
/// month, day and year with `-`.
pub fn exact_date(text: &str) -> (r: Option<Date>)
    ensures
        r == first_of(
            parsed_date(text@, "%Y-%m-%d"@),
            parsed_date(text@, "%d/%m/%Y"@),
            parsed_date(text@, "%m-%d-%Y"@),
        ),
        r matches Some(d) ==> d.wf(),
{
    let iso = parse_date(text, "%Y-%m-%d");
    let dmy = parse_date(text, "%d/%m/%Y");
    let mdy = parse_date(text, "%m-%d-%Y");
    first_found(iso, dmy, mdy)
}

/// The first of the three that is there.
pub open spec fn first_of(a: Option<Date>, b: Option<Date>, c: Option<Date>) -> Option<Date> {
    if a is Some {
        a
    } else if b is Some {
        b
    } else {
        c
    }
}

/// Computes `first_of`.
pub fn first_found(a: Option<Date>, b: Option<Date>, c: Option<Date>) -> (r: Option<Date>)
    ensures
        r == first_of(a, b, c),
{
    if a.is_some() {
        a
    } else if b.is_some() {
        b
    } else {
        c
    }
}

/// The year after `year` begins when `year` has run its 365 or 366 days.
pub proof fn lemma_year_ends(year: int)
    ensures
        days_before_year(year + 1) == days_before_year(year) + 365 + (if is_leap_year(year) {
            1int
        } else {
            0int
        }),
{
}

/// The day after the last day of a month is the first day of the next
/// month, in December that of the next year.
pub proof fn lemma_month_ends(year: int, month: int)
    requires
        1 <= month <= 12,
    ensures
        month < 12 ==> days_before_month(year, month) + days_in_month(year, month)
            == days_before_month(year, month + 1),
        month == 12 ==> days_before_year(year) + days_before_month(year, month) + days_in_month(
            year,
            month,
        ) == days_before_year(year + 1),
{
    lemma_year_ends(year);
}

/// A later year begins on a later day.
pub proof fn lemma_years_ascend(a: int, b: int)
    requires
        a < b,
    ensures
        days_before_year(a) + 365 + (if is_leap_year(a) {
            1int
        } else {
            0int
        }) <= days_before_year(b),
{
}

/// An earlier date has a smaller day number.
pub proof fn lemma_day_numbers_ascend(a: Date, b: Date)
    requires
        a.wf(),
        b.wf(),
        a.precedes(b),
    ensures
        a.day_number() < b.day_number(),
{
    if a.year < b.year {
        lemma_years_ascend(a.year as int, b.year as int);
    }
}

/// Two dates with one day number are one date.
pub proof fn lemma_day_number_names_one_date(a: Date, b: Date)
    requires
        a.wf(),
        b.wf(),
        a.day_number() == b.day_number(),
    ensures
        a == b,
{
    if a.precedes(b) {
        lemma_day_numbers_ascend(a, b);
    } else if b.precedes(a) {
        lemma_day_numbers_ascend(b, a);
    }
}

/// Every date's day number lies in the range of the calendar, and
/// `on_day` finds the date again from it.
pub proof fn lemma_on_day_finds(d: Date)
    requires
        d.wf(),
    ensures
        Date::in_range(d.day_number()),
        Date::on_day(d.day_number()) == d,
        d.shifted(0) == Some(d),
{
    if Date::first().precedes(d) {
        lemma_day_numbers_ascend(Date::first(), d);
    }
    if d.precedes(Date::last()) {
        lemma_day_numbers_ascend(d, Date::last());
    }
    lemma_day_number_names_one_date(Date::on_day(d.day_number()), d);
}

} // verus!
