//! Deadlines: the date by which a task is due, and the expressions that
//! name one.

use crate::calendar::{
    days_in_month, exact_date, first_of, iso_text, month_length, parsed_date, Date,
};
use crate::paint::{is_styled, paint, Style, Tint};
use crate::error::ValidationError;
use crate::text::{
    ascii_normal_form, chars_of, decimal, digit_value, is_ascii_text, is_word,
    lemma_decimal_digits, normal_form, normalize, parse_i64, parsed_i64, push_decimal,
    remove_all, slice_of, strip_suffix, suffix_start, trim, trimmed, without,
};
use vstd::prelude::*;

verus! {

/// The number of days that a keyword stands for: `today`, `tomorrow` and
/// the fixed spans of a week, two weeks, a month and three months.
pub open spec fn fixed_shift(text: Seq<char>) -> Option<int> {
    if text == "today"@ {
        Some(0)
    } else if text == "tomorrow"@ || text == "tmr"@ {
        Some(1)
    } else if text == "week"@ || text == "1week"@ || text == "1w"@ {
        Some(7)
    } else if text == "2weeks"@ || text == "2w"@ {
        Some(14)
    } else if text == "month"@ || text == "1month"@ || text == "1m"@ {
        Some(30)
    } else if text == "3months"@ || text == "3m"@ {
        Some(90)
    } else {
        None
    }
}

/// The day of the week that `text` names in full or by its first three
/// letters, counted from Monday as 0.
pub open spec fn weekday_named(text: Seq<char>) -> Option<int> {
    if text == "monday"@ || text == "mon"@ {
        Some(0)
    } else if text == "tuesday"@ || text == "tue"@ {
        Some(1)
    } else if text == "wednesday"@ || text == "wed"@ {
        Some(2)
    } else if text == "thursday"@ || text == "thu"@ {
        Some(3)
    } else if text == "friday"@ || text == "fri"@ {
        Some(4)
    } else if text == "saturday"@ || text == "sat"@ {
        Some(5)
    } else if text == "sunday"@ || text == "sun"@ {
        Some(6)
    } else {
        None
    }
}

/// How many days after a day of the week `from` the next day of the week
/// `target` comes: 1 to 7, never 0.
pub open spec fn days_ahead(from: int, target: int) -> int {
    let ahead = (target - from + 7) % 7;
    if ahead == 0 {
        7
    } else {
        ahead
    }
}

/// The number before a unit: `cleaned` without `short` at its end, else
/// without `long`.
pub open spec fn amount(cleaned: Seq<char>, short: Seq<char>, long: Seq<char>) -> Option<
    Seq<char>,
> {
    match strip_suffix(cleaned, short) {
        Some(number) => Some(number),
        None => strip_suffix(cleaned, long),
    }
}

/// The integer that `number` writes, white space aside, times `unit`;
/// none where `number` writes no integer or an `i64` cannot hold the
/// product.
pub open spec fn scaled(number: Seq<char>, unit: int) -> Option<i64> {
    match parsed_i64(trimmed(number)) {
        Some(n) => if i64::MIN <= n * unit <= i64::MAX {
            Some((n * unit) as i64)
        } else {
            None
        },
        None => None,
    }
}

/// The number of days that a relative expression stands for. Every
/// `in ` and every `+` is dropped from it and the white space at its ends;
/// what is left is an integer before `d` or `days`, `w` or `weeks` (7 days
/// each), `m` or `months` (30 days each).
pub open spec fn relative_duration(input: Seq<char>) -> Option<i64> {
    let cleaned = trimmed(without(without(input, "in "@), "+"@));
    if amount(cleaned, "d"@, "days"@) is Some {
        scaled(amount(cleaned, "d"@, "days"@)->0, 1)
    } else if amount(cleaned, "w"@, "weeks"@) is Some {
        scaled(amount(cleaned, "w"@, "weeks"@)->0, 7)
    } else if amount(cleaned, "m"@, "months"@) is Some {
        scaled(amount(cleaned, "m"@, "months"@)->0, 30)
    } else {
        None
    }
}

/// The date that a keyword or a relative expression names on the day
/// `today`. The outer `None` says that `text` is neither; the inner one
/// that the date named lies outside the calendar.
pub open spec fn named_date(text: Seq<char>, today: Date) -> Option<Option<Date>> {
    if fixed_shift(text) is Some {
        Some(today.shifted(fixed_shift(text)->0))
    } else if weekday_named(text) is Some {
        Some(today.shifted(days_ahead(today.weekday(), weekday_named(text)->0)))
    } else if text == "eow"@ || text == "endofweek"@ {
        Some(today.shifted(6 - today.weekday()))
    } else if text == "eom"@ || text == "endofmonth"@ {
        Some(
            Some(
                Date {
                    year: today.year,
                    month: today.month,
                    day: days_in_month(today.year as int, today.month as int) as u32,
                },
            ),
        )
    } else if text == "eoy"@ || text == "endofyear"@ {
        Some(Some(Date { year: today.year, month: 12, day: 31 }))
    } else if relative_duration(text) is Some {
        Some(today.shifted(relative_duration(text)->0 as int))
    } else {
        None
    }
}

/// The date that the expression `input` names on the day `today`: what
/// `named_date` finds in its normal form, else the first exact date that
/// the normal form spells.
pub open spec fn deadline_date(input: Seq<char>, today: Date) -> Option<Date> {
    let text = normal_form(input);
    match named_date(text, today) {
        Some(date) => date,
        None => first_of(
            parsed_date(text, "%Y-%m-%d"@),
            parsed_date(text, "%d/%m/%Y"@),
            parsed_date(text, "%m-%d-%Y"@),
        ),
    }
}

/// What tells the keywords apart: the length of a word, its first two
/// characters and its last.
pub open spec fn mark(word: Seq<char>) -> (nat, char, char, char) {
    (word.len(), word[0], word[1], word.last())
}

/// The marks of the keywords; no two are the same.
pub proof fn lemma_keyword_marks()
    ensures
        mark("today"@) == (5nat, 't', 'o', 'y'),
        mark("tomorrow"@) == (8nat, 't', 'o', 'w'),
        mark("tmr"@) == (3nat, 't', 'm', 'r'),
        mark("week"@) == (4nat, 'w', 'e', 'k'),
        mark("1week"@) == (5nat, '1', 'w', 'k'),
        mark("1w"@) == (2nat, '1', 'w', 'w'),
        mark("2weeks"@) == (6nat, '2', 'w', 's'),
        mark("2w"@) == (2nat, '2', 'w', 'w'),
        mark("month"@) == (5nat, 'm', 'o', 'h'),
        mark("1month"@) == (6nat, '1', 'm', 'h'),
        mark("1m"@) == (2nat, '1', 'm', 'm'),
        mark("3months"@) == (7nat, '3', 'm', 's'),
        mark("3m"@) == (2nat, '3', 'm', 'm'),
        mark("monday"@) == (6nat, 'm', 'o', 'y'),
        mark("mon"@) == (3nat, 'm', 'o', 'n'),
        mark("tuesday"@) == (7nat, 't', 'u', 'y'),
        mark("tue"@) == (3nat, 't', 'u', 'e'),
        mark("wednesday"@) == (9nat, 'w', 'e', 'y'),
        mark("wed"@) == (3nat, 'w', 'e', 'd'),
        mark("thursday"@) == (8nat, 't', 'h', 'y'),
        mark("thu"@) == (3nat, 't', 'h', 'u'),
        mark("friday"@) == (6nat, 'f', 'r', 'y'),
        mark("fri"@) == (3nat, 'f', 'r', 'i'),
        mark("saturday"@) == (8nat, 's', 'a', 'y'),
        mark("sat"@) == (3nat, 's', 'a', 't'),
        mark("sunday"@) == (6nat, 's', 'u', 'y'),
        mark("sun"@) == (3nat, 's', 'u', 'n'),
        mark("eow"@) == (3nat, 'e', 'o', 'w'),
        mark("endofweek"@) == (9nat, 'e', 'n', 'k'),
        mark("eom"@) == (3nat, 'e', 'o', 'm'),
        mark("endofmonth"@) == (10nat, 'e', 'n', 'h'),
        mark("eoy"@) == (3nat, 'e', 'o', 'y'),
        mark("endofyear"@) == (9nat, 'e', 'n', 'r'),
{
    reveal_strlit("today");
    reveal_strlit("tomorrow");
    reveal_strlit("tmr");
    reveal_strlit("week");
    reveal_strlit("1week");
    reveal_strlit("1w");
    reveal_strlit("2weeks");
    reveal_strlit("2w");
    reveal_strlit("month");
    reveal_strlit("1month");
    reveal_strlit("1m");
    reveal_strlit("3months");
    reveal_strlit("3m");
    reveal_strlit("monday");
    reveal_strlit("mon");
    reveal_strlit("tuesday");
    reveal_strlit("tue");
    reveal_strlit("wednesday");
    reveal_strlit("wed");
    reveal_strlit("thursday");
    reveal_strlit("thu");
    reveal_strlit("friday");
    reveal_strlit("fri");
    reveal_strlit("saturday");
    reveal_strlit("sat");
    reveal_strlit("sunday");
    reveal_strlit("sun");
    reveal_strlit("eow");
    reveal_strlit("endofweek");
    reveal_strlit("eom");
    reveal_strlit("endofmonth");
    reveal_strlit("eoy");
    reveal_strlit("endofyear");
}

/// The name of a day of the week is none of the keywords for a span.
pub proof fn lemma_weekday_is_no_span(text: Seq<char>)
    requires
        weekday_named(text) is Some,
    ensures
        fixed_shift(text) is None,
{
    lemma_keyword_marks();
}

/// The keywords for the end of a period are no other keywords.
pub proof fn lemma_period_end_is_no_other(text: Seq<char>)
    requires
        text == "eow"@ || text == "endofweek"@ || text == "eom"@ || text == "endofmonth"@ || text
            == "eoy"@ || text == "endofyear"@,
    ensures
        fixed_shift(text) is None,
        weekday_named(text) is None,
        text == "eom"@ || text == "endofmonth"@ ==> text != "eow"@ && text != "endofweek"@,
        text == "eoy"@ || text == "endofyear"@ ==> text != "eow"@ && text != "endofweek"@ && text
            != "eom"@ && text != "endofmonth"@,
{
    lemma_keyword_marks();
}

/// Whatever the day, the keywords for the end of the year name the 31st
/// of December of its year, and those for the end of the month the last
/// day of its month.
pub proof fn lemma_period_ends(text: Seq<char>, today: Date)
    ensures
        text == "eoy"@ || text == "endofyear"@ ==> named_date(text, today) == Some(
            Some(Date { year: today.year, month: 12, day: 31 }),
        ),
        text == "eom"@ || text == "endofmonth"@ ==> named_date(text, today) == Some(
            Some(
                Date {
                    year: today.year,
                    month: today.month,
                    day: days_in_month(today.year as int, today.month as int) as u32,
                },
            ),
        ),
{
    if text == "eow"@ || text == "endofweek"@ || text == "eom"@ || text == "endofmonth"@ || text
        == "eoy"@ || text == "endofyear"@ {
        lemma_period_end_is_no_other(text);
    }
}

/// Computes `fixed_shift`.
fn fixed_shift_of(text: &Vec<char>) -> (r: Option<i64>)
    ensures
        match r {
            Some(days) => fixed_shift(text@) == Some(days as int),
            None => fixed_shift(text@) is None,
        },
{
    if is_word(text, "today") {
        Some(0)
    } else if is_word(text, "tomorrow") || is_word(text, "tmr") {
        Some(1)
    } else if is_word(text, "week") || is_word(text, "1week") || is_word(text, "1w") {
        Some(7)
    } else if is_word(text, "2weeks") || is_word(text, "2w") {
        Some(14)
    } else if is_word(text, "month") || is_word(text, "1month") || is_word(text, "1m") {
        Some(30)
    } else if is_word(text, "3months") || is_word(text, "3m") {
        Some(90)
    } else {
        None
    }
}

/// Computes `weekday_named`.
fn weekday_of_name(text: &Vec<char>) -> (r: Option<u32>)
    ensures
        match r {
            Some(day) => weekday_named(text@) == Some(day as int) && day <= 6,
            None => weekday_named(text@) is None,
        },
{
    if is_word(text, "monday") || is_word(text, "mon") {
        Some(0)
    } else if is_word(text, "tuesday") || is_word(text, "tue") {
        Some(1)
    } else if is_word(text, "wednesday") || is_word(text, "wed") {
        Some(2)
    } else if is_word(text, "thursday") || is_word(text, "thu") {
        Some(3)
    } else if is_word(text, "friday") || is_word(text, "fri") {
        Some(4)
    } else if is_word(text, "saturday") || is_word(text, "sat") {
        Some(5)
    } else if is_word(text, "sunday") || is_word(text, "sun") {
        Some(6)
    } else {
        None
    }
}

/// Going `days_ahead` days on from a day that falls on `from` leads to a
/// day that falls on `target`, and going on to the end of the week leads
/// to a Sunday.
pub proof fn lemma_days_ahead(day: int, target: int)
    requires
        0 <= target <= 6,
    ensures
        1 <= days_ahead((day - 1) % 7, target) <= 7,
        (day + days_ahead((day - 1) % 7, target) - 1) % 7 == target,
        0 <= 6 - (day - 1) % 7 <= 6,
        (day + (6 - (day - 1) % 7) - 1) % 7 == 6,
{
}

/// The next day after `from` that falls on the day of the week `target`,
/// counted from Monday as 0: a week after `from` where `from` falls on
/// that day itself.
pub fn next_weekday(from: Date, target: u32) -> (r: Option<Date>)
    requires
        from.wf(),
        target <= 6,
    ensures
        r == from.shifted(days_ahead(from.weekday(), target as int)),
        r matches Some(d) ==> d.wf() && d.weekday() == target && from.day_number()
            < d.day_number() <= from.day_number() + 7,
{
    proof {
        lemma_days_ahead(from.day_number(), target as int);
    }
    let ahead = (target + 7 - from.day_of_week()) % 7;
    if ahead == 0 {
        from.plus_days(7)
    } else {
        from.plus_days(ahead as i64)
    }
}

/// The Sunday of the week of `date`, the week beginning on Monday.
pub fn end_of_week(date: Date) -> (r: Option<Date>)
    requires
        date.wf(),
    ensures
        r == date.shifted(6 - date.weekday()),
        r matches Some(d) ==> d.wf() && d.weekday() == 6 && date.day_number() <= d.day_number()
            <= date.day_number() + 6,
{
    proof {
        lemma_days_ahead(date.day_number(), 6);
    }
    date.plus_days((6 - date.day_of_week()) as i64)
}

/// The last day of the month of `date`.
pub fn end_of_month(date: Date) -> (r: Date)
    requires
        date.wf(),
    ensures
        r == (Date {
            year: date.year,
            month: date.month,
            day: days_in_month(date.year as int, date.month as int) as u32,
        }),
        r.wf(),
{
    let day = month_length(date.year, date.month);
    match Date::new(date.year, date.month, day) {
        Some(d) => d,
        None => date,
    }
}

/// The 31st of December of the year of `date`.
pub fn end_of_year(date: Date) -> (r: Date)
    requires
        date.wf(),
    ensures
        r == (Date { year: date.year, month: 12, day: 31 }),
        r.wf(),
{
    match Date::new(date.year, 12, 31) {
        Some(d) => d,
        None => date,
    }
}

/// The integer that `cleaned[..end]` writes, times `unit`.
fn scaled_amount(cleaned: &Vec<char>, end: usize, unit: i64) -> (r: Option<i64>)
    requires
        end <= cleaned.len(),
    ensures
        r == scaled(cleaned@.take(end as int), unit as int),
{
    let number = slice_of(cleaned, 0, end);
    let digits = trim(&number);
    match parse_i64(&digits) {
        Some(n) => n.checked_mul(unit),
        None => None,
    }
}

/// Where the number before a unit ends: `cleaned` without `short` at its
/// end, else without `long`.
fn amount_end(cleaned: &Vec<char>, short: &str, long: &str) -> (r: Option<usize>)
    ensures
        match r {
            Some(n) => n <= cleaned.len() && amount(cleaned@, short@, long@) == Some(
                cleaned@.take(n as int),
            ),
            None => amount(cleaned@, short@, long@) is None,
        },
{
    match suffix_start(cleaned, short) {
        Some(n) => Some(n),
        None => suffix_start(cleaned, long),
    }
}

/// The number of days that a relative expression such as `5d`, `+2w` or
/// `in 3 months` stands for.
pub fn parse_relative_duration(input: &str) -> (r: Option<i64>)
    ensures
        r == relative_duration(input@),
{
    let chars = chars_of(input);
    let no_in = remove_all(&chars, &chars_of("in "));
    let no_plus = remove_all(&no_in, &chars_of("+"));
    let cleaned = trim(&no_plus);
    if let Some(end) = amount_end(&cleaned, "d", "days") {
        return scaled_amount(&cleaned, end, 1);
    }
    if let Some(end) = amount_end(&cleaned, "w", "weeks") {
        return scaled_amount(&cleaned, end, 7);
    }
    if let Some(end) = amount_end(&cleaned, "m", "months") {
        return scaled_amount(&cleaned, end, 30);
    }
    None
}

/// How far off a day is that lies `days` days after today, in words.
pub open spec fn due_text(days: int) -> Seq<char> {
    if days < 0 {
        decimal((-days) as nat) + seq![' ', 'd', 'a', 'y', 's', ' ', 'a', 'g', 'o']
    } else {
        seq!['i', 'n', ' '] + decimal(days as nat) + seq![' ', 'd', 'a', 'y', 's']
    }
}

/// The style that draws the eye to a day that is today or has passed.
pub open spec fn due_style(days: int) -> Style {
    if days <= 0 {
        Style::Tinted(Tint::Red)
    } else {
        Style::Plain
    }
}

/// Computes `due_text`.
pub fn due_in_words(days: i64) -> (r: String)
    ensures
        r@ == due_text(days as int),
        !r@.contains('\u{1b}'),
{
    let mut r = String::new();
    let size: u64 = if days == i64::MIN {
        9223372036854775808
    } else if days < 0 {
        (-days) as u64
    } else {
        days as u64
    };
    if days < 0 {
        push_decimal(&mut r, size);
        r.push(' ');
        r.push('d');
        r.push('a');
        r.push('y');
        r.push('s');
        r.push(' ');
        r.push('a');
        r.push('g');
        r.push('o');
    } else {
        r.push('i');
        r.push('n');
        r.push(' ');
        push_decimal(&mut r, size);
        r.push(' ');
        r.push('d');
        r.push('a');
        r.push('y');
        r.push('s');
    }
    proof {
        assert(r@ =~= due_text(days as int));
        lemma_decimal_digits(size as nat);
        let digits = decimal(size as nat);
        assert forall|i: int| 0 <= i < r@.len() implies r@[i] != '\u{1b}' by {
            if days < 0 {
                if i < digits.len() {
                    assert(r@[i] == digits[i]);
                    assert(digit_value(digits[i]) is Some);
                }
            } else {
                if 3 <= i < 3 + digits.len() {
                    assert(r@[i] == digits[i - 3]);
                    assert(digit_value(digits[i - 3]) is Some);
                }
            }
        }
    }
    r
}

/// The date by which a task is due.
#[derive(Debug, Clone, Copy)]
pub struct Deadline {
    date: Date,
}

impl View for Deadline {
    type V = Date;

    closed spec fn view(&self) -> Date {
        self.date
    }
}

impl Deadline {
    /// The deadline's date exists in the calendar.
    pub open spec fn wf(&self) -> bool {
        self@.wf()
    }

    /// The deadline that falls on `date`.
    pub fn on(date: Date) -> (r: Deadline)
        ensures
            r@ == date,
    {
        Deadline { date }
    }

    /// The date the deadline falls on.
    pub fn date(&self) -> (d: Date)
        ensures
            d == self@,
    {
        self.date
    }

    /// The deadline as text, in the form in which it is stored.
    pub fn to_text(&self) -> (r: String)
        requires
            self.wf(),
        ensures
            r@ == iso_text(self@),
            parsed_date(r@, "%Y-%m-%d"@) == Some(self@),
    {
        self.date.to_text()
    }

    /// How many days after `today` the deadline falls; negative where it
    /// has passed.
    pub fn days_left(&self, today: Date) -> (r: i64)
        requires
            self.wf(),
            today.wf(),
        ensures
            r == self@.day_number() - today.day_number(),
    {
        self.date.days_since(today)
    }

    /// How far off the deadline is on the day `today`, in words, and in
    /// red where it falls on that day or has passed.
    pub fn days_until(&self, today: Date) -> (r: String)
        requires
            self.wf(),
            today.wf(),
        ensures
            is_styled(
                due_text(self@.day_number() - today.day_number()),
                due_style(self@.day_number() - today.day_number()),
                r@,
            ),
    {
        let days = self.days_left(today);
        let words = due_in_words(days);
        if days <= 0 {
            paint(words.as_str(), Style::Tinted(Tint::Red))
        } else {
            words
        }
    }

    /// The date that a keyword or a relative expression names on the day
    /// `today`, for an expression in its normal form.
    pub fn named(text: &str, today: Date) -> (r: Option<Option<Date>>)
        requires
            today.wf(),
        ensures
            r == named_date(text@, today),
            r matches Some(Some(d)) ==> d.wf(),
            weekday_named(text@) is Some ==> (r matches Some(Some(d)) ==> d.weekday()
                == weekday_named(text@)->0 && today.day_number() < d.day_number()
                <= today.day_number() + 7),
            text@ == "eow"@ || text@ == "endofweek"@ ==> (r matches Some(Some(d)) ==> d.weekday()
                == 6 && today.day_number() <= d.day_number() <= today.day_number() + 6),
    {
        proof {
            if weekday_named(text@) is Some {
                lemma_weekday_is_no_span(text@);
            }
            if text@ == "eow"@ || text@ == "endofweek"@ {
                lemma_period_end_is_no_other(text@);
            }
        }
        let chars = chars_of(text);
        if let Some(days) = fixed_shift_of(&chars) {
            return Some(today.plus_days(days));
        }
        if let Some(target) = weekday_of_name(&chars) {
            return Some(next_weekday(today, target));
        }
        if is_word(&chars, "eow") || is_word(&chars, "endofweek") {
            return Some(end_of_week(today));
        }
        if is_word(&chars, "eom") || is_word(&chars, "endofmonth") {
            return Some(Some(end_of_month(today)));
        }
        if is_word(&chars, "eoy") || is_word(&chars, "endofyear") {
            return Some(Some(end_of_year(today)));
        }
        match parse_relative_duration(text) {
            Some(days) => Some(today.plus_days(days)),
            None => None,
        }
    }

    /// Reads a deadline expression on the day `today`.
    ///
    /// White space at the ends and the case of letters do not count. The
    /// expression is a keyword, a day of the week, a span, the end of the
    /// week, month or year, a number of days, weeks or months, or an exact
    /// date; `deadline_date` says which date each names. An expression
    /// that names none, or one outside the calendar, is given back in the
    /// error. The name of a day of the week never gives today, and the end
    /// of the week is the Sunday of this week. Of an expression in ASCII
    /// the normal form is known in full.
    pub fn parse(input: &str, today: Date) -> (r: Result<Deadline, ValidationError>)
        requires
            today.wf(),
        ensures
            match deadline_date(input@, today) {
                Some(date) => r matches Ok(deadline) && deadline@ == date && date.wf(),
                None => r matches Err(ValidationError::InvalidDeadline(given)) && given@
                    == input@,
            },
            weekday_named(normal_form(input@)) is Some ==> (r matches Ok(deadline)
                ==> deadline@.weekday() == weekday_named(normal_form(input@))->0
                && today.day_number() < deadline@.day_number() <= today.day_number() + 7),
            normal_form(input@) == "eow"@ || normal_form(input@) == "endofweek"@ ==> (r matches Ok(
                deadline,
            ) ==> deadline@.weekday() == 6 && today.day_number() <= deadline@.day_number()
                <= today.day_number() + 6),
            is_ascii_text(trimmed(input@)) ==> normal_form(input@) == ascii_normal_form(input@),
    {
        let text = normalize(input);
        let found = match Deadline::named(text.as_str(), today) {
            Some(date) => date,
            None => exact_date(text.as_str()),
        };
        match found {
            Some(date) => Ok(Deadline { date }),
            None => Err(ValidationError::InvalidDeadline(input.to_owned())),
        }
    }
}

} // verus!
