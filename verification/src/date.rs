//! Calendar dates: the day a table describes, its weekday and the parity of
//! its week, and the search for a date in a table's header text.

use crate::text::{
    chars_eq, chars_of, parse_number, parse_u32, slice_of, split, split_chars, trim, trim_chars,
    views,
};
use chrono::Datelike;
use vstd::prelude::*;

verus! {

/// A day of the week.
#[derive(Debug, Clone, Copy, PartialEq, Eq, Structural)]
pub enum Weekday {
    Mon,
    Tue,
    Wed,
    Thu,
    Fri,
    Sat,
    Sun,
}

impl Weekday {
    /// The number of days since Monday.
    pub open spec fn index(&self) -> int {
        match self {
            Weekday::Mon => 0,
            Weekday::Tue => 1,
            Weekday::Wed => 2,
            Weekday::Thu => 3,
            Weekday::Fri => 4,
            Weekday::Sat => 5,
            Weekday::Sun => 6,
        }
    }

    /// The weekday that lies `n` days after a Monday, for `n` below 7.
    pub fn from_index(n: u8) -> (r: Weekday)
        requires
            n < 7,
        ensures
            r.index() == n,
    {
        if n == 0 {
            Weekday::Mon
        } else if n == 1 {
            Weekday::Tue
        } else if n == 2 {
            Weekday::Wed
        } else if n == 3 {
            Weekday::Thu
        } else if n == 4 {
            Weekday::Fri
        } else if n == 5 {
            Weekday::Sat
        } else {
            Weekday::Sun
        }
    }
}

/// Whether a year of the Gregorian calendar has a 29th of February.
pub open spec fn is_leap(year: int) -> bool {
    year % 4 == 0 && (year % 100 != 0 || year % 400 == 0)
}

/// The number of days of a month.
pub open spec fn days_in_month(year: int, month: int) -> int {
    if month == 2 {
        if is_leap(year) {
            29
        } else {
            28
        }
    } else if month == 4 || month == 6 || month == 9 || month == 11 {
        30
    } else {
        31
    }
}

/// The day exists in the Gregorian calendar, in a year from 1 to 9999.
pub open spec fn valid_ymd(year: int, month: int, day: int) -> bool {
    &&& 1 <= year <= 9999
    &&& 1 <= month <= 12
    &&& 1 <= day <= days_in_month(year, month)
}

/// A calendar date.
#[derive(Debug, Clone, Copy, PartialEq, Eq, Structural)]
pub struct Date {
    pub year: i32,
    pub month: u32,
    pub day: u32,
}

/// The number of days from Monday to the weekday of a date of the proleptic
/// Gregorian calendar.
pub uninterp spec fn weekday_number(year: int, month: int, day: int) -> int;

/// The number of the ISO 8601 week that a date lies in.
pub uninterp spec fn iso_week_number(year: int, month: int, day: int) -> int;

/// `chrono::NaiveDate::from_ymd_opt`, then `Datelike::weekday` and
/// `Weekday::num_days_from_monday`: the weekday of an existing date as its
/// number of days from Monday, which is below 7.
#[verifier::external_body]
fn chrono_weekday(year: i32, month: u32, day: u32) -> (r: u8)
    requires
        valid_ymd(year as int, month as int, day as int),
    ensures
        r as int == weekday_number(year as int, month as int, day as int),
        r < 7,
{
    chrono::NaiveDate::from_ymd_opt(year, month, day).unwrap().weekday().num_days_from_monday()
        as u8
}

/// `chrono::NaiveDate::from_ymd_opt`, then `Datelike::iso_week` and
/// `IsoWeek::week`: the ISO week number of an existing date, which lies
/// between 1 and 53.
#[verifier::external_body]
fn chrono_iso_week(year: i32, month: u32, day: u32) -> (r: u32)
    requires
        valid_ymd(year as int, month as int, day as int),
    ensures
        r as int == iso_week_number(year as int, month as int, day as int),
        1 <= r <= 53,
{
    chrono::NaiveDate::from_ymd_opt(year, month, day).unwrap().iso_week().week()
}

impl Date {
    /// The date exists.
    pub open spec fn valid(&self) -> bool {
        valid_ymd(self.year as int, self.month as int, self.day as int)
    }

    /// The weekday of the date.
    pub open spec fn weekday_spec(&self) -> Weekday {
        choose|w: Weekday|
            w.index() == weekday_number(self.year as int, self.month as int, self.day as int)
    }

    /// The week of the date has an even ISO week number.
    pub open spec fn week_is_even(&self) -> bool {
        iso_week_number(self.year as int, self.month as int, self.day as int) % 2 == 0
    }

    /// The date of the given year, month and day, where that day exists.
    pub fn new(year: i32, month: u32, day: u32) -> (r: Option<Date>)
        ensures
            r.is_some() == valid_ymd(year as int, month as int, day as int),
            r.is_some() ==> r.unwrap() == (Date { year, month, day }),
    {
        if year < 1 || year > 9999 || month < 1 || month > 12 || day < 1 {
            return None;
        }
        let leap = year % 4 == 0 && (year % 100 != 0 || year % 400 == 0);
        let last: u32 = if month == 2 {
            if leap {
                29
            } else {
                28
            }
        } else if month == 4 || month == 6 || month == 9 || month == 11 {
            30
        } else {
            31
        };
        if day > last {
            return None;
        }
        Some(Date { year, month, day })
    }

    /// Whether the date exists.
    pub fn is_valid(&self) -> (r: bool)
        ensures
            r == self.valid(),
    {
        Date::new(self.year, self.month, self.day).is_some()
    }

    /// The weekday of the date.
    pub fn weekday(&self) -> (r: Weekday)
        requires
            self.valid(),
        ensures
            r.index() == weekday_number(self.year as int, self.month as int, self.day as int),
            r == self.weekday_spec(),
    {
        let r = Weekday::from_index(chrono_weekday(self.year, self.month, self.day));
        proof {
            let w = self.weekday_spec();
            assert(w.index() == r.index());
        }
        r
    }
}

/// Whether the week of a date has an even ISO week number.
pub fn is_week_even(date: &Date) -> (r: bool)
    requires
        date.valid(),
    ensures
        r == date.week_is_even(),
{
    chrono_iso_week(date.year, date.month, date.day) % 2 == 0
}

/// The weekday that a Russian weekday name stands for.
pub open spec fn weekday_named(name: Seq<char>) -> Option<Weekday> {
    if name == "Понедельник"@ {
        Some(Weekday::Mon)
    } else if name == "Вторник"@ {
        Some(Weekday::Tue)
    } else if name == "Среда"@ {
        Some(Weekday::Wed)
    } else if name == "Четверг"@ {
        Some(Weekday::Thu)
    } else if name == "Пятница"@ {
        Some(Weekday::Fri)
    } else if name == "Суббота"@ {
        Some(Weekday::Sat)
    } else if name == "Воскресенье"@ {
        Some(Weekday::Sun)
    } else {
        None
    }
}

fn is_text(word: &Vec<char>, text: &str) -> (r: bool)
    ensures
        r == (word@ == text@),
{
    let chars = chars_of(text);
    chars_eq(word, &chars)
}

/// Reads a Russian weekday name; `None` for any other text.
pub fn map_weekday(day: &str) -> (r: Option<Weekday>)
    ensures
        r == weekday_named(day@),
{
    let word = chars_of(day);
    if is_text(&word, "Понедельник") {
        Some(Weekday::Mon)
    } else if is_text(&word, "Вторник") {
        Some(Weekday::Tue)
    } else if is_text(&word, "Среда") {
        Some(Weekday::Wed)
    } else if is_text(&word, "Четверг") {
        Some(Weekday::Thu)
    } else if is_text(&word, "Пятница") {
        Some(Weekday::Fri)
    } else if is_text(&word, "Суббота") {
        Some(Weekday::Sat)
    } else if is_text(&word, "Воскресенье") {
        Some(Weekday::Sun)
    } else {
        None
    }
}

/// The number of the month that a Russian month name, in the form used in
/// dates, stands for.
pub open spec fn month_named(name: Seq<char>) -> Option<u32> {
    if name == "января"@ {
        Some(1u32)
    } else if name == "февраля"@ {
        Some(2u32)
    } else if name == "марта"@ {
        Some(3u32)
    } else if name == "апреля"@ {
        Some(4u32)
    } else if name == "мая"@ {
        Some(5u32)
    } else if name == "июня"@ {
        Some(6u32)
    } else if name == "июля"@ {
        Some(7u32)
    } else if name == "августа"@ {
        Some(8u32)
    } else if name == "сентября"@ {
        Some(9u32)
    } else if name == "октября"@ {
        Some(10u32)
    } else if name == "ноября"@ {
        Some(11u32)
    } else if name == "декабря"@ {
        Some(12u32)
    } else {
        None
    }
}

/// The number of the month that a word names, if it names one.
pub fn month_of(word: &Vec<char>) -> (r: Option<u32>)
    ensures
        r == month_named(word@),
{
    if is_text(word, "января") {
        Some(1)
    } else if is_text(word, "февраля") {
        Some(2)
    } else if is_text(word, "марта") {
        Some(3)
    } else if is_text(word, "апреля") {
        Some(4)
    } else if is_text(word, "мая") {
        Some(5)
    } else if is_text(word, "июня") {
        Some(6)
    } else if is_text(word, "июля") {
        Some(7)
    } else if is_text(word, "августа") {
        Some(8)
    } else if is_text(word, "сентября") {
        Some(9)
    } else if is_text(word, "октября") {
        Some(10)
    } else if is_text(word, "ноября") {
        Some(11)
    } else if is_text(word, "декабря") {
        Some(12)
    } else {
        None
    }
}

/// The year that a word states: the number that its first four characters
/// write, where the word, without white space around it, starts with four
/// digits.
pub open spec fn year_in(word: Seq<char>) -> Option<i32> {
    let t = trim(word);
    if t.len() >= 4 {
        match parse_number(t.subrange(0, 4), 9999) {
            Some(y) => Some(y as i32),
            None => None,
        }
    } else {
        None
    }
}

/// The year that a word states, if it starts with four digits.
pub fn year_of(word: &Vec<char>) -> (r: Option<i32>)
    ensures
        r == year_in(word@),
{
    let t = trim_chars(word);
    if t.len() < 4 {
        return None;
    }
    let head = slice_of(&t, 0, 4);
    match parse_u32(&head) {
        Some(y) => {
            if y <= 9999 {
                Some(y as i32)
            } else {
                None
            }
        },
        None => {
            proof {
                if crate::text::all_digits(head@) {
                    crate::text::lemma_four_digits_small(head@);
                }
            }
            None
        },
    }
}

/// The year of a date whose day and month stand at `i` and `i + 1`: what
/// the word after them states, or the reference year where it states none.
pub open spec fn year_at(words: Seq<Seq<char>>, i: int, reference: i32) -> i32 {
    if i + 2 < words.len() && year_in(words[i + 2]).is_some() {
        year_in(words[i + 2]).unwrap()
    } else {
        reference
    }
}

/// The date that the words state at `i`: a day number, then a month name,
/// then a year or none, where that day exists.
pub open spec fn date_at(words: Seq<Seq<char>>, i: int, reference: i32) -> Option<Date> {
    if 0 <= i && i + 1 < words.len() {
        match (parse_number(trim(words[i]), 0xffff_ffff), month_named(words[i + 1])) {
            (Some(day), Some(month)) => {
                let year = year_at(words, i, reference);
                if valid_ymd(year as int, month as int, day as int) {
                    Some(Date { year, month, day: day as u32 })
                } else {
                    None
                }
            },
            _ => None,
        }
    } else {
        None
    }
}

/// The first date that the words state at or after `i`.
pub open spec fn first_date(words: Seq<Seq<char>>, i: int, reference: i32) -> Option<Date>
    decreases words.len() - i,
{
    if i < 0 || i >= words.len() {
        None
    } else {
        match date_at(words, i, reference) {
            Some(d) => Some(d),
            None => first_date(words, i + 1, reference),
        }
    }
}

/// The date that a header text states: the first place in its words, taken
/// at single spaces, where a day number, a month name and possibly a year
/// follow each other and name an existing day. The year of `reference`
/// stands in where the text gives none.
pub open spec fn header_date(text: Seq<char>, reference: i32) -> Option<Date> {
    first_date(split(text, ' '), 0, reference)
}

/// A date that a header states exists.
pub proof fn lemma_header_date_valid(words: Seq<Seq<char>>, i: int, reference: i32)
    ensures
        first_date(words, i, reference).is_some() ==> first_date(
            words,
            i,
            reference,
        ).unwrap().valid(),
    decreases words.len() - i,
{
    if 0 <= i < words.len() {
        if date_at(words, i, reference).is_none() {
            lemma_header_date_valid(words, i + 1, reference);
        }
    }
}

fn date_here(words: &Vec<Vec<char>>, i: usize, reference: i32) -> (r: Option<Date>)
    requires
        i < words.len(),
    ensures
        r == date_at(views(words@), i as int, reference),
{
    let ghost model = views(words@);
    if words.len() - i < 2 {
        return None;
    }
    assert(model[i as int] == words@[i as int]@);
    assert(model[i + 1] == words@[i + 1]@);
    let day = match parse_u32(&trim_chars(&words[i])) {
        Some(d) => d,
        None => {
            return None;
        },
    };
    let month = match month_of(&words[i + 1]) {
        Some(m) => m,
        None => {
            return None;
        },
    };
    let mut year = reference;
    if words.len() - i > 2 {
        assert(model[i + 2] == words@[i + 2]@);
        match year_of(&words[i + 2]) {
            Some(y) => {
                year = y;
            },
            None => {},
        }
    }
    Date::new(year, month, day)
}

/// Looks for a date in a header text: a day number and a Russian month name,
/// with the year after them or else the year of `reference`. `None` where
/// the text states no existing day.
pub fn parse_date(header: &str, reference: &Date) -> (r: Option<Date>)
    ensures
        r == header_date(header@, reference.year),
        r.is_some() ==> r.unwrap().valid(),
{
    let chars = chars_of(header);
    let words = split_chars(&chars, ' ');
    let ghost model = views(words@);
    let mut i: usize = 0;
    while i < words.len()
        invariant
            i <= words.len(),
            model == views(words@),
            model == split(header@, ' '),
            first_date(model, 0, reference.year) == first_date(model, i as int, reference.year),
        decreases words.len() - i,
    {
        match date_here(&words, i, reference.year) {
            Some(d) => {
                proof {
                    assert(first_date(model, i as int, reference.year) == Some(d));
                    lemma_header_date_valid(model, i as int, reference.year);
                }
                return Some(d);
            },
            None => {},
        }
        i = i + 1;
    }
    None
}

/// The calendar day, in UTC, that lies the given number of seconds after
/// the start of 1970, as year, month and day; none where the calendar of
/// the outside crate does not reach that far.
pub uninterp spec fn timestamp_date(secs: int) -> Option<(int, int, int)>;

/// `chrono::DateTime::from_timestamp`, then `DateTime::date_naive` and the
/// date's year, month and day: the UTC calendar day of a UNIX time, or
/// `None` where the time is out of the crate's range.
#[verifier::external_body]
fn chrono_date_of(secs: i64) -> (r: Option<(i32, u32, u32)>)
    ensures
        match r {
            Some(d) => timestamp_date(secs as int) == Some((d.0 as int, d.1 as int, d.2 as int)),
            None => timestamp_date(secs as int).is_none(),
        },
{
    match chrono::DateTime::from_timestamp(secs, 0) {
        Some(t) => Some((t.date_naive().year(), t.date_naive().month(), t.date_naive().day())),
        None => None,
    }
}

/// The seconds by which the timetable's clock runs ahead of UTC.
pub const CLOCK_OFFSET: i64 = 10800;

/// The seconds of a day.
pub const DAY: i64 = 86400;

/// `a + b`, held at the ends of the 64-bit range.
pub open spec fn clamped_sum(a: int, b: int) -> int {
    if a + b > i64::MAX {
        i64::MAX as int
    } else if a + b < i64::MIN {
        i64::MIN as int
    } else {
        a + b
    }
}

/// Adds two numbers; the sum stays at the end of the 64-bit range that it
/// would pass.
pub fn clamped_add(a: i64, b: i64) -> (r: i64)
    ensures
        r as int == clamped_sum(a as int, b as int),
{
    if b > 0 && a > i64::MAX - b {
        i64::MAX
    } else if b < 0 && a < i64::MIN - b {
        i64::MIN
    } else {
        a + b
    }
}

/// The time that the timetable's clock shows when the machine's clock
/// shows `machine`: three hours later, held at the end of the 64-bit range.
pub open spec fn clock_at(machine: int) -> int {
    clamped_sum(machine, CLOCK_OFFSET as int)
}

/// The time on the timetable's clock when the machine's clock shows the
/// UNIX time `machine`: three hours later.
pub fn now(machine: i64) -> (r: i64)
    ensures
        r as int == clock_at(machine as int),
{
    clamped_add(machine, CLOCK_OFFSET)
}

/// The existing date, in the years 1 to 9999, that a UNIX time falls on.
pub open spec fn date_of(secs: int) -> Option<Date> {
    match timestamp_date(secs) {
        Some((y, m, d)) => if i32::MIN <= y <= i32::MAX && 0 <= m <= u32::MAX && 0 <= d
            <= u32::MAX && valid_ymd(y, m, d) {
            Some(Date { year: y as i32, month: m as u32, day: d as u32 })
        } else {
            None
        },
        None => None,
    }
}

/// The date that a UNIX time falls on, where it lies in the years 1 to 9999.
pub fn date_of_timestamp(secs: i64) -> (r: Option<Date>)
    ensures
        r == date_of(secs as int),
        r.is_some() ==> r.unwrap().valid(),
{
    match chrono_date_of(secs) {
        Some((y, m, d)) => Date::new(y, m, d),
        None => None,
    }
}

} // verus!
