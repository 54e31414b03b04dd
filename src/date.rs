//! Calendar dates and the resolution of symbolic due-date tokens.

use vstd::prelude::*;
use chrono::Datelike;
use crate::text::{dec_padded, str_eq, u32_text_padded};

verus! {

/// A calendar date of the proleptic Gregorian calendar, years 0 through 9999.
#[derive(Clone, Copy, Debug, PartialEq, Eq, Structural)]
pub struct Date {
    pub year: u32,
    pub month: u32,
    pub day: u32,
}

pub open spec fn is_leap(y: int) -> bool {
    (y % 4 == 0 && y % 100 != 0) || y % 400 == 0
}

pub open spec fn days_in_month(y: int, m: int) -> int {
    if m == 2 {
        if is_leap(y) { 29 } else { 28 }
    } else if m == 4 || m == 6 || m == 9 || m == 11 {
        30
    } else {
        31
    }
}

/// `(y, m, d)` names a day of the calendar.
pub open spec fn valid_ymd(v: (int, int, int)) -> bool {
    1 <= v.1 <= 12 && 1 <= v.2 <= days_in_month(v.0, v.1)
}

/// The day after `v`.
pub open spec fn next_ymd(v: (int, int, int)) -> (int, int, int) {
    if v.2 < days_in_month(v.0, v.1) {
        (v.0, v.1, v.2 + 1)
    } else if v.1 < 12 {
        (v.0, v.1 + 1, 1)
    } else {
        (v.0 + 1, 1, 1)
    }
}

/// The day `n` days after `v`.
pub open spec fn shifted_ymd(v: (int, int, int), n: nat) -> (int, int, int)
    decreases n,
{
    if n == 0 {
        v
    } else {
        next_ymd(shifted_ymd(v, (n - 1) as nat))
    }
}

/// Days before month `m` of year `y`.
pub open spec fn days_before_month(y: int, m: int) -> int
    decreases m,
{
    if m <= 1 {
        0
    } else {
        days_before_month(y, m - 1) + days_in_month(y, m - 1)
    }
}

/// The day's number, counting 0001-01-01 as day 1.
pub open spec fn day_number(v: (int, int, int)) -> int {
    let p = v.0 - 1;
    365 * p + p / 4 - p / 100 + p / 400 + days_before_month(v.0, v.1) + v.2
}

/// English name of the weekday of `v`; 0001-01-01 was a Monday.
pub open spec fn weekday_text(v: (int, int, int)) -> Seq<char> {
    let k = (day_number(v) - 1) % 7;
    if k == 0 {
        "Monday"@
    } else if k == 1 {
        "Tuesday"@
    } else if k == 2 {
        "Wednesday"@
    } else if k == 3 {
        "Thursday"@
    } else if k == 4 {
        "Friday"@
    } else if k == 5 {
        "Saturday"@
    } else {
        "Sunday"@
    }
}

/// Text of a date as `YYYY-MM-DD`.
pub open spec fn iso_text(v: (int, int, int)) -> Seq<char> {
    dec_padded(v.0 as nat, 4) + seq!['-'] + dec_padded(v.1 as nat, 2) + seq!['-'] + dec_padded(
        v.2 as nat,
        2,
    )
}

/// What chrono's `NaiveDate::parse_from_str(s, "%Y-%m-%d")` yields, as year, month and day.
pub uninterp spec fn parsed_ymd(s: Seq<char>) -> Option<(i32, u32, u32)>;

/// The year, month and day of a parse result, as integers.
pub open spec fn parsed_view(p: Option<(i32, u32, u32)>) -> Option<(int, int, int)> {
    match p {
        Some(v) => Some((v.0 as int, v.1 as int, v.2 as int)),
        None => None,
    }
}

impl Date {
    pub open spec fn ymd(self) -> (int, int, int) {
        (self.year as int, self.month as int, self.day as int)
    }

    /// A day of the calendar within the years 0 through 9999.
    pub open spec fn valid(self) -> bool {
        self.year <= 9999 && valid_ymd(self.ymd())
    }

    /// Chronological order: -1, 0 or 1.
    pub open spec fn spec_cmp(self, o: Date) -> int {
        if self.year != o.year {
            if self.year < o.year { -1 } else { 1 }
        } else if self.month != o.month {
            if self.month < o.month { -1 } else { 1 }
        } else if self.day != o.day {
            if self.day < o.day { -1 } else { 1 }
        } else {
            0
        }
    }

    /// The date with these fields, if they name a day within the years 0 through 9999.
    pub fn new(year: u32, month: u32, day: u32) -> (r: Option<Date>)
        ensures
            r is Some <==> (Date { year, month, day }).valid(),
            r is Some ==> r->0 == (Date { year, month, day }),
    {
        let d = Date { year, month, day };
        if year > 9999 || month < 1 || month > 12 || day < 1 {
            return None;
        }
        let leap = (year % 4 == 0 && year % 100 != 0) || year % 400 == 0;
        let dim: u32 = if month == 2 {
            if leap { 29 } else { 28 }
        } else if month == 4 || month == 6 || month == 9 || month == 11 {
            30
        } else {
            31
        };
        if day > dim {
            None
        } else {
            Some(d)
        }
    }

    /// The date of a year, month and day given as integers, if it is one of this type.
    pub fn from_ymd(v: (i32, u32, u32)) -> (r: Option<Date>)
        ensures
            r is Some <==> (0 <= v.0 && (Date { year: v.0 as u32, month: v.1, day: v.2 }).valid()),
            r is Some ==> r->0 == (Date { year: v.0 as u32, month: v.1, day: v.2 }),
    {
        if v.0 < 0 {
            None
        } else {
            Date::new(v.0 as u32, v.1, v.2)
        }
    }

    /// Compares two dates chronologically.
    pub fn cmp_date(&self, o: &Date) -> (r: i8)
        ensures
            r as int == self.spec_cmp(*o),
    {
        if self.year != o.year {
            if self.year < o.year { -1 } else { 1 }
        } else if self.month != o.month {
            if self.month < o.month { -1 } else { 1 }
        } else if self.day != o.day {
            if self.day < o.day { -1 } else { 1 }
        } else {
            0
        }
    }

    /// The date as `YYYY-MM-DD`.
    pub fn to_iso(&self) -> (r: String)
        ensures
            r@ == iso_text(self.ymd()),
    {
        let mut r = u32_text_padded(self.year, 4);
        proof {
            reveal_strlit("-");
        }
        r.append("-");
        let m = u32_text_padded(self.month, 2);
        r.append(m.as_str());
        r.append("-");
        let d = u32_text_padded(self.day, 2);
        r.append(d.as_str());
        r
    }

    /// The month and day as `MM-DD`.
    pub fn month_day(&self) -> (r: String)
        ensures
            r@ == dec_padded(self.month as nat, 2) + seq!['-'] + dec_padded(self.day as nat, 2),
    {
        let mut r = u32_text_padded(self.month, 2);
        proof {
            reveal_strlit("-");
        }
        r.append("-");
        let d = u32_text_padded(self.day, 2);
        r.append(d.as_str());
        r
    }
}

/// Relies on chrono's `NaiveDate` addition of a `Duration` of `n` days, which
/// steps the calendar forward one day at a time.
#[verifier::external_body]
fn shift_days(d: &Date, n: u32) -> (r: (u32, u32, u32))
    requires
        d.valid(),
        n <= 7,
    ensures
        (r.0 as int, r.1 as int, r.2 as int) == shifted_ymd(d.ymd(), n as nat),
{
    let start = chrono::NaiveDate::from_ymd_opt(d.year as i32, d.month, d.day).unwrap();
    let end = start + chrono::Duration::days(n as i64);
    (end.year() as u32, end.month(), end.day())
}

/// Relies on chrono's `NaiveDate::parse_from_str` with the format `%Y-%m-%d`:
/// any date it returns is a day of the calendar, and it reads back the
/// four-digit text that `Date::to_iso` writes.
#[verifier::external_body]
pub(crate) fn parse_date(s: &str) -> (r: Option<(i32, u32, u32)>)
    ensures
        r == parsed_ymd(s@),
        r is Some ==> valid_ymd(parsed_view(r)->0),
        forall|d: Date| #[trigger] iso_text(d.ymd()) == s@ && d.valid() ==> parsed_view(r) == Some(d.ymd()),
{
    match chrono::NaiveDate::parse_from_str(s, "%Y-%m-%d") {
        Ok(v) => Some((v.year(), v.month(), v.day())),
        Err(_) => None,
    }
}

/// Relies on chrono's `NaiveDate::format("%A")`: the English weekday name.
#[verifier::external_body]
fn weekday_of(d: &Date) -> (r: String)
    requires
        d.valid(),
    ensures
        r@ == weekday_text(d.ymd()),
{
    let v = chrono::NaiveDate::from_ymd_opt(d.year as i32, d.month, d.day).unwrap();
    v.format("%A").to_string()
}

impl Date {
    /// English name of the date's weekday.
    pub fn weekday_name(&self) -> (r: String)
        requires
            self.valid(),
        ensures
            r@ == weekday_text(self.ymd()),
    {
        weekday_of(self)
    }
}


/// The fixed far-future date that stands for "sometime", and for any token
/// that names no date.
pub open spec fn sentinel() -> Date {
    Date { year: 2023, month: 12, day: 31 }
}

/// The date of a year, month and day, or the sentinel where they name no date of this type.
pub open spec fn ymd_or_sentinel(v: (int, int, int)) -> Date {
    let d = Date { year: v.0 as u32, month: v.1 as u32, day: v.2 as u32 };
    if 0 <= v.0 <= 9999 && 0 <= v.1 && 0 <= v.2 && d.valid() {
        d
    } else {
        sentinel()
    }
}

/// The date of a parse result, or the sentinel where the text named none.
pub open spec fn parsed_or_sentinel(p: Option<(i32, u32, u32)>) -> Date {
    match parsed_view(p) {
        Some(v) => ymd_or_sentinel(v),
        None => sentinel(),
    }
}

/// The date a token stands for on the day `today`.
pub open spec fn resolve_spec(token: Seq<char>, today: Date) -> Date {
    if token == "today"@ {
        today
    } else if token == "tomorrow"@ {
        ymd_or_sentinel(shifted_ymd(today.ymd(), 1))
    } else if token == "thisweek"@ {
        ymd_or_sentinel(shifted_ymd(today.ymd(), 7))
    } else if token == "sometime"@ {
        sentinel()
    } else {
        parsed_or_sentinel(parsed_ymd(token))
    }
}

/// The date chosen by a numeric shortcut (1 today, 2 tomorrow, 3 one week
/// on, 4 sometime), or else read from `custom`.
pub open spec fn choice_spec(choice: Seq<char>, custom: Seq<char>, today: Date) -> Date {
    if choice == "1"@ {
        resolve_spec("today"@, today)
    } else if choice == "2"@ {
        resolve_spec("tomorrow"@, today)
    } else if choice == "3"@ {
        resolve_spec("thisweek"@, today)
    } else if choice == "4"@ {
        resolve_spec("sometime"@, today)
    } else {
        parsed_or_sentinel(parsed_ymd(custom))
    }
}

/// The sentinel date, 2023-12-31.
pub fn sentinel_date() -> (r: Date)
    ensures
        r == sentinel(),
        r.valid(),
{
    Date { year: 2023, month: 12, day: 31 }
}

/// The date of a parse result, falling back to the sentinel.
pub fn date_or_sentinel(p: Option<(i32, u32, u32)>) -> (r: Date)
    ensures
        r == parsed_or_sentinel(p),
        r.valid(),
{
    match p {
        Some(v) => match Date::from_ymd(v) {
            Some(d) => d,
            None => sentinel_date(),
        },
        None => sentinel_date(),
    }
}

fn shifted_date(today: &Date, n: u32) -> (r: Date)
    requires
        today.valid(),
        n <= 7,
    ensures
        r == ymd_or_sentinel(shifted_ymd(today.ymd(), n as nat)),
        r.valid(),
{
    let v = shift_days(today, n);
    match Date::new(v.0, v.1, v.2) {
        Some(d) => d,
        None => sentinel_date(),
    }
}

/// Resolves a due-date token: `today`, `tomorrow`, `thisweek` (seven days
/// on), `sometime`, or a `YYYY-MM-DD` date; anything else gives the sentinel.
pub fn resolve(token: &str, today: &Date) -> (r: Date)
    requires
        today.valid(),
    ensures
        r == resolve_spec(token@, *today),
        r.valid(),
{
    if str_eq(token, "today") {
        *today
    } else if str_eq(token, "tomorrow") {
        shifted_date(today, 1)
    } else if str_eq(token, "thisweek") {
        shifted_date(today, 7)
    } else if str_eq(token, "sometime") {
        sentinel_date()
    } else {
        date_or_sentinel(parse_date(token))
    }
}

/// True for the numeric shortcuts 1 through 4 of `resolve_choice`.
pub fn is_due_shortcut(choice: &str) -> (r: bool)
    ensures
        r == (choice@ == "1"@ || choice@ == "2"@ || choice@ == "3"@ || choice@ == "4"@),
{
    str_eq(choice, "1") || str_eq(choice, "2") || str_eq(choice, "3") || str_eq(choice, "4")
}

/// Resolves the due date of a new task from a numeric shortcut, or from
/// `custom` where `choice` is none.
pub fn resolve_choice(choice: &str, custom: &str, today: &Date) -> (r: Date)
    requires
        today.valid(),
    ensures
        r == choice_spec(choice@, custom@, *today),
        r.valid(),
{
    if str_eq(choice, "1") {
        resolve("today", today)
    } else if str_eq(choice, "2") {
        resolve("tomorrow", today)
    } else if str_eq(choice, "3") {
        resolve("thisweek", today)
    } else if str_eq(choice, "4") {
        resolve("sometime", today)
    } else {
        date_or_sentinel(parse_date(custom))
    }
}

} // verus!
