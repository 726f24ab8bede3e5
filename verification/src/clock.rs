//! The date and time of day, and how they are written out.
//!
//! The clock is read by the caller, who hands in the moment as a
//! [`Timestamp`]. The text is written by the `chrono` crate.

use vstd::prelude::*;
use std::fmt::Write;

verus! {

/// A date in the calendar and a time of day.
///
/// The fields are those of the calendar library: a second is counted from 0
/// to 59, and a leap second is the second 59 with a thousand million
/// nanoseconds or more.
#[derive(Debug, Clone, Copy, PartialEq, Eq, Structural)]
pub struct Timestamp {
    pub year: i32,
    pub month: u32,
    pub day: u32,
    pub hour: u32,
    pub minute: u32,
    pub second: u32,
    pub nanosecond: u32,
}

/// Whether `year` is a leap year of the Gregorian calendar, carried back
/// before its introduction.
pub open spec fn is_leap_year(year: int) -> bool {
    year % 4 == 0 && (year % 100 != 0 || year % 400 == 0)
}

/// How many days the month has, for a month from 1 to 12.
pub open spec fn days_in_month(year: int, month: int) -> int {
    if month == 2 {
        if is_leap_year(year) {
            29
        } else {
            28
        }
    } else if month == 4 || month == 6 || month == 9 || month == 11 {
        30
    } else {
        31
    }
}

/// The first year the calendar library knows.
pub const FIRST_YEAR: i32 = -262143;

/// The last year the calendar library knows.
pub const LAST_YEAR: i32 = 262142;

impl Timestamp {
    /// Whether the timestamp names a moment: the day exists in the calendar,
    /// the year is one the calendar library knows, and the time of day is in
    /// its ranges.
    pub open spec fn wf(self) -> bool {
        &&& FIRST_YEAR <= self.year <= LAST_YEAR
        &&& 1 <= self.month <= 12
        &&& 1 <= self.day <= days_in_month(self.year as int, self.month as int)
        &&& self.hour <= 23
        &&& self.minute <= 59
        &&& self.second <= 59
        &&& self.nanosecond < 2_000_000_000
        &&& self.nanosecond >= 1_000_000_000 ==> self.second == 59
    }

    /// The second as it is written: from 0 to 59, and 60 for a leap second.
    pub open spec fn shown_second(self) -> nat {
        (self.second + self.nanosecond / 1_000_000_000) as nat
    }
}

/// The character for one decimal digit.
pub open spec fn digit(d: nat) -> char {
    if d == 0 {
        '0'
    } else if d == 1 {
        '1'
    } else if d == 2 {
        '2'
    } else if d == 3 {
        '3'
    } else if d == 4 {
        '4'
    } else if d == 5 {
        '5'
    } else if d == 6 {
        '6'
    } else if d == 7 {
        '7'
    } else if d == 8 {
        '8'
    } else {
        '9'
    }
}

/// `n` in decimal, without leading zeros.
pub open spec fn decimal(n: nat) -> Seq<char>
    decreases n,
{
    if n < 10 {
        seq![digit(n)]
    } else {
        decimal(n / 10).push(digit(n % 10))
    }
}

/// `count` zeros.
pub open spec fn zeros(count: nat) -> Seq<char> {
    Seq::new(count, |i: int| '0')
}

/// `n` in decimal, with leading zeros up to `width` digits.
pub open spec fn padded(n: nat, width: nat) -> Seq<char> {
    let digits = decimal(n);
    if digits.len() < width {
        zeros((width - digits.len()) as nat) + digits
    } else {
        digits
    }
}

/// A year written out: four digits from 0 to 9999; a sign and at least
/// four digits for any other year.
pub open spec fn year_text(year: int) -> Seq<char> {
    if 0 <= year <= 9999 {
        padded(year as nat, 4)
    } else if year < 0 {
        seq!['-'] + padded((-year) as nat, 4)
    } else {
        seq!['+'] + padded(year as nat, 4)
    }
}

/// The layout `YYYY-MM-DD HH:MM:SS`, in the notation of the calendar
/// library.
pub open spec fn stamp_layout() -> Seq<char> {
    "%Y-%m-%d %H:%M:%S"@
}

/// A timestamp written out as `YYYY-MM-DD HH:MM:SS`.
pub open spec fn timestamp_text(t: Timestamp) -> Seq<char> {
    year_text(t.year as int) + seq!['-'] + padded(t.month as nat, 2) + seq!['-'] + padded(
        t.day as nat,
        2,
    ) + seq![' '] + padded(t.hour as nat, 2) + seq![':'] + padded(t.minute as nat, 2) + seq![':']
        + padded(t.shown_second(), 2)
}

/// How many digits `n` has in decimal.
pub proof fn lemma_decimal_len(n: nat)
    ensures
        decimal(n).len() >= 1,
        n < 10 ==> decimal(n).len() == 1,
        10 <= n < 100 ==> decimal(n).len() == 2,
        100 <= n < 1000 ==> decimal(n).len() == 3,
        1000 <= n ==> decimal(n).len() >= 4,
    decreases n,
{
    if n >= 10 {
        lemma_decimal_len(n / 10);
    }
}

/// A number that has no more digits than `width` is written out in exactly
/// `width` digits.
pub proof fn lemma_padded_len(n: nat, width: nat)
    requires
        decimal(n).len() <= width,
    ensures
        padded(n, width).len() == width,
{
}

/// A timestamp of the years 0 to 9999 is written out in nineteen
/// characters, with the separators of `YYYY-MM-DD HH:MM:SS` in their places.
pub proof fn law_timestamp_shape(t: Timestamp)
    requires
        t.wf(),
        0 <= t.year <= 9999,
    ensures
        timestamp_text(t).len() == 19,
        timestamp_text(t)[4] == '-',
        timestamp_text(t)[7] == '-',
        timestamp_text(t)[10] == ' ',
        timestamp_text(t)[13] == ':',
        timestamp_text(t)[16] == ':',
{
    lemma_decimal_len(t.year as nat);
    lemma_decimal_len(t.month as nat);
    lemma_decimal_len(t.day as nat);
    lemma_decimal_len(t.hour as nat);
    lemma_decimal_len(t.minute as nat);
    lemma_decimal_len(t.shown_second());
    lemma_year_digits(t.year as nat);
    lemma_padded_len(t.year as nat, 4);
    lemma_padded_len(t.month as nat, 2);
    lemma_padded_len(t.day as nat, 2);
    lemma_padded_len(t.hour as nat, 2);
    lemma_padded_len(t.minute as nat, 2);
    lemma_padded_len(t.shown_second(), 2);
}

/// A number below ten thousand has at most four digits.
proof fn lemma_year_digits(n: nat)
    requires
        n <= 9999,
    ensures
        decimal(n).len() <= 4,
{
    lemma_decimal_len(n);
    if n >= 1000 {
        lemma_decimal_len(n / 10);
    }
}

/// The moment `now` written out as `YYYY-MM-DD HH:MM:SS`, or nothing where
/// `now` names no moment.
pub fn date(now: &Timestamp) -> (text: Option<String>)
    ensures
        match text {
            Some(s) => now.wf() && s@ == timestamp_text(*now),
            None => !now.wf(),
        },
{
    written(now, "%Y-%m-%d %H:%M:%S")
}

/// Calls `chrono::NaiveDate::from_ymd_opt`, `and_hms_nano_opt` on the date
/// and `format` on the moment, and writes the result into a text.
///
/// The crate makes a moment exactly of a day that exists, in a year it
/// knows, with a time of day in its ranges. In the layout
/// `%Y-%m-%d %H:%M:%S` it writes the year in four digits, or with a sign and
/// at least four digits outside the years 0 to 9999, and every other field
/// in two digits, the second of a leap second as 60. Of another layout
/// nothing is claimed; one that the crate cannot read gives no text.
#[verifier::external_body]
fn written(t: &Timestamp, layout: &str) -> (text: Option<String>)
    ensures
        layout@ == stamp_layout() ==> match text {
            Some(s) => t.wf() && s@ == timestamp_text(*t),
            None => !t.wf(),
        },
{
    let day = chrono::NaiveDate::from_ymd_opt(t.year, t.month, t.day)?;
    let moment = day.and_hms_nano_opt(t.hour, t.minute, t.second, t.nanosecond)?;
    let mut text = String::new();
    match write!(text, "{}", moment.format(layout)) {
        Ok(()) => Some(text),
        Err(_) => None,
    }
}

} // verus!
