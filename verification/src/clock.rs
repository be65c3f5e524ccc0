//! The current local time, written out.

use vstd::prelude::*;

use crate::text::digit;

verus! {

/// `n` in two decimal digits.
pub open spec fn two_digits(n: nat) -> Seq<char> {
    seq![digit(n / 10), digit(n % 10)]
}

/// `n` in three decimal digits.
pub open spec fn three_digits(n: nat) -> Seq<char> {
    seq![digit(n / 100), digit(n / 10 % 10), digit(n % 10)]
}

/// An hour, a minute and a second of a day; the second 60 is a leap second.
pub open spec fn is_day_time(hour: nat, minute: nat, second: nat) -> bool {
    hour < 24 && minute < 60 && second <= 60
}

/// A year as it is written: at least four digits, with a sign before them where
/// the year lies outside 0 to 9999.
pub open spec fn is_year(s: Seq<char>) -> bool {
    &&& s.len() >= 4
    &&& forall|i: int| 0 < i < s.len() ==> '0' <= #[trigger] s[i] <= '9'
    &&& '0' <= s[0] <= '9' || (s.len() >= 5 && (s[0] == '+' || s[0] == '-'))
}

/// Whether `s` is a time of day like `10:24:01.123`.
pub open spec fn is_time_stamp(s: Seq<char>) -> bool {
    exists|hour: nat, minute: nat, second: nat, milli: nat|
        is_day_time(hour, minute, second) && milli < 1000 && s == #[trigger] time_stamp(
            hour,
            minute,
            second,
            milli,
        )
}

/// A time of day like `10:24:01.123`.
pub open spec fn time_stamp(hour: nat, minute: nat, second: nat, milli: nat) -> Seq<char> {
    two_digits(hour) + seq![':'] + two_digits(minute) + seq![':'] + two_digits(second) + seq!['.']
        + three_digits(milli)
}

/// Whether `s` is a date and time like `20240131_102401`.
pub open spec fn is_file_stamp(s: Seq<char>) -> bool {
    exists|year: Seq<char>, month: nat, day: nat, hour: nat, minute: nat, second: nat|
        is_year(year) && 1 <= month <= 12 && 1 <= day <= 31 && is_day_time(hour, minute, second)
            && s == #[trigger] file_stamp(year, month, day, hour, minute, second)
}

/// A date and time like `20240131_102401`.
pub open spec fn file_stamp(
    year: Seq<char>,
    month: nat,
    day: nat,
    hour: nat,
    minute: nat,
    second: nat,
) -> Seq<char> {
    year + two_digits(month) + two_digits(day) + seq!['_'] + two_digits(hour) + two_digits(minute)
        + two_digits(second)
}

/// Whether `s` is a date and time like `2024-01-31 10:24:01`.
pub open spec fn is_human_stamp(s: Seq<char>) -> bool {
    exists|year: Seq<char>, month: nat, day: nat, hour: nat, minute: nat, second: nat|
        is_year(year) && 1 <= month <= 12 && 1 <= day <= 31 && is_day_time(hour, minute, second)
            && s == #[trigger] human_stamp(year, month, day, hour, minute, second)
}

/// A date and time like `2024-01-31 10:24:01`.
pub open spec fn human_stamp(
    year: Seq<char>,
    month: nat,
    day: nat,
    hour: nat,
    minute: nat,
    second: nat,
) -> Seq<char> {
    year + seq!['-'] + two_digits(month) + seq!['-'] + two_digits(day) + seq![' '] + two_digits(
        hour,
    ) + seq![':'] + two_digits(minute) + seq![':'] + two_digits(second)
}

/// `chrono::Local::now`, written with `%H:%M:%S%.3f`: hour, minute and second in
/// two digits each with colons between them, then a point and three digits of
/// the second. Which time it is, is left open.
#[verifier::external_body]
pub(crate) fn now_ts() -> (s: String)
    ensures
        is_time_stamp(s@),
{
    chrono::Local::now().format("%H:%M:%S%.3f").to_string()
}

/// `chrono::Local::now`, written with `%Y%m%d_%H%M%S`: the year, then month and
/// day, an underscore, and hour, minute and second in two digits each. Which
/// time it is, is left open.
#[verifier::external_body]
pub(crate) fn now_file_ts() -> (s: String)
    ensures
        is_file_stamp(s@),
{
    chrono::Local::now().format("%Y%m%d_%H%M%S").to_string()
}

/// `chrono::Local::now`, written with `%Y-%m-%d %H:%M:%S`: the date with dashes
/// between its parts, a blank, and the time of day with colons. Which time it
/// is, is left open.
#[verifier::external_body]
pub(crate) fn now_human() -> (s: String)
    ensures
        is_human_stamp(s@),
{
    chrono::Local::now().format("%Y-%m-%d %H:%M:%S").to_string()
}

} // verus!
