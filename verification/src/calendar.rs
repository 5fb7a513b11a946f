//! Calendar rules for the day of the month on which an expense falls due.

use vstd::prelude::*;

verus! {

/// Number of days in `month` (1 to 12) of `year`; 0 for any other month number.
///
/// February has 29 days in every year divisible by four and 28 otherwise.
pub open spec fn days_in_month(month: u32, year: i32) -> nat {
    if month == 1 || month == 3 || month == 5 || month == 7 || month == 8 || month == 10
        || month == 12 {
        31
    } else if month == 4 || month == 6 || month == 9 || month == 11 {
        30
    } else if month == 2 {
        if year % 4 == 0 {
            29
        } else {
            28
        }
    } else {
        0
    }
}

/// Whether `day` is a day of `month` in `year`.
pub open spec fn valid_day(day: u32, month: u32, year: i32) -> bool {
    1 <= day && day <= days_in_month(month, year)
}

/// Decides whether `day` exists in the given month of the given year.
pub fn is_valid_day(day: u32, month: u32, year: i32) -> (valid: bool)
    ensures
        valid == valid_day(day, month, year),
{
    let leap_year: bool = year % 4 == 0;
    if day < 1 {
        false
    } else {
        match month {
            1 | 3 | 5 | 7 | 8 | 10 | 12 => day <= 31,
            4 | 6 | 9 | 11 => day <= 30,
            2 => if leap_year { day <= 29 } else { day <= 28 },
            _ => false,
        }
    }
}

/// The month (1 to 12) and the year of the local date at the moment of the call.
///
/// Trusted: reads the clock through `chrono::Local::now` and takes the date's
/// `Datelike::month` and `Datelike::year`. The contract claims only what chrono
/// documents of every date, that the month number lies between 1 and 12. The
/// call does not return where the clock of the machine stands before 1970 or
/// the machine's time-zone data cannot be used: a state of the machine, which
/// no argument could exclude.
#[verifier::external_body]
pub(crate) fn current_month_and_year() -> (today: (u32, i32))
    ensures
        1 <= today.0 <= 12,
{
    let now = chrono::Local::now();
    (chrono::Datelike::month(&now), chrono::Datelike::year(&now))
}

/// Decides whether `day` exists in the month that the local clock shows.
pub fn check_valid_day(day: u32) -> (valid: bool)
    ensures
        exists|month: u32, year: i32|
            1 <= month <= 12 && valid == #[trigger] valid_day(day, month, year),
        day < 1 || day > 31 ==> !valid,
        1 <= day <= 28 ==> valid,
{
    let (month, year) = current_month_and_year();
    is_valid_day(day, month, year)
}

/// No month has a day 0 or a day past 31, and every day of a month lies
/// between 1 and 31.
pub proof fn lemma_valid_day_range(day: u32, month: u32, year: i32)
    ensures
        valid_day(day, month, year) ==> 1 <= day <= 31 && 1 <= month <= 12,
        1 <= month <= 12 && 1 <= day <= 28 ==> valid_day(day, month, year),
{
}

/// February has a 29th day exactly in the years divisible by four, and never
/// a 30th.
pub proof fn lemma_february(day: u32, year: i32)
    ensures
        valid_day(day, 2, year) <==> 1 <= day && (day <= 28 || (day == 29 && year % 4 == 0)),
{
}

} // verus!
