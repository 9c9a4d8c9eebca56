//! Calendar dates, held as day numbers counted from 1970-01-01. Parsing,
//! formatting and day arithmetic come from `chrono`.

use crate::text::is_digit;
use chrono::{Days, NaiveDate};
use vstd::prelude::*;

verus! {

/// The day numbers of the dates that `chrono::NaiveDate` can represent
/// (its `MIN` is January 1 of year -262143, its `MAX` December 31 of 262142).
pub open spec fn date_in_range(d: int) -> bool {
    -96465293 <= d <= 95026236
}

/// The day number of the date that `NaiveDate::parse_from_str(s, "%Y-%m-%d")`
/// gives, if it succeeds.
pub uninterp spec fn parsed_ymd(s: Seq<char>) -> Option<i32>;

/// The text that `NaiveDate::format("%Y-%m-%d")` gives for the date with this
/// day number.
pub uninterp spec fn formatted_ymd(days: i32) -> Seq<char>;

/// The day numbers of the dates in the years 0 to 9999: those whose `%Y`
/// chrono writes as four digits without a sign.
pub open spec fn four_digit_year(d: int) -> bool {
    -719528 <= d <= 2932896
}

/// `s` reads `YYYY-MM-DD`: ten characters, all digits but the dashes at 4 and 7.
pub open spec fn ymd_shaped(s: Seq<char>) -> bool {
    &&& s.len() == 10
    &&& s[4] == '-' && s[7] == '-'
    &&& forall|i: int| 0 <= i < 10 && i != 4 && i != 7 ==> is_digit(#[trigger] s[i])
}

/// The `%Y-%m-%d` text of the date with day number `d` reads `YYYY-MM-DD`,
/// and parsing it with the same format gives `d` back.
pub open spec fn reads_back(d: i32) -> bool {
    ymd_shaped(formatted_ymd(d)) && parsed_ymd(formatted_ymd(d)) == Some(d)
}

/// Calls `NaiveDate::parse_from_str(s, "%Y-%m-%d")` and returns the day
/// number of the parsed date. Claimed: the result is the named parse result,
/// and a parsed date lies in chrono's range.
#[verifier::external_body]
fn chrono_parse_ymd(s: &str) -> (r: Option<i32>)
    ensures
        r == parsed_ymd(s@),
        r matches Some(d) ==> date_in_range(d as int),
{
    match NaiveDate::parse_from_str(s, "%Y-%m-%d") {
        Ok(d) => Some(d.to_epoch_days()),
        Err(_) => None,
    }
}

/// Calls `NaiveDate::format` with `"%Y-%m-%d"` on the date with day number
/// `days`. Claimed: the text is the named formatting result; in the years 0
/// to 9999 it is the year zero-padded to four digits, the month and the day
/// zero-padded to two, joined by `-` (chrono's `%Y`, `%m`, `%d`), which the
/// `%Y-%m-%d` parse reads back as the same date.
#[verifier::external_body]
fn chrono_format_ymd(days: i32) -> (r: String)
    requires
        date_in_range(days as int),
    ensures
        r@ == formatted_ymd(days),
        four_digit_year(days as int) ==> ymd_shaped(r@) && parsed_ymd(r@) == Some(days),
{
    NaiveDate::from_epoch_days(days).unwrap().format("%Y-%m-%d").to_string()
}

/// The text that `NaiveDate::format("%Y-%m")` gives for the date with this
/// day number.
pub uninterp spec fn formatted_ym(days: i32) -> Seq<char>;

/// Calls `NaiveDate::format` with `"%Y-%m"` on the date with day number
/// `days`. Claimed: the text is the named formatting result.
#[verifier::external_body]
fn chrono_format_ym(days: i32) -> (r: String)
    requires
        date_in_range(days as int),
    ensures
        r@ == formatted_ym(days),
{
    NaiveDate::from_epoch_days(days).unwrap().format("%Y-%m").to_string()
}

/// Calls `NaiveDate::checked_add_days`. Claimed, as chrono documents: the
/// date `n` days later, or `None` when that date is out of range.
#[verifier::external_body]
fn chrono_add_days(days: i32, n: u32) -> (r: Option<i32>)
    requires
        date_in_range(days as int),
    ensures
        r == (if date_in_range(days + n) {
            Some((days + n) as i32)
        } else {
            None
        }),
{
    match NaiveDate::from_epoch_days(days).unwrap().checked_add_days(Days::new(n as u64)) {
        Some(d) => Some(d.to_epoch_days()),
        None => None,
    }
}

/// A calendar date.
#[derive(Clone, Copy, Debug, PartialEq, Eq, Structural)]
pub struct Date {
    days: i32,
}

impl View for Date {
    type V = int;

    /// The day number: days since 1970-01-01 (negative before it).
    closed spec fn view(&self) -> int {
        self.days as int
    }
}

impl Date {
    #[verifier::type_invariant]
    closed spec fn inv(self) -> bool {
        date_in_range(self.days as int)
    }

    /// Parses `YYYY-MM-DD` as chrono does.
    pub fn parse(s: &str) -> (r: Option<Date>)
        ensures
            r matches Some(d) ==> (parsed_ymd(s@) matches Some(x) && d@ == x),
            r is None <==> parsed_ymd(s@) is None,
    {
        match chrono_parse_ymd(s) {
            Some(days) => Some(Date { days }),
            None => None,
        }
    }

    /// The day number of this date.
    pub fn epoch_days(&self) -> (r: i32)
        ensures
            r == self@,
    {
        self.days
    }

    /// The date `n` days later, or `None` beyond chrono's range.
    pub fn add_days(&self, n: u32) -> (r: Option<Date>)
        ensures
            r matches Some(d) ==> d@ == self@ + n,
            r is None <==> !date_in_range(self@ + n),
    {
        proof {
            use_type_invariant(self);
        }
        match chrono_add_days(self.days, n) {
            Some(days) => Some(Date { days }),
            None => None,
        }
    }

    /// `YYYY-MM-DD`, as chrono formats it. In the years 0 to 9999 the text
    /// parses back as this date.
    pub fn format(&self) -> (r: String)
        ensures
            r@ == formatted_ymd(self@ as i32),
            four_digit_year(self@) ==> reads_back(self@ as i32),
    {
        proof {
            use_type_invariant(self);
        }
        chrono_format_ymd(self.days)
    }

    /// `YYYY-MM`, the year and month as chrono formats them.
    pub fn format_month(&self) -> (r: String)
        ensures
            r@ == formatted_ym(self@ as i32),
    {
        proof {
            use_type_invariant(self);
        }
        chrono_format_ym(self.days)
    }

    /// Days from `today` to this date: positive when it lies ahead.
    pub fn days_since(&self, today: &Date) -> (r: i64)
        ensures
            r == self@ - today@,
    {
        self.days as i64 - today.days as i64
    }

    pub fn before(&self, other: &Date) -> (r: bool)
        ensures
            r == (self@ < other@),
    {
        self.days < other.days
    }

    pub fn same_as(&self, other: &Date) -> (r: bool)
        ensures
            r == (self@ == other@),
    {
        self.days == other.days
    }
}

} // verus!
