//! What the monitoring side reads: request and response totals, and the
//! rendering of an uptime.

use vstd::prelude::*;
use vstd::string::StringExecFns;
use crate::text::{decimal, decimal_string, push_char, push_decimal};

verus! {

broadcast use vstd::string::group_string_axioms;

/// Totals of the requests taken and the responses given. Both wrap around at
/// the end of their range.
#[derive(Clone, Copy, Debug, PartialEq, Eq, Structural)]
pub struct TrafficCounters {
    pub requests: u64,
    pub responses: u64,
}

/// The successor of a total, wrapping to zero after the largest value.
pub open spec fn next_total(n: u64) -> u64 {
    if n == u64::MAX {
        0
    } else {
        (n + 1) as u64
    }
}

/// An uptime of `seconds` as days, hours, minutes and seconds.
pub open spec fn duration_text(seconds: u64) -> Seq<char> {
    decimal((seconds / 86400) as nat) + "d "@ + decimal(((seconds % 86400) / 3600) as nat) + "h "@
        + decimal(((seconds % 3600) / 60) as nat) + "m "@ + decimal((seconds % 60) as nat) + "s"@
}

/// The text shown where the clock cannot be read.
pub const NO_TIMESTAMP: &'static str = "----/--/-- --:--:--";

/// The decimal rendering of `n`, with zeros in front up to `width` digits.
pub open spec fn padded(n: nat, width: nat) -> Seq<char> {
    if decimal(n).len() >= width {
        decimal(n)
    } else {
        zeros((width - decimal(n).len()) as nat) + decimal(n)
    }
}

/// A run of `count` zeros.
pub open spec fn zeros(count: nat) -> Seq<char> {
    Seq::new(count, |i: int| '0')
}

/// The days of a month, counted from zero, in a year without a leap day.
pub open spec fn month_days(month: int) -> int {
    if month == 1 {
        28
    } else if month == 3 || month == 5 || month == 8 || month == 10 {
        30
    } else {
        31
    }
}

/// The month, counted from zero, and the day of the month on which the
/// `day`-th day falls when counting starts at the first of `month`.
pub open spec fn month_and_day(month: int, day: int) -> (int, int)
    decreases 12 - month,
{
    if 0 <= month < 12 && day > month_days(month) {
        month_and_day(month + 1, day - month_days(month))
    } else {
        (month, day)
    }
}

/// A date and time of day for `seconds` since the start of 1970, in a
/// calendar in which every year has 365 days.
pub open spec fn timestamp_text(seconds: u64) -> Seq<char> {
    let days = seconds / 86400;
    let of_day = seconds % 86400;
    let date = month_and_day(0, days % 365 + 1);
    padded((1970 + days / 365) as nat, 4) + "-"@ + padded((date.0 + 1) as nat, 2) + "-"@ + padded(
        date.1 as nat,
        2,
    ) + " "@ + padded((of_day / 3600) as nat, 2) + ":"@ + padded((of_day % 3600 / 60) as nat, 2)
        + ":"@ + padded((of_day % 60) as nat, 2)
}

impl TrafficCounters {
    /// Both totals at zero.
    pub fn new() -> (out: TrafficCounters)
        ensures
            out.requests == 0,
            out.responses == 0,
    {
        TrafficCounters { requests: 0, responses: 0 }
    }
}

/// Counts one request.
pub fn increment_request_counter(counters: &mut TrafficCounters)
    ensures
        final(counters).requests == next_total(old(counters).requests),
        final(counters).responses == old(counters).responses,
{
    counters.requests = if counters.requests == u64::MAX {
        0
    } else {
        counters.requests + 1
    };
}

/// Counts one response.
pub fn increment_response_counter(counters: &mut TrafficCounters)
    ensures
        final(counters).responses == next_total(old(counters).responses),
        final(counters).requests == old(counters).requests,
{
    counters.responses = if counters.responses == u64::MAX {
        0
    } else {
        counters.responses + 1
    };
}

/// Renders an uptime, as in `1d 2h 3m 4s`.
pub fn format_duration(seconds: u64) -> (out: String)
    ensures
        out@ == duration_text(seconds),
{
    let mut out: String = String::new();
    push_decimal(&mut out, seconds / 86400);
    out.append("d ");
    push_decimal(&mut out, (seconds % 86400) / 3600);
    out.append("h ");
    push_decimal(&mut out, (seconds % 3600) / 60);
    out.append("m ");
    push_decimal(&mut out, seconds % 60);
    out.append("s");
    assert(out@ =~= duration_text(seconds));
    out
}

/// Appends `n` in decimal, with zeros in front up to `width` digits.
pub fn push_padded(s: &mut String, n: u64, width: usize)
    ensures
        final(s)@ == old(s)@ + padded(n as nat, width as nat),
{
    let digits: String = decimal_string(n);
    let length: usize = digits.as_str().unicode_len();
    let mut count: usize = 0;
    assert(s@ =~= old(s)@ + zeros(0));
    while count + length < width
        invariant
            length == decimal(n as nat).len(),
            count + length <= width || count == 0,
            s@ == old(s)@ + zeros(count as nat),
        decreases width - length - count,
    {
        push_char(s, '0');
        count += 1;
        assert(s@ =~= old(s)@ + zeros(count as nat));
    }
    s.append(digits.as_str());
    assert(s@ =~= old(s)@ + padded(n as nat, width as nat));
}

fn days_of_month(month: u64) -> (days: u64)
    ensures
        days == month_days(month as int),
{
    if month == 1 {
        28
    } else if month == 3 || month == 5 || month == 8 || month == 10 {
        30
    } else {
        31
    }
}

/// Renders a clock reading, given in seconds since the start of 1970, as
/// date and time of day; without a reading, dashes stand in their place.
pub fn get_current_timestamp(since_epoch: Option<u64>) -> (out: String)
    ensures
        out@ == match since_epoch {
            Some(seconds) => timestamp_text(seconds),
            None => NO_TIMESTAMP@,
        },
{
    let seconds: u64 = match since_epoch {
        Some(seconds) => seconds,
        None => {
            return String::from_str(NO_TIMESTAMP);
        },
    };
    let of_day: u64 = seconds % 86400;
    let days: u64 = seconds / 86400;
    let mut month: u64 = 0;
    let mut day: u64 = days % 365 + 1;
    while month < 12 && day > days_of_month(month)
        invariant
            month <= 12,
            1 <= day <= 365,
            month_and_day(0, days % 365 + 1) == month_and_day(month as int, day as int),
        decreases 12 - month,
    {
        day -= days_of_month(month);
        month += 1;
    }
    let mut out: String = String::new();
    push_padded(&mut out, 1970 + days / 365, 4);
    out.append("-");
    push_padded(&mut out, month + 1, 2);
    out.append("-");
    push_padded(&mut out, day, 2);
    out.append(" ");
    push_padded(&mut out, of_day / 3600, 2);
    out.append(":");
    push_padded(&mut out, of_day % 3600 / 60, 2);
    out.append(":");
    push_padded(&mut out, of_day % 60, 2);
    assert(out@ =~= timestamp_text(seconds));
    out
}

} // verus!
