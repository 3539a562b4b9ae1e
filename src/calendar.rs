use vstd::prelude::*;

use crate::decimal::{decimal_of, decimal_string, digit_char};

verus! {

/// Seconds in one day bucket.
pub const SECS_PER_DAY: u64 = 86400;

/// The day bucket of a moment: whole days since the epoch.
pub open spec fn day_of(now: u64) -> u64 {
    now / SECS_PER_DAY
}

/// Number of whole days since the epoch at `now` (seconds since the epoch).
pub fn day_bucket(now: u64) -> (r: u64)
    ensures
        r == day_of(now),
{
    now / SECS_PER_DAY
}

/// The storage key of the day bucket of `now`: its number in decimal.
pub fn format_date_storage(now: u64) -> (r: String)
    ensures
        r@ == decimal_of(day_of(now) as nat),
{
    decimal_string(day_bucket(now))
}

/// Days in month `m` (0 for January), ignoring leap years.
pub open spec fn month_len_of(m: int) -> int {
    seq![31int, 28, 31, 30, 31, 30, 31, 31, 30, 31, 30, 31][m]
}

pub open spec fn month_name(m: int) -> Seq<char> {
    seq![
        seq!['J', 'a', 'n'],
        seq!['F', 'e', 'b'],
        seq!['M', 'a', 'r'],
        seq!['A', 'p', 'r'],
        seq!['M', 'a', 'y'],
        seq!['J', 'u', 'n'],
        seq!['J', 'u', 'l'],
        seq!['A', 'u', 'g'],
        seq!['S', 'e', 'p'],
        seq!['O', 'c', 't'],
        seq!['N', 'o', 'v'],
        seq!['D', 'e', 'c'],
    ][m - 1]
}

/// The year of a day count and the days left into it, in the simplified
/// calendar: 365-day years, with one day taken off for every four years.
pub open spec fn year_and_rest(days: int) -> (int, int) {
    let years = days / 365;
    let rest = days - years * 365 - years / 4;
    if rest < 0 {
        (1970 + years - 1, rest + 365)
    } else {
        (1970 + years, rest)
    }
}

/// The month (1 to 12) and day that `day` days into the year fall on, walking
/// from month `m` (0 for January); past December it stays on 31 December.
pub open spec fn month_walk(day: int, m: int) -> (int, int)
    decreases 12 - m,
{
    if m >= 12 {
        (12, 31)
    } else if day <= month_len_of(m) {
        (m + 1, day)
    } else {
        month_walk(day - month_len_of(m), m + 1)
    }
}

/// Day, month (1 to 12) and year of a timestamp in the simplified calendar.
pub open spec fn date_parts(timestamp: u64) -> (int, int, int) {
    let (year, rest) = year_and_rest(timestamp as int / SECS_PER_DAY as int);
    let (month, day) = month_walk(rest, 0);
    (day, month, year)
}

/// The day written with at least two characters, as `{:02}` writes it.
pub open spec fn day_text(d: int) -> Seq<char> {
    if 0 <= d < 10 {
        seq!['0', digit_char(d)]
    } else if d < 0 {
        seq!['-'] + decimal_of((-d) as nat)
    } else {
        decimal_of(d as nat)
    }
}

/// `"DD Mon YYYY"` for a timestamp.
pub open spec fn display_of(timestamp: u64) -> Seq<char> {
    let (d, m, y) = date_parts(timestamp);
    day_text(d) + seq![' '] + month_name(m) + seq![' '] + decimal_of(y as nat)
}

fn month_len(m: usize) -> (r: i64)
    requires
        m < 12,
    ensures
        r == month_len_of(m as int),
{
    if m == 1 {
        28
    } else if m == 3 || m == 5 || m == 8 || m == 10 {
        30
    } else {
        31
    }
}

fn month_str(m: usize) -> (r: &'static str)
    requires
        1 <= m <= 12,
    ensures
        r@ == month_name(m as int),
{
    proof {
        reveal_strlit("Jan");
        reveal_strlit("Feb");
        reveal_strlit("Mar");
        reveal_strlit("Apr");
        reveal_strlit("May");
        reveal_strlit("Jun");
        reveal_strlit("Jul");
        reveal_strlit("Aug");
        reveal_strlit("Sep");
        reveal_strlit("Oct");
        reveal_strlit("Nov");
        reveal_strlit("Dec");
    }
    if m == 1 {
        "Jan"
    } else if m == 2 {
        "Feb"
    } else if m == 3 {
        "Mar"
    } else if m == 4 {
        "Apr"
    } else if m == 5 {
        "May"
    } else if m == 6 {
        "Jun"
    } else if m == 7 {
        "Jul"
    } else if m == 8 {
        "Aug"
    } else if m == 9 {
        "Sep"
    } else if m == 10 {
        "Oct"
    } else if m == 11 {
        "Nov"
    } else {
        "Dec"
    }
}

/// Day, month (1 to 12) and year of `timestamp` in the simplified calendar.
pub fn date_of(timestamp: u64) -> (r: (i64, u64, u64))
    ensures
        (r.0 as int, r.1 as int, r.2 as int) == date_parts(timestamp),
        1 <= r.1 <= 12,
        r.0 > -1000000000000,
{
    let days = timestamp / SECS_PER_DAY;
    let years = days / 365;
    assert(days <= 213503982334601) by (nonlinear_arith)
        requires days == timestamp / 86400;
    assert(years * 365 <= days && years <= 600000000000) by (nonlinear_arith)
        requires years == days / 365, days <= 213503982334601;
    let mut rest: i64 = (days - years * 365) as i64 - (years / 4) as i64;
    let mut year: u64 = 1970 + years;
    if rest < 0 {
        year = year - 1;
        rest = rest + 365;
    }
    let ghost start = rest as int;
    assert((year as int, start) == year_and_rest(days as int));
    let mut m: usize = 0;
    let mut day: i64 = rest;
    while m < 12 && day > month_len(m)
        invariant
            m <= 12,
            month_walk(start, 0) == month_walk(day as int, m as int),
            day <= start,
            day >= start || day >= 0,
            start > -1000000000000,
        decreases 12 - m,
    {
        day = day - month_len(m);
        m = m + 1;
    }
    if m == 12 {
        (31, 12, year)
    } else {
        (day, (m + 1) as u64, year)
    }
}

/// The timestamp as `"DD Mon YYYY"`, in a simplified calendar meant for display
/// only: 365-day years, one day taken off for every four years, and fixed month
/// lengths with no leap day.
pub fn format_date_display(timestamp: u64) -> (r: String)
    ensures
        r@ == display_of(timestamp),
{
    let (d, m, y) = date_of(timestamp);
    let mut s: String = if 0 <= d && d < 10 {
        proof {
            reveal_strlit("0");
        }
        let mut t = String::from_str("0");
        t.append(decimal_string(d as u64).as_str());
        t
    } else if d < 0 {
        proof {
            reveal_strlit("-");
        }
        let mut t = String::from_str("-");
        t.append(decimal_string((0 - d) as u64).as_str());
        t
    } else {
        decimal_string(d as u64)
    };
    proof {
        reveal_strlit(" ");
    }
    s.append(" ");
    s.append(month_str(m as usize));
    s.append(" ");
    s.append(decimal_string(y).as_str());
    s
}

} // verus!
