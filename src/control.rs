use vstd::prelude::*;

use crate::calendar::{display_of, format_date_display};
use crate::decimal::{decimal_of, decimal_string};
use crate::registry::{trim_blanks, trim_range};
use crate::store::{cutoff_of, sum_since, DailyRecord, KeystrokeData, MONTH_SECS, WEEK_SECS};

verus! {

/// Which parts the statistics command shows.
#[derive(Clone, Copy, Debug, PartialEq, Eq, Structural)]
pub struct StatsSections {
    pub daily: bool,
    pub weekly: bool,
    pub monthly: bool,
}

/// The parts that the statistics command shows for its flags: the daily view
/// where asked for, or where no summary was asked for.
pub fn stats_sections(daily: bool, weekly: bool, monthly: bool) -> (r: StatsSections)
    ensures
        r.daily == (daily || (!weekly && !monthly)),
        r.weekly == weekly,
        r.monthly == monthly,
{
    StatsSections { daily: daily || (!weekly && !monthly), weekly, monthly }
}

/// Whether an answer to the reset prompt confirms it: `y` or `Y`, whitespace
/// around it allowed. Anything else declines.
pub fn reset_confirmed(answer: &str) -> (r: bool)
    ensures
        r == (trim_blanks(answer@) == seq!['y'] || trim_blanks(answer@) == seq!['Y']),
{
    let (lo, hi) = trim_range(answer);
    if hi - lo != 1 {
        assert(trim_blanks(answer@).len() != 1);
        return false;
    }
    let c = answer.get_char(lo);
    let ghost t = trim_blanks(answer@);
    assert(t[0] == c);
    if c == 'y' || c == 'Y' {
        assert(t =~= seq![c]);
        true
    } else {
        assert(t != seq!['y'] && t != seq!['Y']) by {
            if t == seq!['y'] {
                assert(t[0] == 'y');
            }
            if t == seq!['Y'] {
                assert(t[0] == 'Y');
            }
        }
        false
    }
}

pub open spec fn header_text() -> Seq<char> {
    "╭────────────────────────────────────╮\n│   Keystroke Counter Statistics     │\n╰────────────────────────────────────╯\n\nTotal Keystrokes: "@
}

pub open spec fn record_line(r: DailyRecord) -> Seq<char> {
    display_of(r.timestamp) + ": "@ + decimal_of(r.count as nat) + " keystrokes\n"@
}

/// One line per record, the last record first.
pub open spec fn record_lines_newest_first(rs: Seq<DailyRecord>) -> Seq<char>
    decreases rs.len(),
{
    if rs.len() == 0 {
        Seq::empty()
    } else {
        record_lines_newest_first(rs.drop_first()) + record_line(rs[0])
    }
}

/// The text of the export report of a store at `now`.
pub open spec fn report_of(d: KeystrokeData, now: u64) -> Seq<char> {
    header_text() + decimal_of(d.total_count as nat) + "\n\nDaily Records:\n────────────────────────────────────\n"@
        + record_lines_newest_first(d@.records) + "\nWeekly Summary (7 days):  "@ + decimal_of(
        sum_since(d@.records, cutoff_of(now, WEEK_SECS)) as nat,
    ) + " keystrokes\nMonthly Summary (30 days): "@ + decimal_of(
        sum_since(d@.records, cutoff_of(now, MONTH_SECS)) as nat,
    ) + " keystrokes\n"@
}

/// The export report: the total, every record from the last one stored back to
/// the first, and the weekly and monthly sums at `now`.
pub fn export_report(d: &KeystrokeData, now: u64) -> (r: String)
    requires
        d.wf(),
    ensures
        r@ == report_of(*d, now),
{
    let mut s = String::from_str(
        "╭────────────────────────────────────╮\n│   Keystroke Counter Statistics     │\n╰────────────────────────────────────╯\n\nTotal Keystrokes: ",
    );
    s.append(decimal_string(d.total_count).as_str());
    s.append("\n\nDaily Records:\n────────────────────────────────────\n");
    let ghost prefix = s@;
    let ghost rs = d@.records;
    let mut i: usize = d.daily_records.len();
    while i > 0
        invariant
            rs == d@.records,
            i <= rs.len(),
            s@ == prefix + record_lines_newest_first(rs.subrange(i as int, rs.len() as int)),
        decreases i,
    {
        let r = d.daily_records[i - 1];
        let ghost line_start = s@;
        s.append(format_date_display(r.timestamp).as_str());
        s.append(": ");
        s.append(decimal_string(r.count).as_str());
        s.append(" keystrokes\n");
        proof {
            let t = rs.subrange(i - 1, rs.len() as int);
            assert(t.drop_first() =~= rs.subrange(i as int, rs.len() as int));
            assert(t[0] == r);
            assert(s@ =~= line_start + record_line(r));
        }
        i = i - 1;
    }
    assert(rs.subrange(0, rs.len() as int) =~= rs);
    s.append("\nWeekly Summary (7 days):  ");
    s.append(decimal_string(d.get_weekly_stats(now)).as_str());
    s.append(" keystrokes\nMonthly Summary (30 days): ");
    s.append(decimal_string(d.get_monthly_stats(now)).as_str());
    s.append(" keystrokes\n");
    s
}

} // verus!
