use keystr::calendar::{date_of, day_bucket, format_date_display, format_date_storage};
use keystr::control::{export_report, reset_confirmed, stats_sections};
use keystr::daemon::{Daemon, DaemonAction, DaemonEvent, Phase};
use keystr::decimal::{decimal_string, parse_u64};
use keystr::persist::{load_data, StoredData, StoredRecord};
use keystr::registry::{judge_pid, parse_pid, pid_file_text, registry_pid, RegistryCheck};
use keystr::store::{DailyRecord, KeystrokeData};
use std::sync::{Arc, Mutex};

const DAY: u64 = 86400;

fn rec(day: u64, count: u64, timestamp: u64) -> DailyRecord {
    DailyRecord { day, count, timestamp }
}

#[test]
fn same_day_increments_count_in_one_record() {
    let mut d = KeystrokeData::new();
    let base = 19000 * DAY + 100;
    for k in 0..37u64 {
        d.increment(base + k * 60);
    }
    assert_eq!(d.total_count, 37);
    assert_eq!(d.daily_records, vec![rec(19000, 37, base)]);
}

#[test]
fn new_day_gets_its_own_record() {
    let mut d = KeystrokeData::new();
    d.increment(19000 * DAY + 5);
    d.increment(19000 * DAY + 6);
    d.increment(19001 * DAY + 7);
    assert_eq!(d.total_count, 3);
    assert_eq!(
        d.daily_records,
        vec![rec(19000, 2, 19000 * DAY + 5), rec(19001, 1, 19001 * DAY + 7)]
    );
}

#[test]
fn windowed_sum_counts_records_inside_the_window() {
    let now = 100 * DAY;
    let d = KeystrokeData {
        total_count: 15,
        daily_records: vec![
            rec(92, 1, now - 8 * DAY),
            rec(93, 2, now - 7 * DAY),
            rec(95, 4, now - 5 * DAY),
            rec(100, 8, now),
        ],
    };
    assert_eq!(d.windowed_sum(now, 604800), 14);
    assert_eq!(d.get_weekly_stats(now), 14);
    assert_eq!(d.get_monthly_stats(now), 15);
    assert_eq!(d.windowed_sum(now, 0), 8);
}

#[test]
fn windowed_sum_saturates_when_now_is_below_the_window() {
    let d = KeystrokeData {
        total_count: 10,
        daily_records: vec![rec(0, 3, 0), rec(1, 7, 500)],
    };
    assert_eq!(d.windowed_sum(1000, 604800), 10);
    assert_eq!(d.get_weekly_stats(1000), 10);
}

#[test]
fn weekly_stats_ignore_old_records() {
    let now = 20000 * DAY;
    let d = KeystrokeData {
        total_count: 14,
        daily_records: vec![rec(19997, 5, now - 3 * DAY), rec(19960, 9, now - 40 * DAY)],
    };
    assert_eq!(d.get_weekly_stats(now), 5);
    assert_eq!(d.get_monthly_stats(now), 5);
}

#[test]
fn daily_stats_newest_first_and_truncated() {
    let d = KeystrokeData {
        total_count: 10,
        daily_records: vec![rec(1, 1, 100), rec(3, 3, 300), rec(2, 2, 200), rec(4, 4, 400)],
    };
    assert_eq!(d.get_daily_stats(2), vec![rec(4, 4, 400), rec(3, 3, 300)]);
    assert_eq!(
        d.get_daily_stats(7),
        vec![rec(4, 4, 400), rec(3, 3, 300), rec(2, 2, 200), rec(1, 1, 100)]
    );
    assert_eq!(d.get_daily_stats(0), vec![]);
    assert_eq!(KeystrokeData::new().get_daily_stats(7), vec![]);
}

#[test]
fn daily_stats_keep_order_of_equal_timestamps() {
    let d = KeystrokeData {
        total_count: 3,
        daily_records: vec![rec(1, 1, 50), rec(2, 1, 50), rec(3, 1, 60)],
    };
    assert_eq!(d.get_daily_stats(3), vec![rec(3, 1, 60), rec(1, 1, 50), rec(2, 1, 50)]);
}

#[test]
fn stored_form_round_trips() {
    let mut d = KeystrokeData::new();
    d.increment(19000 * DAY + 1);
    d.increment(19000 * DAY + 2);
    d.increment(19003 * DAY + 9);
    let s = d.to_stored();
    assert_eq!(s.total_count, 3);
    assert_eq!(s.daily_records[0].date, "19000");
    assert_eq!(s.daily_records[1].date, "19003");
    let back = load_data(Some(&s));
    assert_eq!(back.total_count, d.total_count);
    assert_eq!(back.daily_records, d.daily_records);
    let again = load_data(Some(&back.to_stored()));
    assert_eq!(again.daily_records, d.daily_records);
}

fn stored(total: u64, recs: Vec<(&str, u64, u64)>) -> StoredData {
    StoredData {
        total_count: total,
        daily_records: recs
            .into_iter()
            .map(|(date, count, timestamp)| StoredRecord { date: date.to_string(), count, timestamp })
            .collect(),
    }
}

#[test]
fn missing_file_loads_empty_store() {
    let d = load_data(None);
    assert_eq!(d.total_count, 0);
    assert!(d.daily_records.is_empty());
}

#[test]
fn malformed_content_loads_empty_store() {
    let bad_date = stored(5, vec![("19000", 2, 1), ("nineteen", 3, 2)]);
    let d = KeystrokeData::from_stored(&bad_date);
    assert_eq!(d.total_count, 0);
    assert!(d.daily_records.is_empty());

    let duplicate_day = stored(5, vec![("19000", 2, 1), ("19000", 3, 2)]);
    assert_eq!(load_data(Some(&duplicate_day)).total_count, 0);

    let over_total = stored(4, vec![("19000", 2, 1), ("19001", 3, 2)]);
    assert!(load_data(Some(&over_total)).daily_records.is_empty());

    let good = stored(5, vec![("19000", 2, 1), ("019001", 3, 2)]);
    let d = load_data(Some(&good));
    assert_eq!(d.total_count, 5);
    assert_eq!(d.daily_records, vec![rec(19000, 2, 1), rec(19001, 3, 2)]);
}

#[test]
fn well_formedness_check() {
    assert!(KeystrokeData::new().is_well_formed());
    let dup = KeystrokeData { total_count: 9, daily_records: vec![rec(1, 1, 1), rec(1, 1, 2)] };
    assert!(!dup.is_well_formed());
    let over = KeystrokeData { total_count: 1, daily_records: vec![rec(1, 1, 1), rec(2, 1, 2)] };
    assert!(!over.is_well_formed());
}

#[test]
fn stale_pid_reads_as_not_running() {
    let pid = registry_pid(Some("4242\n")).unwrap();
    assert_eq!(pid, 4242);
    let dead = judge_pid(pid, false);
    assert_eq!(dead, RegistryCheck::Stale);
    assert_eq!(dead.running_pid(), None);
    assert!(dead.clears_file());
    let live = judge_pid(pid, true);
    assert_eq!(live.running_pid(), Some(4242));
    assert!(!live.clears_file());
    assert_eq!(RegistryCheck::Absent.running_pid(), None);
}

#[test]
fn pid_file_text_and_parsing() {
    assert_eq!(pid_file_text(31337), "31337");
    assert_eq!(parse_pid(&pid_file_text(4294967295)), Some(4294967295));
    assert_eq!(parse_pid("  77 \r\n"), Some(77));
    assert_eq!(parse_pid("4294967296"), None);
    assert_eq!(parse_pid(""), None);
    assert_eq!(parse_pid("12a"), None);
    assert_eq!(registry_pid(None), None);
}

#[test]
fn concurrent_callbacks_never_lose_a_press() {
    let shared = Arc::new(Mutex::new(Daemon::start(KeystrokeData::new())));
    let callbacks: Vec<Arc<Mutex<Daemon>>> = (0..4).map(|_| Arc::clone(&shared)).collect();
    for round in 0..50u64 {
        for (i, cb) in callbacks.iter().enumerate() {
            let mut daemon = cb.lock().unwrap();
            daemon.step(DaemonEvent::KeyPress(19000 * DAY + round * 4 + i as u64));
        }
    }
    let daemon = shared.lock().unwrap();
    assert_eq!(daemon.store.total_count, 200);
    assert_eq!(daemon.store.daily_records, vec![rec(19000, 200, 19000 * DAY)]);
}

#[test]
fn start_25_presses_stop_persists_25() {
    let mut daemon = Daemon::start(load_data(None));
    let mut on_disk: Option<StoredData> = None;
    let mut persisted_at = Vec::new();
    for k in 1..=25u64 {
        let action = daemon.step(DaemonEvent::KeyPress(19000 * DAY + k));
        if action == DaemonAction::Persist {
            on_disk = Some(daemon.store.to_stored());
            persisted_at.push(k);
        } else {
            assert_eq!(action, DaemonAction::Continue);
        }
    }
    assert_eq!(persisted_at, vec![10, 20]);
    assert_eq!(on_disk.as_ref().unwrap().total_count, 20);
    let action = daemon.step(DaemonEvent::Terminate);
    assert_eq!(action, DaemonAction::Shutdown);
    on_disk = Some(daemon.store.to_stored());
    assert_eq!(daemon.phase, Phase::Terminated);
    let reloaded = load_data(on_disk.as_ref());
    assert_eq!(reloaded.total_count, 25);
    assert_eq!(daemon.step(DaemonEvent::KeyPress(19000 * DAY + 99)), DaemonAction::Continue);
    assert_eq!(daemon.store.total_count, 25);
}

#[test]
fn hook_failure_aborts() {
    let mut daemon = Daemon::start(KeystrokeData::new());
    assert_eq!(daemon.step(DaemonEvent::HookFailed), DaemonAction::Abort);
    assert_eq!(daemon.phase, Phase::Terminated);
    assert_eq!(daemon.step(DaemonEvent::Terminate), DaemonAction::Continue);
}

#[test]
fn full_counter_stops_counting() {
    let full = KeystrokeData { total_count: u64::MAX, daily_records: vec![] };
    let mut daemon = Daemon::start(full);
    assert_eq!(daemon.step(DaemonEvent::KeyPress(5)), DaemonAction::Continue);
    assert_eq!(daemon.store.total_count, u64::MAX);
    assert!(daemon.store.daily_records.is_empty());
}

#[test]
fn day_buckets_and_storage_keys() {
    assert_eq!(day_bucket(0), 0);
    assert_eq!(day_bucket(DAY - 1), 0);
    assert_eq!(day_bucket(DAY), 1);
    assert_eq!(format_date_storage(19000 * DAY + 5), "19000");
    assert_eq!(format_date_storage(19000 * DAY + DAY - 1), "19000");
    assert_eq!(format_date_storage(0), "0");
}

#[test]
fn display_dates() {
    assert_eq!(format_date_display(0), "00 Jan 1970");
    assert_eq!(format_date_display(31 * DAY), "31 Jan 1970");
    assert_eq!(format_date_display(32 * DAY), "01 Feb 1970");
    assert_eq!(format_date_display(1710720000), "18 Mar 2024");
    assert_eq!(format_date_display(364 * DAY), "30 Dec 1970");
    assert_eq!(date_of(1710720000), (18, 3, 2024));
}

#[test]
fn display_date_far_future_keeps_format() {
    let s = format_date_display(u64::MAX);
    let parts: Vec<&str> = s.split(' ').collect();
    assert_eq!(parts.len(), 3);
    assert!(parts[0].len() >= 2);
    assert_eq!(parts[1].len(), 3);
}

#[test]
fn decimal_spelling_and_reading() {
    assert_eq!(decimal_string(0), "0");
    assert_eq!(decimal_string(1234), "1234");
    assert_eq!(decimal_string(u64::MAX), "18446744073709551615");
    assert_eq!(parse_u64("18446744073709551615"), Some(u64::MAX));
    assert_eq!(parse_u64("18446744073709551616"), None);
    assert_eq!(parse_u64("007"), Some(7));
    assert_eq!(parse_u64(""), None);
    assert_eq!(parse_u64("-1"), None);
}

#[test]
fn reset_prompt_answers() {
    assert!(reset_confirmed("y\n"));
    assert!(reset_confirmed("  Y  "));
    assert!(!reset_confirmed("yes"));
    assert!(!reset_confirmed("n"));
    assert!(!reset_confirmed(""));
    assert!(!reset_confirmed("\n"));
}

#[test]
fn stats_sections_default_to_daily() {
    let s = stats_sections(false, false, false);
    assert!(s.daily && !s.weekly && !s.monthly);
    let s = stats_sections(false, true, false);
    assert!(!s.daily && s.weekly && !s.monthly);
    let s = stats_sections(true, false, true);
    assert!(s.daily && !s.weekly && s.monthly);
}

#[test]
fn export_report_text() {
    let d = KeystrokeData {
        total_count: 12,
        daily_records: vec![rec(0, 3, 0), rec(1, 9, DAY)],
    };
    let report = export_report(&d, 40 * DAY);
    let expected = "╭────────────────────────────────────╮\n\
│   Keystroke Counter Statistics     │\n\
╰────────────────────────────────────╯\n\n\
Total Keystrokes: 12\n\n\
Daily Records:\n\
────────────────────────────────────\n\
01 Jan 1970: 9 keystrokes\n\
00 Jan 1970: 3 keystrokes\n\
\nWeekly Summary (7 days):  0 keystrokes\n\
Monthly Summary (30 days): 0 keystrokes\n";
    assert_eq!(report, expected);
    let recent = export_report(&d, 2 * DAY);
    assert!(recent.ends_with("Weekly Summary (7 days):  12 keystrokes\nMonthly Summary (30 days): 12 keystrokes\n"));
}

#[test]
fn pid_text_trims_unicode_whitespace_and_plus() {
    assert_eq!(registry_pid(Some("\u{0B}77")), Some(77));
    assert_eq!(parse_pid("\u{3000}\u{A0}42\u{2028}\u{85}"), Some(42));
    assert_eq!(parse_pid(" +77\n"), Some(77));
    assert_eq!(parse_pid("+"), None);
    assert_eq!(parse_pid("++7"), None);
    assert_eq!(parse_pid("-7"), None);
    assert_eq!(parse_pid("\u{200B}7"), None);
}

#[test]
fn reset_prompt_trims_unicode_whitespace() {
    assert!(reset_confirmed("\u{0B}y"));
    assert!(reset_confirmed("\u{2003}Y\u{85}"));
    assert!(!reset_confirmed("\u{0B}"));
}
