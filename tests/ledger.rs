use after15::archive::{
    archive_overtime, archive_overtime_full, load_daily_summary_full, DailySummaryFile, DayEntry,
    LedgerDay,
};
use after15::attribution::{attribute_overtime, TodayData};
use after15::calendar::CalDate;
use after15::overtime::DaySlice;
use after15::sessions::{ProjectCount, Session};

fn date(y: i32, m: u32, d: u32) -> CalDate {
    CalDate::from_ymd(y, m, d).unwrap()
}

fn fresh(days: &[(CalDate, u64)]) -> TodayData {
    let sessions = vec![Session {
        project_counts: vec![ProjectCount { name: "p".to_string(), count: 1 }],
        start_time: 0,
        end_time: 1,
        duration_seconds: 1,
    }];
    let slices = vec![days.iter().map(|(d, s)| DaySlice { date: *d, seconds: *s }).collect()];
    attribute_overtime(&sessions, &slices, None)
}

fn entry(micros: i64, processed: bool) -> DayEntry {
    DayEntry {
        micros,
        formatted: String::new(),
        shift: "regular".to_string(),
        processed,
        projects: None,
    }
}

fn day<'a>(l: &'a DailySummaryFile, d: CalDate) -> &'a DayEntry {
    &l.days.iter().find(|x| x.date == d).unwrap().entry
}

fn month(l: &DailySummaryFile, y: i32, m: u32) -> (i128, String) {
    let e = l.months.iter().find(|x| x.year == y && x.month == m).unwrap();
    (e.total_micros, e.formatted.clone())
}

#[test]
fn merge_respects_finalized_days_and_skips_today() {
    let kept = date(2025, 8, 4);
    let open = date(2025, 8, 5);
    let zero = date(2025, 8, 6);
    let new = date(2025, 8, 7);
    let today = date(2025, 8, 8);
    let mut ledger = DailySummaryFile::new();
    ledger.days.push(LedgerDay { date: kept, entry: entry(1_000_000, true) });
    ledger.days.push(LedgerDay { date: open, entry: entry(2_000_000, false) });
    ledger.days.push(LedgerDay { date: zero, entry: entry(0, true) });
    let f = fresh(&[(kept, 60), (open, 120), (zero, 180), (new, 5400), (today, 240)]);
    let (out, updated) = archive_overtime(ledger, &f, today);
    assert_eq!(updated, 3);
    assert_eq!(day(&out, kept).micros, 1_000_000);
    assert_eq!(day(&out, open).micros, 120_000_000);
    assert!(day(&out, open).processed);
    assert_eq!(day(&out, zero).micros, 180_000_000);
    let written = day(&out, new);
    assert_eq!(written.micros, 5_400_000_000);
    assert_eq!(written.formatted, "1:30");
    assert_eq!(written.shift, "regular");
    let projects = written.projects.as_ref().unwrap();
    assert_eq!(projects.len(), 1);
    assert_eq!(projects[0].name, "p");
    assert!(out.days.iter().all(|x| x.date != today));
    assert_eq!(out.version, 2);
    let total = 1_000_000 + 120_000_000 + 180_000_000 + 5_400_000_000;
    assert_eq!(month(&out, 2025, 8), (total, "1:35".to_string()));
}

#[test]
fn merging_twice_equals_merging_once() {
    let a = date(2025, 7, 30);
    let b = date(2025, 8, 2);
    let today = date(2025, 8, 20);
    let mut ledger = DailySummaryFile::new();
    ledger.days.push(LedgerDay { date: a, entry: entry(0, true) });
    let f = fresh(&[(a, 600), (b, 1200)]);
    let (once, n1) = archive_overtime(ledger, &f, today);
    let snapshot: Vec<(i32, i64, String, bool)> = once
        .days
        .iter()
        .map(|d| (d.date.ordinal, d.entry.micros, d.entry.formatted.clone(), d.entry.processed))
        .collect();
    let months: Vec<(i32, u32, i128)> = once.months.iter().map(|m| (m.year, m.month, m.total_micros)).collect();
    let (twice, n2) = archive_overtime(once, &f, today);
    assert_eq!(n1, 2);
    assert_eq!(n2, 0);
    let again: Vec<(i32, i64, String, bool)> = twice
        .days
        .iter()
        .map(|d| (d.date.ordinal, d.entry.micros, d.entry.formatted.clone(), d.entry.processed))
        .collect();
    assert_eq!(snapshot, again);
    let months2: Vec<(i32, u32, i128)> = twice.months.iter().map(|m| (m.year, m.month, m.total_micros)).collect();
    assert_eq!(months, months2);
    assert_eq!(month(&twice, 2025, 7).0, 600_000_000);
    assert_eq!(month(&twice, 2025, 8).0, 1_200_000_000);
}

#[test]
fn full_resync_rebuilds_from_fresh_totals() {
    let a = date(2025, 8, 2);
    let today = date(2025, 8, 3);
    let f = fresh(&[(a, 3600), (today, 60)]);
    let l = archive_overtime_full(&f, today);
    assert_eq!(l.days.len(), 1);
    assert_eq!(day(&l, a).shift, "saturday_afternoon");
    assert_eq!(day(&l, a).formatted, "1:00");
    assert_eq!(month(&l, 2025, 8), (3_600_000_000, "1:00".to_string()));
}

#[test]
fn ledger_reads_back_positive_days() {
    let a = date(2025, 8, 4);
    let b = date(2025, 8, 5);
    let mut ledger = DailySummaryFile::new();
    ledger.days.push(LedgerDay { date: a, entry: entry(0, true) });
    ledger.days.push(LedgerDay { date: b, entry: entry(7, true) });
    let t = load_daily_summary_full(&ledger);
    assert_eq!(t.hours.len(), 1);
    assert_eq!(t.hours[0].date, b);
    assert_eq!(t.hours[0].micros, 7);
}
