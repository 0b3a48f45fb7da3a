use after15::attribution::{attribute_overtime, TodayData};
use after15::calendar::CalDate;
use after15::engine::{load_overtime_from_records, load_sessions_for_date, overlay_recent};
use after15::overtime::DaySlice;
use after15::sessions::{ProjectCount, Session, TimestampRecord};

fn date(y: i32, m: u32, d: u32) -> CalDate {
    CalDate::from_ymd(y, m, d).unwrap()
}

fn session(counts: &[(&str, usize)]) -> Session {
    Session {
        project_counts: counts
            .iter()
            .map(|(n, c)| ProjectCount { name: n.to_string(), count: *c })
            .collect(),
        start_time: 0,
        end_time: 3600,
        duration_seconds: 3600,
    }
}

fn hours_of(t: &TodayData, d: CalDate) -> Option<i64> {
    t.hours.iter().find(|h| h.date == d).map(|h| h.micros)
}

fn project_of(t: &TodayData, d: CalDate, name: &str) -> Option<(i64, i64)> {
    t.projects
        .iter()
        .find(|p| p.date == d && p.name == name)
        .map(|p| (p.weekday_micros, p.weekend_micros))
}

#[test]
fn overtime_is_split_by_event_share() {
    let d = date(2025, 8, 4);
    let sessions = vec![session(&[("a", 3), ("b", 1), ("transcripts", 5)])];
    let slices = vec![vec![DaySlice { date: d, seconds: 3600 }]];
    let t = attribute_overtime(&sessions, &slices, None);
    assert_eq!(hours_of(&t, d), Some(3_600_000_000));
    assert_eq!(project_of(&t, d, "a"), Some((2_700_000_000, 0)));
    assert_eq!(project_of(&t, d, "b"), Some((900_000_000, 0)));
    assert_eq!(project_of(&t, d, "transcripts"), None);
}

#[test]
fn background_only_session_goes_to_unknown_at_weekend_rate() {
    let d = date(2025, 8, 10);
    let sessions = vec![session(&[("transcripts", 4)])];
    let slices = vec![vec![DaySlice { date: d, seconds: 1800 }]];
    let t = attribute_overtime(&sessions, &slices, None);
    assert_eq!(project_of(&t, d, "unknown"), Some((0, 1_800_000_000)));
}

#[test]
fn sessions_add_up_per_day() {
    let d = date(2025, 8, 4);
    let e = date(2025, 8, 5);
    let sessions = vec![session(&[("a", 1)]), session(&[("a", 1), ("b", 1)])];
    let slices = vec![
        vec![DaySlice { date: d, seconds: 600 }, DaySlice { date: e, seconds: 60 }],
        vec![DaySlice { date: d, seconds: 1200 }],
    ];
    let t = attribute_overtime(&sessions, &slices, None);
    assert_eq!(hours_of(&t, d), Some(1_800_000_000));
    assert_eq!(hours_of(&t, e), Some(60_000_000));
    assert_eq!(project_of(&t, d, "a"), Some((1_200_000_000, 0)));
    assert_eq!(project_of(&t, d, "b"), Some((600_000_000, 0)));
}

#[test]
fn date_filter_drops_other_days() {
    let d = date(2025, 8, 4);
    let e = date(2025, 8, 5);
    let sessions = vec![session(&[("a", 1)])];
    let slices = vec![vec![DaySlice { date: d, seconds: 600 }, DaySlice { date: e, seconds: 60 }]];
    let t = attribute_overtime(&sessions, &slices, Some(e));
    assert_eq!(hours_of(&t, d), None);
    assert_eq!(hours_of(&t, e), Some(60_000_000));
    assert_eq!(t.hours.len(), 1);
}

#[test]
fn records_to_day_totals() {
    // 2025-08-04 13:00 UTC (15:00 in Warsaw), a two-hour session of one project.
    let t0 = 1_754_312_400;
    let mut records = Vec::new();
    let mut t = t0;
    while t <= t0 + 7200 {
        records.push(TimestampRecord { timestamp: t, project: "p".to_string() });
        t += 600;
    }
    let data = load_overtime_from_records(records.clone(), None).unwrap();
    let d = date(2025, 8, 4);
    assert_eq!(hours_of(&data, d), Some(7_200_000_000));
    assert_eq!(project_of(&data, d, "p"), Some((7_200_000_000, 0)));
    let sessions = load_sessions_for_date(records.clone(), d);
    assert_eq!(sessions.len(), 1);
    assert!(load_sessions_for_date(records, date(2025, 8, 5)).is_empty());
}

#[test]
fn recent_data_fills_gaps_and_replaces_today() {
    let d = date(2025, 8, 4);
    let today = date(2025, 8, 6);
    let older = date(2025, 8, 1);
    let base_sessions = vec![session(&[("a", 1)])];
    let base_slices = vec![vec![DaySlice { date: d, seconds: 100 }, DaySlice { date: today, seconds: 5 }]];
    let base = attribute_overtime(&base_sessions, &base_slices, None);
    let recent_sessions = vec![session(&[("b", 1)])];
    let recent_slices = vec![vec![
        DaySlice { date: older, seconds: 7 },
        DaySlice { date: d, seconds: 200 },
        DaySlice { date: today, seconds: 50 },
    ]];
    let recent = attribute_overtime(&recent_sessions, &recent_slices, None);
    let merged = overlay_recent(base, &recent, today);
    assert_eq!(hours_of(&merged, d), Some(100_000_000));
    assert_eq!(hours_of(&merged, today), Some(50_000_000));
    assert_eq!(hours_of(&merged, older), Some(7_000_000));
    assert_eq!(project_of(&merged, d, "a"), Some((100_000_000, 0)));
    assert_eq!(project_of(&merged, d, "b"), None);
    assert_eq!(project_of(&merged, today, "a"), None);
    assert_eq!(project_of(&merged, today, "b"), Some((50_000_000, 0)));
}

#[test]
fn arrival_order_does_not_matter() {
    let t0 = 1_754_312_400;
    let mk = |t: i64, p: &str| TimestampRecord { timestamp: t, project: p.to_string() };
    let a = vec![mk(t0, "x"), mk(t0 + 600, "y"), mk(t0 + 1200, "x"), mk(t0 + 9000, "y"), mk(t0 + 9600, "y")];
    let b = vec![mk(t0 + 9600, "y"), mk(t0 + 1200, "x"), mk(t0 + 9000, "y"), mk(t0, "x"), mk(t0 + 600, "y")];
    let da = load_overtime_from_records(a, None).unwrap();
    let db = load_overtime_from_records(b, None).unwrap();
    let d = date(2025, 8, 4);
    assert_eq!(hours_of(&da, d), hours_of(&db, d));
    assert_eq!(hours_of(&da, d), Some(1_800_000_000));
    assert_eq!(project_of(&da, d, "x"), project_of(&db, d, "x"));
    assert_eq!(project_of(&da, d, "y"), project_of(&db, d, "y"));
    assert_eq!(project_of(&da, d, "x"), Some((800_000_000, 0)));
}
