use after15::sessions::{build_sessions_from_records, TimestampRecord};

fn rec(t: i64, p: &str) -> TimestampRecord {
    TimestampRecord { timestamp: t, project: p.to_string() }
}

fn count_of(s: &after15::sessions::Session, name: &str) -> usize {
    s.project_counts.iter().find(|c| c.name == name).map(|c| c.count).unwrap_or(0)
}

#[test]
fn empty_input_gives_no_session() {
    assert!(build_sessions_from_records(&vec![]).is_empty());
}

#[test]
fn single_event_is_discarded() {
    assert!(build_sessions_from_records(&vec![rec(1000, "a")]).is_empty());
}

#[test]
fn short_session_is_discarded() {
    let records = vec![rec(1000, "a"), rec(1240, "a")];
    assert!(build_sessions_from_records(&records).is_empty());
}

#[test]
fn forty_minute_gap_splits_sessions() {
    let t0 = 1_754_300_000;
    let records = vec![
        rec(t0, "a"),
        rec(t0 + 300, "a"),
        rec(t0 + 300 + 2400, "b"),
        rec(t0 + 300 + 2400 + 300, "b"),
    ];
    let sessions = build_sessions_from_records(&records);
    assert_eq!(sessions.len(), 2);
    assert_eq!(sessions[0].start_time, t0);
    assert_eq!(sessions[0].end_time, t0 + 300);
    assert_eq!(sessions[0].duration_seconds, 300);
    assert_eq!(sessions[1].start_time, t0 + 2700);
    assert_eq!(count_of(&sessions[1], "b"), 2);
    assert_eq!(count_of(&sessions[1], "a"), 0);
}

#[test]
fn gap_of_exactly_the_threshold_keeps_one_session() {
    let records = vec![rec(0, "a"), rec(1800, "a"), rec(3600, "b")];
    let sessions = build_sessions_from_records(&records);
    assert_eq!(sessions.len(), 1);
    assert_eq!(sessions[0].duration_seconds, 3600);
    assert_eq!(count_of(&sessions[0], "a"), 2);
    assert_eq!(count_of(&sessions[0], "b"), 1);
}

#[test]
fn interleaved_sources_share_one_timeline() {
    let records = vec![
        rec(0, "a"),
        rec(1000, "b"),
        rec(2000, "a"),
        rec(3000, "transcripts"),
        rec(4000, "b"),
    ];
    let sessions = build_sessions_from_records(&records);
    assert_eq!(sessions.len(), 1);
    assert_eq!(count_of(&sessions[0], "a"), 2);
    assert_eq!(count_of(&sessions[0], "b"), 2);
    assert_eq!(count_of(&sessions[0], "transcripts"), 1);
    assert_eq!(sessions[0].project_counts.len(), 3);
}

#[test]
fn permuted_events_give_the_same_sessions_after_sorting() {
    let mut a = vec![rec(100, "x"), rec(5000, "y"), rec(400, "y"), rec(7000, "x"), rec(100, "y")];
    let mut b = vec![rec(7000, "x"), rec(100, "y"), rec(400, "y"), rec(100, "x"), rec(5000, "y")];
    a.sort_by_key(|r| r.timestamp);
    b.sort_by_key(|r| r.timestamp);
    let sa = build_sessions_from_records(&a);
    let sb = build_sessions_from_records(&b);
    assert_eq!(sa.len(), sb.len());
    for (x, y) in sa.iter().zip(sb.iter()) {
        assert_eq!(x.start_time, y.start_time);
        assert_eq!(x.end_time, y.end_time);
        for c in &x.project_counts {
            assert_eq!(count_of(y, &c.name), c.count);
        }
        assert_eq!(x.project_counts.len(), y.project_counts.len());
    }
}
