use after15::calendar::CalDate;
use after15::overtime::{
    calculate_overtime_for_day, calculate_session_overtime, slice_local_interval, LocalTime,
};
use after15::sessions::{ProjectCount, Session};

fn date(y: i32, m: u32, d: u32) -> CalDate {
    CalDate::from_ymd(y, m, d).unwrap()
}

fn at(d: CalDate, h: u32, m: u32, s: u32) -> LocalTime {
    LocalTime { date: d, seconds: h * 3600 + m * 60 + s }
}

fn hms(h: u32, m: u32, s: u32) -> u32 {
    h * 3600 + m * 60 + s
}

#[test]
fn test_regular_day_no_overtime() {
    let date = date(2025, 8, 4);
    let overtime = calculate_overtime_for_day(date, hms(8, 0, 0), hms(14, 0, 0));
    assert_eq!(overtime, 0);
}

#[test]
fn test_regular_day_with_overtime() {
    let date = date(2025, 8, 4);
    let overtime = calculate_overtime_for_day(date, hms(14, 0, 0), hms(17, 0, 0));
    assert_eq!(overtime, 2 * 3600);
}

#[test]
fn test_weekend_all_overtime() {
    let date = date(2025, 8, 10);
    let overtime = calculate_overtime_for_day(date, hms(10, 0, 0), hms(14, 0, 0));
    assert_eq!(overtime, 4 * 3600);
}

#[test]
fn test_afternoon_shift_before_15() {
    let date = date(2025, 7, 28);
    let overtime = calculate_overtime_for_day(date, hms(10, 0, 0), hms(14, 0, 0));
    assert_eq!(overtime, 4 * 3600);
}

#[test]
fn overtime_on_both_sides_of_the_window() {
    let d = date(2025, 8, 4);
    assert_eq!(calculate_overtime_for_day(d, hms(5, 0, 0), hms(16, 0, 0)), 2 * 3600);
    let sat = date(2025, 8, 2);
    assert_eq!(calculate_overtime_for_day(sat, hms(7, 0, 0), hms(15, 0, 0)), 2 * 3600);
}

#[test]
fn regular_session_inside_window_has_no_overtime() {
    let d = date(2025, 8, 4);
    let slices = slice_local_interval(at(d, 8, 0, 0), at(d, 14, 0, 0));
    assert!(slices.is_empty());
}

#[test]
fn regular_session_after_window_counts_two_hours() {
    let d = date(2025, 8, 4);
    let slices = slice_local_interval(at(d, 14, 0, 0), at(d, 17, 0, 0));
    assert_eq!(slices.len(), 1);
    assert_eq!(slices[0].date, d);
    assert_eq!(slices[0].seconds, 7200);
}

#[test]
fn weekend_session_counts_whole() {
    let d = date(2025, 8, 9);
    let slices = slice_local_interval(at(d, 10, 0, 0), at(d, 14, 0, 0));
    assert_eq!(slices.len(), 1);
    assert_eq!(slices[0].seconds, 4 * 3600);
}

#[test]
fn session_across_midnight_splits_into_two_days() {
    let n = date(2025, 8, 5);
    let n1 = date(2025, 8, 6);
    let slices = slice_local_interval(at(n, 23, 0, 0), at(n1, 1, 0, 0));
    assert_eq!(slices.len(), 2);
    assert_eq!(slices[0].date, n);
    assert_eq!(slices[0].seconds, 3599);
    assert_eq!(slices[1].date, n1);
    assert_eq!(slices[1].seconds, 3600);
}

#[test]
fn multi_day_session_never_exceeds_its_length() {
    let start = at(date(2025, 8, 8), 20, 0, 0);
    let end = at(date(2025, 8, 11), 7, 0, 0);
    let slices = slice_local_interval(start, end);
    let total: u64 = slices.iter().map(|s| s.seconds).sum();
    let length = 3 * 86400 - 13 * 3600;
    assert!(total <= length);
    // Friday 20:00-23:59:59, all of Saturday and Sunday but their last
    // second, and Monday 00:00-06:00.
    assert_eq!(slices.len(), 4);
    assert_eq!(slices[0].seconds, 4 * 3600 - 1);
    assert_eq!(slices[1].seconds, 86399);
    assert_eq!(slices[2].seconds, 86399);
    assert_eq!(slices[3].seconds, 6 * 3600);
}

#[test]
fn session_is_taken_to_warsaw_time() {
    // 2025-08-04 13:00 to 16:00 UTC is 15:00 to 18:00 in Warsaw (UTC+2).
    let start = 1_754_312_400;
    let session = Session {
        project_counts: vec![ProjectCount { name: "p".to_string(), count: 2 }],
        start_time: start,
        end_time: start + 3 * 3600,
        duration_seconds: 3 * 3600,
    };
    let slices = calculate_session_overtime(&session);
    assert_eq!(slices.len(), 1);
    assert_eq!(slices[0].date, date(2025, 8, 4));
    assert_eq!(slices[0].seconds, 3 * 3600);
}

#[test]
fn winter_session_is_taken_to_warsaw_time() {
    // 2025-01-06 13:00 to 15:00 UTC is 14:00 to 16:00 in Warsaw (UTC+1).
    let start = 1_736_168_400;
    let session = Session {
        project_counts: vec![],
        start_time: start,
        end_time: start + 2 * 3600,
        duration_seconds: 2 * 3600,
    };
    let slices = calculate_session_overtime(&session);
    assert_eq!(slices.len(), 1);
    assert_eq!(slices[0].seconds, 3600);
}
