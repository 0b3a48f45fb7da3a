use after15::calendar::{
    get_regular_work_window, get_shift_type, is_afternoon_shift_period, is_overtime_hour,
    is_saturday, is_saturday_regular_hours, is_weekend, shift_name, CalDate, ShiftType,
};

fn date(y: i32, m: u32, d: u32) -> CalDate {
    CalDate::from_ymd(y, m, d).unwrap()
}

#[test]
fn test_afternoon_shift_first_period() {
    let mon = date(2025, 7, 28);
    let sat = date(2025, 8, 2);
    let sun = date(2025, 8, 3);

    assert!(is_afternoon_shift_period(mon));
    assert!(is_afternoon_shift_period(sat));
    assert!(!is_afternoon_shift_period(sun));
}

#[test]
fn test_afternoon_shift_second_cycle() {
    let second_cycle_start = date(2025, 8, 18);
    assert!(is_afternoon_shift_period(second_cycle_start));
}

#[test]
fn test_regular_week() {
    let regular_day = date(2025, 8, 4);
    assert!(!is_afternoon_shift_period(regular_day));
    assert_eq!(get_shift_type(regular_day), ShiftType::Regular);
}

#[test]
fn test_weekend() {
    let sunday = date(2025, 8, 10);
    assert!(is_weekend(sunday));
    assert_eq!(get_shift_type(sunday), ShiftType::Weekend);
}

#[test]
fn test_saturday_during_afternoon_shift() {
    let sat = date(2025, 8, 2);
    assert!(is_saturday_regular_hours(sat));
    assert_eq!(get_shift_type(sat), ShiftType::SaturdayAfternoon);
}

#[test]
fn invalid_dates_are_rejected() {
    assert!(CalDate::from_ymd(2025, 2, 29).is_none());
    assert!(CalDate::from_ymd(2025, 13, 1).is_none());
    assert!(CalDate::from_ymd(2025, 4, 31).is_none());
    assert!(CalDate::from_ymd(2024, 2, 29).is_some());
}

#[test]
fn day_numbers_follow_the_calendar() {
    assert_eq!(date(1, 1, 1).ordinal, 1);
    assert_eq!(date(2025, 7, 28).ordinal, 739460);
    assert_eq!(date(2025, 7, 28).ymd(), (2025, 7, 28));
    assert_eq!(date(2024, 2, 29).ymd(), (2024, 2, 29));
}

#[test]
fn weekdays_of_known_dates() {
    assert!(is_saturday(date(2025, 8, 9)));
    assert!(!is_saturday(date(2025, 8, 10)));
    assert!(is_weekend(date(1970, 1, 3)));
    assert!(!is_weekend(date(2025, 8, 8)));
}

#[test]
fn no_afternoon_period_before_the_anchor() {
    // The Monday three weeks before the anchor would be a cycle start if the
    // cycle reached back.
    let earlier = date(2025, 7, 7);
    assert!(!is_afternoon_shift_period(earlier));
    assert_eq!(get_shift_type(earlier), ShiftType::Regular);
    assert_eq!(get_shift_type(date(2025, 7, 12)), ShiftType::Weekend);
}

#[test]
fn calendar_repeats_every_three_weeks() {
    let mut d = date(2025, 7, 28).ordinal;
    let end = d + 200;
    while d < end {
        let a = get_shift_type(CalDate { ordinal: d });
        let b = get_shift_type(CalDate { ordinal: d + 21 });
        assert_eq!(a, b);
        d += 1;
    }
}

#[test]
fn afternoon_period_spans_monday_to_saturday() {
    assert_eq!(get_shift_type(date(2025, 7, 30)), ShiftType::Afternoon);
    assert_eq!(get_shift_type(date(2025, 8, 1)), ShiftType::Afternoon);
    assert_eq!(get_shift_type(date(2025, 8, 3)), ShiftType::Weekend);
    assert_eq!(get_shift_type(date(2025, 8, 23)), ShiftType::SaturdayAfternoon);
}

#[test]
fn work_windows_per_shift() {
    let regular = get_regular_work_window(date(2025, 8, 4)).unwrap();
    assert_eq!((regular.start, regular.end), (6 * 3600, 15 * 3600));
    let afternoon = get_regular_work_window(date(2025, 7, 29)).unwrap();
    assert_eq!((afternoon.start, afternoon.end), (15 * 3600, 21 * 3600));
    let saturday = get_regular_work_window(date(2025, 8, 2)).unwrap();
    assert_eq!((saturday.start, saturday.end), (8 * 3600, 14 * 3600));
    assert!(get_regular_work_window(date(2025, 8, 10)).is_none());
}

#[test]
fn overtime_instants() {
    let regular = date(2025, 8, 4);
    assert!(is_overtime_hour(regular, 5 * 3600 + 3599));
    assert!(!is_overtime_hour(regular, 6 * 3600));
    assert!(!is_overtime_hour(regular, 15 * 3600 - 1));
    assert!(is_overtime_hour(regular, 15 * 3600));
    assert!(is_overtime_hour(date(2025, 8, 10), 12 * 3600));
}

#[test]
fn shift_names_in_the_ledger() {
    assert_eq!(shift_name(ShiftType::Regular), "regular");
    assert_eq!(shift_name(ShiftType::Afternoon), "afternoon");
    assert_eq!(shift_name(ShiftType::Weekend), "weekend");
    assert_eq!(shift_name(ShiftType::SaturdayAfternoon), "saturday_afternoon");
}
