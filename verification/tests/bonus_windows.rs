use stat_engine::bonus::{
    check_bonus_eligibility, check_bonus_eligibility_batch, is_in_window, BonusWindow, WeekMoment,
};

fn window(start_day: u8, start_hour: u8, end_day: u8, end_hour: u8) -> BonusWindow {
    BonusWindow { start_day, start_hour, end_day, end_hour }
}

#[test]
fn window_within_the_week() {
    let w = window(2, 9, 4, 17);
    assert!(is_in_window(WeekMoment { weekday: 2, hour: 9 }, w));
    assert!(is_in_window(WeekMoment { weekday: 3, hour: 12 }, w));
    assert!(is_in_window(WeekMoment { weekday: 4, hour: 17 }, w));
    assert!(!is_in_window(WeekMoment { weekday: 1, hour: 12 }, w));
    assert!(!is_in_window(WeekMoment { weekday: 5, hour: 12 }, w));
    assert!(!is_in_window(WeekMoment { weekday: 3, hour: 8 }, w));
    assert!(!is_in_window(WeekMoment { weekday: 3, hour: 18 }, w));
}

#[test]
fn window_over_the_end_of_the_week() {
    let w = window(6, 0, 1, 23);
    assert!(is_in_window(WeekMoment { weekday: 6, hour: 0 }, w));
    assert!(is_in_window(WeekMoment { weekday: 7, hour: 10 }, w));
    assert!(is_in_window(WeekMoment { weekday: 1, hour: 23 }, w));
    assert!(!is_in_window(WeekMoment { weekday: 2, hour: 10 }, w));
    assert!(!is_in_window(WeekMoment { weekday: 5, hour: 10 }, w));
}

#[test]
fn hours_bound_every_day_of_the_window() {
    let w = window(5, 18, 7, 22);
    assert!(!is_in_window(WeekMoment { weekday: 6, hour: 17 }, w));
    assert!(is_in_window(WeekMoment { weekday: 6, hour: 18 }, w));
    assert!(is_in_window(WeekMoment { weekday: 6, hour: 22 }, w));
    assert!(!is_in_window(WeekMoment { weekday: 6, hour: 23 }, w));
    let empty_hours = window(1, 10, 7, 9);
    for hour in 0..24 {
        assert!(!is_in_window(WeekMoment { weekday: 3, hour }, empty_hours));
    }
}

#[test]
fn timestamps_are_read_for_day_and_hour() {
    let w = window(1, 9, 5, 17);
    // 2024-01-01 was a Monday.
    assert!(check_bonus_eligibility("2024-01-01 09:00:00", w));
    assert!(check_bonus_eligibility("2024-01-05 17:59:59", w));
    assert!(!check_bonus_eligibility("2024-01-06 12:00:00", w));
    assert!(!check_bonus_eligibility("2024-01-07 12:00:00", w));
    assert!(!check_bonus_eligibility("2024-01-01 08:59:59", w));
    assert!(!check_bonus_eligibility("2024-01-01 18:00:00", w));
    let weekend = window(6, 0, 7, 23);
    assert!(check_bonus_eligibility("2024-01-06 00:00:00", weekend));
    assert!(check_bonus_eligibility("2024-01-07 23:59:59", weekend));
    assert!(!check_bonus_eligibility("2024-01-08 00:00:00", weekend));
}

#[test]
fn unreadable_timestamps_are_in_no_window() {
    let all = window(1, 0, 7, 23);
    assert!(check_bonus_eligibility("2024-02-29 12:00:00", all));
    assert!(!check_bonus_eligibility("2023-02-29 12:00:00", all));
    assert!(!check_bonus_eligibility("2024-01-01", all));
    assert!(!check_bonus_eligibility("2024-01-01 24:00:00", all));
    assert!(!check_bonus_eligibility("2024-13-01 12:00:00", all));
    assert!(!check_bonus_eligibility("yesterday", all));
    assert!(!check_bonus_eligibility("", all));
    assert!(!check_bonus_eligibility("2024-01-01 12:00:00 trailing", all));
}

#[test]
fn eligibility_batch_keeps_order_and_length() {
    let stamps: Vec<String> = [
        "2024-01-01 10:00:00",
        "bad",
        "2024-01-03 10:00:00",
        "2024-01-06 10:00:00",
        "2024-01-02 23:00:00",
    ]
    .iter()
    .map(|s| s.to_string())
    .collect();
    assert_eq!(
        check_bonus_eligibility_batch(&stamps, 1, 9, 3, 17),
        vec![true, false, true, false, false]
    );
    assert_eq!(
        check_bonus_eligibility_batch(&stamps, 6, 0, 1, 23),
        vec![true, false, false, true, false]
    );
    assert_eq!(check_bonus_eligibility_batch(&Vec::new(), 1, 0, 7, 23), Vec::<bool>::new());
}
