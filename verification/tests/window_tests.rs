use rezervo_cache::date::{from_ymd, Date};
use rezervo_cache::window::{
    get_current_iso_week, get_next_iso_week, week_window_of, window_computable,
};

fn date(y: u32, m: u32, d: u32) -> Date {
    from_ymd(y, m, d).expect("valid date")
}

#[test]
fn window_of_midweek_date() {
    let w = week_window_of(&date(2024, 1, 3));
    assert_eq!(w.start, date(2024, 1, 1));
    assert_eq!(w.end, date(2024, 1, 7));
    assert_eq!((w.year, w.week), (2024, 1));
}

#[test]
fn window_starts_on_monday_and_spans_seven_days() {
    for d in [
        date(2024, 1, 1),
        date(2024, 1, 7),
        date(2020, 12, 31),
        date(2023, 1, 1),
        date(1999, 12, 31),
    ] {
        let w = week_window_of(&d);
        assert_eq!(w.start.weekday_from_monday(), 0);
        assert_eq!(w.end, w.start.add_days(6));
        assert!(w.start.day_number() <= d.day_number());
        assert!(d.day_number() <= w.end.day_number());
    }
}

#[test]
fn window_crossing_a_year_boundary() {
    let w = week_window_of(&date(2020, 12, 31));
    assert_eq!(w.start, date(2020, 12, 28));
    assert_eq!(w.end, date(2021, 1, 3));
    assert_eq!((w.year, w.week), (2020, 53));
}

#[test]
fn current_week_of_monday_starts_there() {
    let w = get_current_iso_week(&date(2024, 1, 1));
    assert_eq!(w.start, date(2024, 1, 1));
    assert_eq!(w.end, date(2024, 1, 7));
    assert_eq!((w.year, w.week), (2024, 1));
}

#[test]
fn next_week_is_exactly_one_week_ahead() {
    let today = date(2024, 1, 3);
    let current = get_current_iso_week(&today);
    let next = get_next_iso_week(&today);
    assert_eq!(next.start, current.start.add_days(7));
    assert_eq!(next.start, date(2024, 1, 8));
    assert_eq!(next.end, date(2024, 1, 14));
    assert_eq!((next.year, next.week), (2024, 2));
    // Disjoint: the next window starts after the current one ends.
    assert!(current.end.day_number() < next.start.day_number());
}

#[test]
fn next_week_across_a_year_boundary() {
    let next = get_next_iso_week(&date(2024, 12, 26));
    assert_eq!(next.start, date(2024, 12, 30));
    assert_eq!((next.year, next.week), (2025, 1));
}

#[test]
fn computability_of_ordinary_and_extreme_dates() {
    assert!(window_computable(&date(2024, 1, 1)));
    assert!(window_computable(&date(9999, 12, 1)));
    assert!(!window_computable(&date(9999, 12, 31)));
}
