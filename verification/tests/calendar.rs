use chat_leaderboard::calendar::{month_to_date, DayUnit, RecentWindow, MILLIS_PER_DAY};

fn day(year: i32, month: u32, day: u32) -> DayUnit {
    DayUnit { year, month, day }
}

#[test]
fn day_unit_knows_the_calendar() {
    assert_eq!(DayUnit::new(2022, 12, 31), Some(day(2022, 12, 31)));
    assert_eq!(DayUnit::new(2022, 12, 32), None);
    assert_eq!(DayUnit::new(2022, 11, 31), None);
    assert_eq!(DayUnit::new(2022, 11, 30), Some(day(2022, 11, 30)));
    assert_eq!(DayUnit::new(2022, 0, 1), None);
    assert_eq!(DayUnit::new(2022, 13, 1), None);
    assert_eq!(DayUnit::new(2022, 1, 0), None);
    assert_eq!(DayUnit::new(2022, 4, 31), None);
    assert_eq!(DayUnit::new(2022, 6, 31), None);
    assert_eq!(DayUnit::new(2022, 9, 31), None);
    assert_eq!(DayUnit::new(2022, 1, 31), Some(day(2022, 1, 31)));
}

#[test]
fn day_unit_knows_leap_years() {
    assert_eq!(DayUnit::new(2024, 2, 29), Some(day(2024, 2, 29)));
    assert_eq!(DayUnit::new(2023, 2, 29), None);
    assert_eq!(DayUnit::new(2023, 2, 28), Some(day(2023, 2, 28)));
    assert_eq!(DayUnit::new(1900, 2, 29), None);
    assert_eq!(DayUnit::new(2000, 2, 29), Some(day(2000, 2, 29)));
    assert_eq!(DayUnit::new(2024, 2, 30), None);
    assert_eq!(DayUnit::new(0, 2, 29), Some(day(0, 2, 29)));
    assert_eq!(DayUnit::new(-4, 2, 29), Some(day(-4, 2, 29)));
    assert_eq!(DayUnit::new(-1, 2, 29), None);
    assert_eq!(DayUnit::new(-100, 2, 29), None);
    assert_eq!(DayUnit::new(-400, 2, 29), Some(day(-400, 2, 29)));
}

#[test]
fn instant_falls_into_its_utc_day() {
    assert_eq!(DayUnit::containing(0), Some(day(1970, 1, 1)));
    assert_eq!(DayUnit::containing(-1), Some(day(1969, 12, 31)));
    assert_eq!(DayUnit::containing(MILLIS_PER_DAY - 1), Some(day(1970, 1, 1)));
    assert_eq!(DayUnit::containing(MILLIS_PER_DAY), Some(day(1970, 1, 2)));
    assert_eq!(DayUnit::containing(1_671_100_200_000), Some(day(2022, 12, 15)));
    assert_eq!(DayUnit::containing(1_709_251_199_999), Some(day(2024, 2, 29)));
    assert_eq!(DayUnit::containing(1_709_251_200_000), Some(day(2024, 3, 1)));
}

#[test]
fn instant_beyond_the_calendar_has_no_day() {
    assert_eq!(DayUnit::containing(i64::MAX), None);
    assert_eq!(DayUnit::containing(i64::MIN), None);
}

#[test]
fn month_to_date_runs_from_the_first_to_today() {
    let days = month_to_date(day(2022, 12, 3));
    assert_eq!(days, vec![day(2022, 12, 1), day(2022, 12, 2), day(2022, 12, 3)]);
    assert_eq!(month_to_date(day(2024, 2, 1)), vec![day(2024, 2, 1)]);
    assert_eq!(month_to_date(day(2024, 2, 29)).len(), 29);
    assert_eq!(month_to_date(day(2024, 2, 29))[28], day(2024, 2, 29));
    assert!(month_to_date(day(2024, 2, 0)).is_empty());
}

#[test]
fn window_cuts_at_the_start_of_yesterday() {
    let w = RecentWindow::at(1_671_100_200_000).unwrap();
    assert_eq!(w.today, day(2022, 12, 15));
    assert_eq!(w.yesterday, day(2022, 12, 14));
    assert_eq!(w.cutoff_millis, 1_670_976_000_000);
}

#[test]
fn window_at_midnight() {
    let w = RecentWindow::at(1_672_531_200_000).unwrap();
    assert_eq!(w.today, day(2023, 1, 1));
    assert_eq!(w.yesterday, day(2022, 12, 31));
    assert_eq!(w.cutoff_millis, 1_672_444_800_000);
    let w = RecentWindow::at(1_672_531_199_999).unwrap();
    assert_eq!(w.today, day(2022, 12, 31));
    assert_eq!(w.yesterday, day(2022, 12, 30));
    assert_eq!(w.cutoff_millis, 1_672_444_800_000 - MILLIS_PER_DAY);
}

#[test]
fn window_crosses_february_in_a_leap_year() {
    let w = RecentWindow::at(1_709_251_200_000).unwrap();
    assert_eq!(w.today, day(2024, 3, 1));
    assert_eq!(w.yesterday, day(2024, 2, 29));
    assert_eq!(w.cutoff_millis, 1_709_164_800_000);
}

#[test]
fn window_before_the_epoch() {
    let w = RecentWindow::at(-1).unwrap();
    assert_eq!(w.today, day(1969, 12, 31));
    assert_eq!(w.yesterday, day(1969, 12, 30));
    assert_eq!(w.cutoff_millis, -2 * MILLIS_PER_DAY);
    let w = RecentWindow::at(0).unwrap();
    assert_eq!(w.today, day(1970, 1, 1));
    assert_eq!(w.cutoff_millis, -MILLIS_PER_DAY);
}

#[test]
fn window_beyond_the_range_is_none() {
    assert_eq!(RecentWindow::at(i64::MIN), None);
    assert_eq!(RecentWindow::at(i64::MIN + MILLIS_PER_DAY), None);
    assert_eq!(RecentWindow::at(i64::MAX), None);
}
