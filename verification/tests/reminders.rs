use implore::app::{IntentionCadence, IntentionColor, Prayer, PrayerStatus};
use implore::prayer_log::PrayerLogEntry;
use implore::reminder::{
    add_days, calendar_range, clamp_calendar_date, days_in_month, is_due, is_future,
    is_leap_year, plan_digests, select_today, weekday, CivilDate, CivilDateTime,
    DIGEST_HORIZON_DAYS,
};

fn scheduled_prayer(intention: &str, cadence: IntentionCadence) -> Prayer {
    Prayer {
        id: 0,
        intention: intention.into(),
        details: None,
        tags: vec![],
        status: PrayerStatus::Active,
        cadence,
        saint_id: None,
        color: IntentionColor::Unset,
        novena_start: None,
        prayed_on: Vec::new(),
    }
}

fn dt(year: i32, month: u32, day: u32, hour: u32, minute: u32) -> CivilDateTime {
    CivilDateTime {
        date: CivilDate { year, month, day },
        hour,
        minute,
    }
}

fn date(year: i32, month: u32, day: u32) -> CivilDate {
    CivilDate { year, month, day }
}

#[test]
fn weekday_matches_sunday_and_monday() {
    // 2026-08-12 is a Wednesday
    assert_eq!(weekday(CivilDate { year: 2026, month: 8, day: 12 }), 4);
    // 2026-08-16 is a Sunday
    assert_eq!(weekday(CivilDate { year: 2026, month: 8, day: 16 }), 1);
}

#[test]
fn daily_is_due_every_day() {
    let prayer = scheduled_prayer("Mom", IntentionCadence::Daily);
    let date = CivilDate {
        year: 2026,
        month: 8,
        day: 12,
    };
    assert!(is_due(&prayer, date));
}

#[test]
fn weekly_is_due_on_sunday_only() {
    let prayer = scheduled_prayer("Parish", IntentionCadence::Weekly);
    assert!(!is_due(&prayer, date(2026, 8, 12)));
    assert!(is_due(&prayer, date(2026, 8, 16)));
}

#[test]
fn monthly_is_due_on_first_only() {
    let prayer = scheduled_prayer("Souls", IntentionCadence::Monthly);
    assert!(!is_due(&prayer, date(2026, 8, 12)));
    assert!(is_due(&prayer, date(2026, 9, 1)));
}

#[test]
fn archived_and_unscheduled_are_never_due() {
    let mut prayer = scheduled_prayer("Mom", IntentionCadence::Daily);
    prayer.status = PrayerStatus::Archived;
    assert!(!is_due(&prayer, date(2026, 8, 12)));

    let unscheduled = scheduled_prayer("Dad", IntentionCadence::Unscheduled);
    assert!(!is_due(&unscheduled, date(2026, 8, 12)));
}

#[test]
fn plan_skips_past_times_and_empty_days() {
    let prayers = vec![scheduled_prayer("Mom", IntentionCadence::Daily)];
    let now = dt(2026, 8, 12, 9, 0);
    let digests = plan_digests(&prayers, 8, 0, now, 3);
    assert_eq!(digests.len(), 2);
    assert_eq!(digests[0].day, 13);
    assert_eq!(digests[0].intentions, vec!["Mom".to_string()]);
}

#[test]
fn plan_groups_multiple_intentions_same_day() {
    let prayers = vec![
        scheduled_prayer("Mom", IntentionCadence::Daily),
        scheduled_prayer("Dad", IntentionCadence::Daily),
    ];
    let now = dt(2026, 8, 12, 7, 0);
    let digests = plan_digests(&prayers, 8, 0, now, 1);
    assert_eq!(digests.len(), 1);
    assert_eq!(digests[0].intentions.len(), 2);
}

#[test]
fn plan_weekly_only_on_sundays_in_horizon() {
    let prayers = vec![scheduled_prayer("Parish", IntentionCadence::Weekly)];
    let now = dt(2026, 8, 12, 7, 0); // Wed
    let digests = plan_digests(&prayers, 8, 0, now, 14);
    assert_eq!(digests.len(), 2);
    assert_eq!(digests[0].day, 16);
    assert_eq!(digests[1].day, 23);
}

// ---------------------------------------------------------------------------
// Further cases
// ---------------------------------------------------------------------------

#[test]
fn novena_is_due_on_nine_days_from_start() {
    let mut prayer = scheduled_prayer("Peace", IntentionCadence::Novena);
    prayer.novena_start = Some(date(2026, 8, 28));
    assert!(!is_due(&prayer, date(2026, 8, 27)));
    assert!(is_due(&prayer, date(2026, 8, 28)));
    // The ninth day crosses into September.
    assert!(is_due(&prayer, date(2026, 9, 5)));
    assert!(!is_due(&prayer, date(2026, 9, 6)));

    prayer.novena_start = None;
    assert!(!is_due(&prayer, date(2026, 8, 28)));
}

#[test]
fn plan_is_empty_without_prayers_or_horizon() {
    let prayers = vec![scheduled_prayer("Mom", IntentionCadence::Daily)];
    let now = dt(2026, 8, 12, 7, 0);
    assert!(plan_digests(&prayers, 8, 0, now, 0).is_empty());
    assert!(plan_digests(&Vec::new(), 8, 0, now, DIGEST_HORIZON_DAYS).is_empty());
}

#[test]
fn plan_keeps_fire_time_and_date_fields() {
    let prayers = vec![scheduled_prayer("Mom", IntentionCadence::Daily)];
    let now = dt(2026, 12, 31, 7, 0);
    let digests = plan_digests(&prayers, 21, 30, now, 2);
    assert_eq!(digests.len(), 2);
    assert_eq!(
        (digests[0].year, digests[0].month, digests[0].day, digests[0].hour, digests[0].minute),
        (2026, 12, 31, 21, 30)
    );
    assert_eq!((digests[1].year, digests[1].month, digests[1].day), (2027, 1, 1));
}

#[test]
fn plan_skips_a_fire_time_equal_to_now() {
    let prayers = vec![scheduled_prayer("Mom", IntentionCadence::Daily)];
    let digests = plan_digests(&prayers, 8, 0, dt(2026, 8, 12, 8, 0), 2);
    assert_eq!(digests.len(), 1);
    assert_eq!(digests[0].day, 13);
}

#[test]
fn is_future_compares_date_then_time() {
    assert!(is_future(dt(2026, 8, 12, 8, 1), dt(2026, 8, 12, 8, 0)));
    assert!(!is_future(dt(2026, 8, 12, 8, 0), dt(2026, 8, 12, 8, 0)));
    assert!(is_future(dt(2026, 8, 13, 0, 0), dt(2026, 8, 12, 23, 59)));
    assert!(!is_future(dt(2025, 12, 31, 23, 59), dt(2026, 1, 1, 0, 0)));
}

#[test]
fn add_days_crosses_months_years_and_leap_days() {
    assert_eq!(add_days(date(2026, 8, 12), 0), date(2026, 8, 12));
    assert_eq!(add_days(date(2026, 1, 31), 1), date(2026, 2, 1));
    assert_eq!(add_days(date(2024, 2, 28), 1), date(2024, 2, 29));
    assert_eq!(add_days(date(2026, 2, 28), 1), date(2026, 3, 1));
    assert_eq!(add_days(date(2026, 12, 31), 1), date(2027, 1, 1));
    assert_eq!(add_days(date(2026, 8, 12), 365), date(2027, 8, 12));
}

#[test]
fn adding_days_in_two_steps_is_adding_them_at_once() {
    let starts = [date(2024, 2, 27), date(2026, 12, 30), date(1999, 1, 31), date(2026, 8, 12)];
    for start in starts {
        for a in [0u32, 1, 2, 29, 31, 365, 400] {
            for b in [0u32, 1, 3, 28, 59, 366] {
                assert_eq!(add_days(add_days(start, a), b), add_days(start, a + b));
            }
        }
    }
}

#[test]
fn adding_days_reaches_the_last_years() {
    assert_eq!(add_days(date(i32::MAX - 1, 1, 1), 7), date(i32::MAX - 1, 1, 8));
    assert_eq!(add_days(date(i32::MAX - 1, 12, 31), 1), date(i32::MAX, 1, 1));
    assert_eq!(add_days(date(i32::MAX, 12, 24), 7), date(i32::MAX, 12, 31));
}

#[test]
fn weekday_advances_by_one_per_day() {
    let start = date(2026, 8, 12);
    for n in 0..30u32 {
        assert_eq!(weekday(add_days(start, n)), (weekday(start) - 1 + n) % 7 + 1);
    }
    // 2000-01-01 was a Saturday.
    assert_eq!(weekday(date(2000, 1, 1)), 7);
}

#[test]
fn leap_years_and_month_lengths() {
    assert!(is_leap_year(2024));
    assert!(!is_leap_year(2026));
    assert!(!is_leap_year(1900));
    assert!(is_leap_year(2000));
    assert_eq!(days_in_month(2024, 2), 29);
    assert_eq!(days_in_month(2026, 2), 28);
    assert_eq!(days_in_month(2026, 4), 30);
    assert_eq!(days_in_month(2026, 12), 31);
}

#[test]
fn calendar_range_is_one_year_either_side() {
    assert_eq!(
        calendar_range(date(2026, 8, 15)),
        (date(2025, 8, 15), date(2027, 8, 15))
    );
    // 29 February maps to 28 February in the neighbouring years.
    assert_eq!(
        calendar_range(date(2024, 2, 29)),
        (date(2023, 2, 28), date(2025, 2, 28))
    );
}

#[test]
fn clamp_calendar_date_keeps_days_in_range() {
    let today = date(2026, 8, 15);
    assert_eq!(clamp_calendar_date(date(2020, 1, 1), today), date(2025, 8, 15));
    assert_eq!(clamp_calendar_date(date(2030, 1, 1), today), date(2027, 8, 15));
    assert_eq!(clamp_calendar_date(date(2026, 1, 1), today), date(2026, 1, 1));
    assert_eq!(clamp_calendar_date(date(2027, 8, 15), today), date(2027, 8, 15));
}

fn logged(day: u32, hour: u32) -> PrayerLogEntry {
    PrayerLogEntry {
        year: 2026,
        month: 8,
        day,
        hour,
        minute: 0,
    }
}

#[test]
fn select_today_lists_due_never_prayed_first_then_least_recent() {
    let mut recent = scheduled_prayer("Recent", IntentionCadence::Daily);
    recent.id = 1;
    recent.prayed_on = vec![logged(11, 20)];
    let mut older = scheduled_prayer("Older", IntentionCadence::Daily);
    older.id = 2;
    older.prayed_on = vec![logged(11, 7), logged(10, 9)];
    let mut never = scheduled_prayer("Never", IntentionCadence::Daily);
    never.id = 3;
    let mut weekly = scheduled_prayer("Weekly", IntentionCadence::Weekly);
    weekly.id = 4;

    let prayers = vec![recent, older, never, weekly];
    let today = select_today(&prayers, date(2026, 8, 12));
    let names: Vec<&str> = today.iter().map(|p| p.intention.as_str()).collect();
    assert_eq!(names, vec!["Never", "Older", "Recent"]);
}

#[test]
fn select_today_keeps_list_order_among_equals() {
    let mut a = scheduled_prayer("A", IntentionCadence::Daily);
    a.id = 1;
    let mut b = scheduled_prayer("B", IntentionCadence::Daily);
    b.id = 2;
    let today = select_today(&vec![a, b], date(2026, 8, 12));
    assert_eq!(today.iter().map(|p| p.id).collect::<Vec<_>>(), vec![1, 2]);
}
