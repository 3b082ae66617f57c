use implore::liturgical::{
    ash_wednesday, baptism_of_the_lord, christ_the_king, easter_offset, epiphany,
    first_sunday_of_advent, is_ordinary_time, liturgical_day_for, ordinary_time_week,
    ordinary_time_weekday, pentecost, subtract_days, sunday_of_ordinary_time_week, western_easter,
    LiturgicalDay,
};
use implore::reminder::{add_days, weekday, CivilDate};

fn date(year: i32, month: u32, day: u32) -> CivilDate {
    CivilDate { year, month, day }
}

#[test]
fn western_easter_known_years() {
    assert_eq!(western_easter(2025), date(2025, 4, 20));
    assert_eq!(western_easter(2026), date(2026, 4, 5));
    assert_eq!(western_easter(2027), date(2027, 3, 28));
}

#[test]
fn western_easter_is_always_sunday() {
    for year in 1900..=2100 {
        let easter = western_easter(year);
        assert_eq!(
            weekday(easter),
            1,
            "Easter {year} should fall on a Sunday, got {:?}",
            easter
        );
    }
}

#[test]
fn easter_offset_pentecost_is_49_days_after() {
    for year in [2025, 2026, 2027] {
        assert_eq!(
            easter_offset(year, 49),
            add_days(western_easter(year), 49),
            "Pentecost offset for {year}"
        );
    }
}

#[test]
fn easter_offset_ash_wednesday_is_46_days_before() {
    for year in [2025, 2026, 2027] {
        assert_eq!(
            easter_offset(year, -46),
            subtract_days(western_easter(year), 46),
            "Ash Wednesday offset for {year}"
        );
    }
}

#[test]
fn us_epiphany_and_baptism_known_years() {
    assert_eq!(epiphany(2024), date(2024, 1, 7));
    assert_eq!(baptism_of_the_lord(2024), date(2024, 1, 8));
    assert_eq!(epiphany(2025), date(2025, 1, 5));
    assert_eq!(baptism_of_the_lord(2025), date(2025, 1, 12));
    assert_eq!(epiphany(2026), date(2026, 1, 4));
    assert_eq!(baptism_of_the_lord(2026), date(2026, 1, 11));
}

#[test]
fn first_sunday_of_advent_known_years() {
    assert_eq!(first_sunday_of_advent(2024), date(2024, 12, 1));
    assert_eq!(first_sunday_of_advent(2025), date(2025, 11, 30));
    assert_eq!(first_sunday_of_advent(2026), date(2026, 11, 29));
    assert_eq!(first_sunday_of_advent(2027), date(2027, 11, 28));
}

#[test]
fn ordinary_time_sundays_2026() {
    assert_eq!(sunday_of_ordinary_time_week(2026, 1), None);
    assert_eq!(sunday_of_ordinary_time_week(2026, 2), Some(date(2026, 1, 18)));
    assert_eq!(sunday_of_ordinary_time_week(2026, 6), Some(date(2026, 2, 15)));
    assert_eq!(sunday_of_ordinary_time_week(2026, 7), None);
    assert_eq!(sunday_of_ordinary_time_week(2026, 8), None);
    assert_eq!(sunday_of_ordinary_time_week(2026, 11), Some(date(2026, 6, 14)));
    assert_eq!(sunday_of_ordinary_time_week(2026, 18), Some(date(2026, 8, 2)));
    assert_eq!(sunday_of_ordinary_time_week(2026, 19), Some(date(2026, 8, 9)));
    assert_eq!(sunday_of_ordinary_time_week(2026, 34), Some(date(2026, 11, 22)));
}

#[test]
fn thursday_of_19th_week_in_ordinary_time() {
    assert_eq!(ordinary_time_weekday(2025, 19, 5), Some(date(2025, 8, 14)));
    assert_eq!(ordinary_time_weekday(2026, 19, 5), Some(date(2026, 8, 13)));
    assert_eq!(ordinary_time_weekday(2027, 19, 5), Some(date(2027, 8, 12)));
}

#[test]
fn weekdays_resume_after_pentecost_2026() {
    assert_eq!(ordinary_time_weekday(2026, 8, 1), None);
    assert_eq!(ordinary_time_weekday(2026, 8, 2), Some(date(2026, 5, 25)));
    assert_eq!(ordinary_time_weekday(2026, 8, 5), Some(date(2026, 5, 28)));
    assert_eq!(ordinary_time_weekday(2026, 7, 5), None);
}

#[test]
fn ordinary_time_week_round_trip() {
    let thursday = ordinary_time_weekday(2026, 19, 5).expect("week 19 Thursday");
    assert_eq!(ordinary_time_week(thursday), Some(19));
    assert_eq!(weekday(thursday), 5);
    assert!(is_ordinary_time(thursday));
    assert!(!is_ordinary_time(ash_wednesday(2026)));
    assert!(!is_ordinary_time(pentecost(2026)));
    assert!(!is_ordinary_time(baptism_of_the_lord(2026)));
}

#[test]
fn skipped_week_when_easter_is_early_2027() {
    assert_eq!(sunday_of_ordinary_time_week(2027, 5), Some(date(2027, 2, 7)));
    assert_eq!(sunday_of_ordinary_time_week(2027, 6), None);
    assert_eq!(sunday_of_ordinary_time_week(2027, 7), None);
    assert_eq!(ordinary_time_weekday(2027, 7, 2), Some(date(2027, 5, 17)));
}

#[test]
fn liturgical_day_for_thursday_of_19th_week() {
    assert_eq!(
        liturgical_day_for(date(2026, 8, 13)),
        LiturgicalDay::OrdinaryTime {
            week: 19,
            weekday: 5
        }
    );
    assert_eq!(
        liturgical_day_for(date(2025, 8, 14)),
        LiturgicalDay::OrdinaryTime {
            week: 19,
            weekday: 5
        }
    );
}

#[test]
fn liturgical_day_for_named_days_2026() {
    assert_eq!(liturgical_day_for(date(2026, 4, 5)), LiturgicalDay::EasterSunday);
    assert_eq!(liturgical_day_for(date(2026, 5, 24)), LiturgicalDay::Pentecost);
    assert_eq!(liturgical_day_for(date(2026, 2, 18)), LiturgicalDay::AshWednesday);
    assert_eq!(liturgical_day_for(date(2026, 1, 4)), LiturgicalDay::Epiphany);
    assert_eq!(liturgical_day_for(date(2026, 1, 11)), LiturgicalDay::BaptismOfTheLord);
    assert_eq!(liturgical_day_for(date(2026, 5, 31)), LiturgicalDay::TrinitySunday);
    assert_eq!(liturgical_day_for(date(2026, 6, 7)), LiturgicalDay::CorpusChristi);
    assert_eq!(liturgical_day_for(date(2026, 3, 29)), LiturgicalDay::PalmSunday);
    assert_eq!(liturgical_day_for(date(2026, 11, 22)), LiturgicalDay::ChristTheKing);
    assert_eq!(liturgical_day_for(date(2026, 12, 25)), LiturgicalDay::ChristmasDay);
}

#[test]
fn liturgical_day_for_seasons_2026() {
    assert_eq!(
        liturgical_day_for(date(2026, 2, 19)),
        LiturgicalDay::AfterAshWednesday { weekday: 5 }
    );
    assert_eq!(
        liturgical_day_for(date(2026, 2, 25)),
        LiturgicalDay::Lent {
            week: 1,
            weekday: 4
        }
    );
    assert_eq!(
        liturgical_day_for(date(2026, 4, 6)),
        LiturgicalDay::Easter {
            week: 1,
            weekday: 2
        }
    );
    assert_eq!(
        liturgical_day_for(date(2026, 11, 29)),
        LiturgicalDay::Advent {
            week: 1,
            weekday: 1
        }
    );
    assert_eq!(
        liturgical_day_for(date(2026, 5, 25)),
        LiturgicalDay::OrdinaryTime {
            week: 8,
            weekday: 2
        }
    );
}

// ---------------------------------------------------------------------------
// Further cases
// ---------------------------------------------------------------------------

#[test]
fn ash_wednesday_and_pentecost_known_years() {
    assert_eq!(ash_wednesday(2025), date(2025, 3, 5));
    assert_eq!(ash_wednesday(2026), date(2026, 2, 18));
    assert_eq!(pentecost(2025), date(2025, 6, 8));
    assert_eq!(pentecost(2026), date(2026, 5, 24));
    assert_eq!(pentecost(2027), date(2027, 5, 16));
}

#[test]
fn easter_offset_zero_is_easter_and_crosses_year_start() {
    assert_eq!(easter_offset(2026, 0), western_easter(2026));
    // 200 days before Easter 2026 falls in 2025.
    assert_eq!(easter_offset(2026, -200), date(2025, 9, 17));
}

#[test]
fn christ_the_king_is_week_before_advent() {
    for year in [2024, 2025, 2026, 2027, 2100] {
        assert_eq!(add_days(christ_the_king(year), 7), first_sunday_of_advent(year));
        assert_eq!(weekday(christ_the_king(year)), 1);
        assert_eq!(
            liturgical_day_for(christ_the_king(year)),
            LiturgicalDay::ChristTheKing
        );
        assert_eq!(sunday_of_ordinary_time_week(year, 34), Some(christ_the_king(year)));
    }
}

#[test]
fn holy_family_known_years_by_day() {
    // Sunday within the octave of Christmas; December 30 when Christmas is a Sunday.
    assert_eq!(liturgical_day_for(date(2026, 12, 27)), LiturgicalDay::HolyFamily);
    assert_eq!(liturgical_day_for(date(2022, 12, 30)), LiturgicalDay::HolyFamily);
    assert_eq!(
        liturgical_day_for(date(2022, 12, 25)),
        LiturgicalDay::ChristmasDay
    );
}

#[test]
fn holy_week_and_triduum_2026() {
    assert_eq!(liturgical_day_for(date(2026, 3, 30)), LiturgicalDay::HolyWeek { weekday: 2 });
    assert_eq!(liturgical_day_for(date(2026, 4, 2)), LiturgicalDay::HolyThursday);
    assert_eq!(liturgical_day_for(date(2026, 4, 3)), LiturgicalDay::GoodFriday);
    assert_eq!(liturgical_day_for(date(2026, 4, 4)), LiturgicalDay::HolySaturday);
    assert_eq!(liturgical_day_for(date(2026, 6, 12)), LiturgicalDay::SacredHeart);
}

#[test]
fn christmas_season_before_epiphany() {
    assert_eq!(
        liturgical_day_for(date(2026, 1, 2)),
        LiturgicalDay::ChristmasSeason { weekday: 6 }
    );
    assert_eq!(
        liturgical_day_for(date(2026, 12, 26)),
        LiturgicalDay::ChristmasSeason { weekday: 7 }
    );
}

#[test]
fn ordinary_time_week_out_of_range_inputs() {
    assert_eq!(ordinary_time_weekday(2026, 0, 2), None);
    assert_eq!(ordinary_time_weekday(2026, 35, 2), None);
    assert_eq!(ordinary_time_weekday(2026, 19, 0), None);
    assert_eq!(ordinary_time_weekday(2026, 19, 8), None);
    assert_eq!(sunday_of_ordinary_time_week(2026, 35), None);
    assert_eq!(ordinary_time_week(date(2026, 4, 5)), None);
}

#[test]
fn subtract_days_crosses_month_and_year() {
    assert_eq!(subtract_days(date(2026, 3, 1), 1), date(2026, 2, 28));
    assert_eq!(subtract_days(date(2024, 3, 1), 1), date(2024, 2, 29));
    assert_eq!(subtract_days(date(2026, 1, 1), 1), date(2025, 12, 31));
    assert_eq!(subtract_days(date(2026, 4, 5), 0), date(2026, 4, 5));
}

#[test]
fn adding_then_subtracting_days_round_trips() {
    for (d, n) in [
        (date(2026, 12, 31), 1u32),
        (date(2024, 2, 29), 365),
        (date(2026, 1, 1), 400),
        (date(2026, 8, 12), 0),
    ] {
        assert_eq!(subtract_days(add_days(d, n), n), d);
        assert_eq!(add_days(subtract_days(d, n), n), d);
    }
}
