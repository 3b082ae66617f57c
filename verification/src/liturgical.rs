//! Liturgical calendar helpers for the Dioceses of the United States
//! (General Roman Calendar with US movable-feast transfers).
//!
//! Ordinary Time weeks are Sunday–Saturday. Week 1 weekdays follow the Baptism
//! of the Lord; later weekday cycles follow that week's Sunday. After Pentecost
//! the numbering is chosen so Christ the King is always the 34th Sunday.
//!
//! Every date is modelled by its ordinal (see [`crate::calendar`]); the
//! feasts and seasons are stated as ordinals of the year's days.
use vstd::prelude::*;

use crate::calendar::{
    borrow, days_before_month, days_before_year, is_leap, leap_count, lemma_borrow, lemma_borrow_shape,
    lemma_leap_count_split, lemma_ordinal_order, lemma_year_length, month_length, ordinal, weekday_of_ordinal,
};
use crate::reminder::{add_days, lemma_weekday_in_range, weekday, CivilDate};

verus! {

/// Last year for which the liturgical routines are defined: the routines
/// count days between dates with an `i32` Julian day number, and the year
/// after this one is the last whose dates all still fit it.
pub const MAX_LITURGICAL_YEAR: i32 = 5_874_687;

/// A year of the Common Era that the liturgical routines handle.
pub open spec fn is_liturgical_year(year: int) -> bool {
    1 <= year <= MAX_LITURGICAL_YEAR
}

/// A real calendar day of a year the liturgical routines handle (one year of
/// slack above, for dates computed from the last year).
pub open spec fn is_era_date(date: CivilDate) -> bool {
    date.is_valid() && 1 <= date.year <= MAX_LITURGICAL_YEAR + 1
}

/// Temporal cycle day (US calendar). Weekday is 1 = Sunday … 7 = Saturday,
/// matching [`weekday`]. Saint feasts are a separate lookup.
#[derive(Clone, Copy, Debug, PartialEq, Eq, Structural)]
pub enum LiturgicalDay {
    Advent { week: u32, weekday: u32 },
    ChristmasDay,
    HolyFamily,
    ChristmasSeason { weekday: u32 },
    Epiphany,
    BaptismOfTheLord,
    OrdinaryTime { week: u32, weekday: u32 },
    AshWednesday,
    AfterAshWednesday { weekday: u32 },
    Lent { week: u32, weekday: u32 },
    PalmSunday,
    HolyWeek { weekday: u32 },
    HolyThursday,
    GoodFriday,
    HolySaturday,
    EasterSunday,
    Easter { week: u32, weekday: u32 },
    Pentecost,
    TrinitySunday,
    CorpusChristi,
    SacredHeart,
    ChristTheKing,
}

// ---------------------------------------------------------------------------
// The model: feasts as ordinals
// ---------------------------------------------------------------------------

/// Days from 22 March to Easter Sunday (Anonymous Gregorian computus).
#[verifier::opaque]
pub open spec fn easter_days_after_march_22(year: int) -> int {
    let a = year % 19;
    let b = year / 100;
    let c = year % 100;
    let d = b / 4;
    let e = b % 4;
    let f = (b + 8) / 25;
    let g = (b - f + 1) / 3;
    let h = (19 * a + b - d - g + 15) % 30;
    let i = c / 4;
    let k = c % 4;
    let l = (32 + 2 * e + 2 * i - h - k) % 7;
    let m = (a + 11 * h + 22 * l) / 451;
    h + l - 7 * m
}

/// Ordinal of Western Easter Sunday.
pub open spec fn easter_ord(year: int) -> int {
    ordinal(year, 3, 22) + easter_days_after_march_22(year)
}

/// Ordinal of Ash Wednesday, 46 days before Easter.
pub open spec fn ash_wednesday_ord(year: int) -> int {
    easter_ord(year) - 46
}

/// Ordinal of Pentecost, 49 days after Easter.
pub open spec fn pentecost_ord(year: int) -> int {
    easter_ord(year) + 49
}

/// Whether the day with ordinal `n` is a Sunday.
pub open spec fn is_sunday(n: int) -> bool {
    n % 7 == 0
}

/// First Sunday on or after the day `n`.
pub open spec fn sunday_on_or_after_ord(n: int) -> int {
    if n % 7 == 0 {
        n
    } else {
        n + 7 - n % 7
    }
}

/// First Sunday strictly after the day `n`.
pub open spec fn next_sunday_ord(n: int) -> int {
    n + 7 - n % 7
}

/// Last Sunday on or before the day `n`.
pub open spec fn sunday_on_or_before_ord(n: int) -> int {
    n - n % 7
}

/// Epiphany in the United States: Sunday from 2 through 8 January.
pub open spec fn epiphany_ord(year: int) -> int {
    sunday_on_or_after_ord(ordinal(year, 1, 2))
}

/// Baptism of the Lord: Sunday after Epiphany, or the Monday after when
/// Epiphany falls on 7 or 8 January.
pub open spec fn baptism_ord(year: int) -> int {
    let e = epiphany_ord(year);
    if e - days_before_year(year) >= 7 {
        e + 1
    } else {
        e + 7
    }
}

/// First Sunday of Advent: Sunday from 27 November through 3 December.
pub open spec fn advent_ord(year: int) -> int {
    sunday_on_or_after_ord(ordinal(year, 11, 27))
}

/// Christ the King: the Sunday before Advent.
pub open spec fn christ_the_king_ord(year: int) -> int {
    advent_ord(year) - 7
}

/// Holy Family: Sunday within the octave of Christmas, or 30 December when
/// Christmas is a Sunday.
pub open spec fn holy_family_ord(year: int) -> int {
    let christmas = ordinal(year, 12, 25);
    if is_sunday(christmas) {
        ordinal(year, 12, 30)
    } else {
        next_sunday_ord(christmas)
    }
}

/// Days from `from` to `to`, or 0 when `to` is not later.
pub open spec fn days_from(from: int, to: int) -> int {
    if to > from {
        to - from
    } else {
        0
    }
}

/// The day `n` of `year` lies in Ordinary Time.
pub open spec fn in_ordinary_time(year: int, n: int) -> bool {
    ||| (baptism_ord(year) < n && n < ash_wednesday_ord(year))
    ||| (pentecost_ord(year) < n && n < advent_ord(year))
}

/// Sunday that begins Ordinary Time week `week`, counted from the Baptism.
pub open spec fn sunday_from_start_ord(year: int, week: int) -> int {
    let second = next_sunday_ord(baptism_ord(year));
    if week >= 2 {
        second + (week - 2) * 7
    } else {
        second - 7
    }
}

/// Sunday that begins Ordinary Time week `week`, counted back from Christ the King (week 34).
pub open spec fn sunday_from_end_ord(year: int, week: int) -> int {
    christ_the_king_ord(year) - (34 - week) * 7
}

/// Ordinary Time week of the day `n` (1–34), when `n` lies in Ordinary Time.
pub open spec fn ordinary_time_week_of(year: int, n: int) -> Option<int> {
    if !in_ordinary_time(year, n) {
        None
    } else {
        let sunday = sunday_on_or_before_ord(n);
        if sunday < ash_wednesday_ord(year) {
            Some(1 + days_from(sunday_from_start_ord(year, 1), sunday) / 7)
        } else {
            Some(34 - days_from(sunday, christ_the_king_ord(year)) / 7)
        }
    }
}

/// The Sunday that heads Ordinary Time week `week`, before Lent or after Pentecost.
pub open spec fn notional_sunday_ord(year: int, week: int) -> Option<int> {
    if !(1 <= week <= 34) {
        None
    } else if sunday_from_start_ord(year, week) < ash_wednesday_ord(year) {
        Some(sunday_from_start_ord(year, week))
    } else if pentecost_ord(year) <= sunday_from_end_ord(year, week) && sunday_from_end_ord(
        year,
        week,
    ) < advent_ord(year) {
        Some(sunday_from_end_ord(year, week))
    } else {
        None
    }
}

/// Ordinal of weekday `wd` (1 = Sunday) of Ordinary Time week `week`, when
/// that day lies in Ordinary Time.
pub open spec fn ordinary_time_weekday_ord(year: int, week: int, wd: int) -> Option<int> {
    if !(1 <= wd <= 7) {
        None
    } else {
        match notional_sunday_ord(year, week) {
            None => None,
            Some(sunday) => {
                let n = sunday + wd - 1;
                if in_ordinary_time(year, n) {
                    Some(n)
                } else {
                    None
                }
            },
        }
    }
}

/// Temporal cycle identity of the valid date `date` (US calendar), decided
/// in this order: fixed and movable feasts, Holy Week, the days after Ash
/// Wednesday, Lent, Eastertide, Advent, Christmastide, Ordinary Time.
pub open spec fn liturgical_day_of(date: CivilDate) -> LiturgicalDay {
    let year = date.year as int;
    let n = date.ord();
    let wd = weekday_of_ordinal(n) as u32;
    let easter = easter_ord(year);
    let pentecost = pentecost_ord(year);
    let palm = easter - 7;
    let lent1 = easter - 42;
    let advent = advent_ord(year);
    let sunday = sunday_on_or_before_ord(n);
    if date.month == 12 && date.day == 25 {
        LiturgicalDay::ChristmasDay
    } else if n == easter {
        LiturgicalDay::EasterSunday
    } else if n == pentecost {
        LiturgicalDay::Pentecost
    } else if n == pentecost + 7 {
        LiturgicalDay::TrinitySunday
    } else if n == pentecost + 14 {
        LiturgicalDay::CorpusChristi
    } else if n == pentecost + 19 {
        LiturgicalDay::SacredHeart
    } else if n == ash_wednesday_ord(year) {
        LiturgicalDay::AshWednesday
    } else if n == epiphany_ord(year) {
        LiturgicalDay::Epiphany
    } else if n == baptism_ord(year) {
        LiturgicalDay::BaptismOfTheLord
    } else if n == christ_the_king_ord(year) {
        LiturgicalDay::ChristTheKing
    } else if n == holy_family_ord(year) {
        LiturgicalDay::HolyFamily
    } else if n == palm {
        LiturgicalDay::PalmSunday
    } else if n == easter - 3 {
        LiturgicalDay::HolyThursday
    } else if n == easter - 2 {
        LiturgicalDay::GoodFriday
    } else if n == easter - 1 {
        LiturgicalDay::HolySaturday
    } else if palm < n && n < easter - 3 {
        LiturgicalDay::HolyWeek { weekday: wd }
    } else if ash_wednesday_ord(year) < n && n < lent1 {
        LiturgicalDay::AfterAshWednesday { weekday: wd }
    } else if lent1 <= n && n < palm {
        LiturgicalDay::Lent { week: (1 + days_from(lent1, sunday) / 7) as u32, weekday: wd }
    } else if easter < n && n < pentecost {
        LiturgicalDay::Easter { week: (1 + days_from(easter, sunday) / 7) as u32, weekday: wd }
    } else if advent <= n && (date.month == 11 || (date.month == 12 && date.day <= 24)) {
        LiturgicalDay::Advent { week: (1 + days_from(advent, sunday) / 7) as u32, weekday: wd }
    } else if (date.month == 12 && date.day > 25) || (date.month == 1 && n < baptism_ord(year)) {
        LiturgicalDay::ChristmasSeason { weekday: wd }
    } else {
        match ordinary_time_week_of(year, n) {
            Some(week) => LiturgicalDay::OrdinaryTime { week: week as u32, weekday: wd },
            None => LiturgicalDay::ChristmasSeason { weekday: wd },
        }
    }
}

/// `date` is the real calendar day with ordinal `n`.
pub open spec fn is_day(date: CivilDate, n: int) -> bool {
    date.is_valid() && date.ord() == n
}

// ---------------------------------------------------------------------------
// Date arithmetic
// ---------------------------------------------------------------------------

/// What [`subtract_days`] returns: the day number `date.day - days` borrowed
/// from the preceding months (a count that does not fit an `i32` reads as 1
/// for the day and 0 for `days`).
pub open spec fn subtract_days_spec(date: CivilDate, days: int) -> CivilDate {
    let di = if date.day <= i32::MAX {
        date.day as int
    } else {
        1
    };
    let dsi = if days <= i32::MAX {
        days
    } else {
        0
    };
    CivilDate::from_triple(borrow(date.year as int, date.month as int, di - dsi))
}

/// [`subtract_days`] can run without overflow or a month below 1.
pub open spec fn subtract_days_in_range(date: CivilDate, days: int) -> bool {
    let di = if date.day <= i32::MAX {
        date.day as int
    } else {
        1
    };
    let dsi = if days <= i32::MAX {
        days
    } else {
        0
    };
    &&& (di - dsi < 1 ==> 1 <= date.month <= 13)
    &&& date.year + (di - dsi) / 28 - 1 > i32::MIN
}

/// The date `days` days before `date`.
pub fn subtract_days(date: CivilDate, days: u32) -> (r: CivilDate)
    requires
        subtract_days_in_range(date, days as int),
    ensures
        r == subtract_days_spec(date, days as int),
        days < date.day <= i32::MAX ==> r == (CivilDate {
            day: (date.day - days) as u32,
            ..date
        }),
        is_era_date(date) && days <= 365 ==> is_day(r, date.ord() - days) && date.year - 1
            <= r.year <= date.year,
        is_era_date(date) && days <= 365 && date.ord() - days > days_before_year(date.year as int)
            ==> r.year == date.year,
{
    let di: i32 = if date.day <= 2147483647 {
        date.day as i32
    } else {
        1
    };
    let dsi: i32 = if days <= 2147483647 {
        days as i32
    } else {
        0
    };
    let ghost d0 = di - dsi;
    proof {
        lemma_borrow_shape(date.year as int, date.month as int, d0);
    }
    let mut y = date.year;
    let mut m = date.month;
    let mut d = di - dsi;
    while d < 1
        invariant
            borrow(y as int, m as int, d as int) == borrow(
                date.year as int,
                date.month as int,
                d0,
            ),
            d < 1 ==> 1 <= m <= 13,
            y <= date.year,
            date.year + d0 / 28 - 1 > i32::MIN,
            d0 == di - dsi,
            d >= d0,
            date.month <= 13 || d >= 1,
            d0 < 1 ==> 1 <= date.month <= 13,
        decreases (if d < 1 {
            1 - d
        } else {
            0
        }),
    {
        proof {
            lemma_borrow_shape(y as int, m as int, d as int);
            lemma_borrow_shape(date.year as int, date.month as int, d0);
        }
        m -= 1;
        if m < 1 {
            proof {
                lemma_borrow_shape(y - 1, 12, d + 31);
            }
            m = 12;
            y -= 1;
        }
        d += days_in_month_i32(y, m);
    }
    proof {
        if is_era_date(date) && days <= 365 {
            lemma_borrow(date.year as int, date.month as int, d0);
            lemma_same_or_previous_year(date, r_of(y, m, d), days as int);
        }
    }
    CivilDate { year: y, month: m, day: d as u32 }
}

spec fn r_of(y: i32, m: u32, d: i32) -> CivilDate {
    CivilDate { year: y, month: m, day: d as u32 }
}

/// A valid date up to a year's length before another lies in the same or the previous year.
proof fn lemma_same_or_previous_year(date: CivilDate, r: CivilDate, days: int)
    requires
        date.is_valid(),
        r.is_valid(),
        0 <= days <= 365,
        r.ord() == date.ord() - days,
    ensures
        date.year - 1 <= r.year <= date.year,
        date.ord() - days > days_before_year(date.year as int) ==> r.year == date.year,
{
    crate::calendar::lemma_valid_ordinal_bounds(date.year as int, date.month as int, date.day as int);
    crate::calendar::lemma_valid_ordinal_bounds(r.year as int, r.month as int, r.day as int);
    lemma_year_length(date.year - 1);
    if r.year > date.year {
        crate::calendar::lemma_days_before_year_monotone(date.year as int, r.year as int);
    }
    if r.year < date.year - 1 {
        crate::calendar::lemma_days_before_year_monotone(r.year as int, date.year - 1);
    }
    if r.year < date.year {
        crate::calendar::lemma_days_before_year_monotone(r.year as int, date.year as int);
    }
}

fn days_in_month_i32(year: i32, month: u32) -> (r: i32)
    ensures
        r == month_length(year as int, month as int),
{
    crate::reminder::days_in_month(year, month) as i32
}


/// A valid date's year is the one whose span of ordinals holds its ordinal.
pub proof fn lemma_year_of_ordinal(date: CivilDate, y: int)
    requires
        date.is_valid(),
        days_before_year(y) < date.ord() <= days_before_year(y + 1),
    ensures
        date.year == y,
{
    crate::calendar::lemma_valid_ordinal_bounds(date.year as int, date.month as int, date.day as int);
    if date.year > y {
        crate::calendar::lemma_days_before_year_monotone(y, date.year as int);
    }
    if date.year < y {
        crate::calendar::lemma_days_before_year_monotone(date.year as int, y);
    }
}

/// Adding at most a year's length to an era date gives an era date in the
/// same or the next year.
proof fn lemma_add_era(date: CivilDate, r: CivilDate, days: int)
    requires
        is_era_date(date),
        date.year <= MAX_LITURGICAL_YEAR,
        0 <= days <= 365,
        r == crate::reminder::add_days_spec(date, days),
        r.ord() == date.ord() + days,
        r.day <= month_length(r.year as int, r.month as int),
        r.day >= 1,
        1 <= r.month <= 12,
    ensures
        is_day(r, date.ord() + days),
        is_era_date(r),
        date.year <= r.year <= date.year + 1,
        date.ord() + days <= days_before_year(date.year + 1) ==> r.year == date.year,
{
    crate::calendar::lemma_valid_ordinal_bounds(date.year as int, date.month as int, date.day as int);
    crate::calendar::lemma_valid_ordinal_bounds(r.year as int, r.month as int, r.day as int);
    lemma_year_length(date.year as int);
    lemma_year_length(date.year + 1);
    if date.ord() + days <= days_before_year(date.year + 1) {
        lemma_year_of_ordinal(r, date.year as int);
    } else {
        lemma_year_of_ordinal(r, date.year + 1);
    }
}

/// Adds `days` (at most a year) to an era date.
fn add_era(date: CivilDate, days: u32) -> (r: CivilDate)
    requires
        is_era_date(date),
        date.year <= MAX_LITURGICAL_YEAR,
        days <= 365,
    ensures
        r == crate::reminder::add_days_spec(date, days as int),
        is_day(r, date.ord() + days),
        is_era_date(r),
        date.year <= r.year <= date.year + 1,
        date.ord() + days <= days_before_year(date.year + 1) ==> r.year == date.year,
{
    proof {
        crate::reminder::lemma_add_days_in_range(date, days as int);
    }
    let r = add_days(date, days);
    proof {
        lemma_add_era(date, r, days as int);
    }
    r
}

/// Subtracts `days` (at most a year) from an era date that stays in the era.
fn subtract_era(date: CivilDate, days: u32) -> (r: CivilDate)
    requires
        is_era_date(date),
        days <= 365,
        date.ord() - days > days_before_year(1),
    ensures
        r == subtract_days_spec(date, days as int),
        is_day(r, date.ord() - days),
        is_era_date(r),
        date.year - 1 <= r.year <= date.year,
        date.ord() - days > days_before_year(date.year as int) ==> r.year == date.year,
{
    let r = subtract_days(date, days);
    proof {
        if r.year < 1 {
            crate::calendar::lemma_valid_ordinal_bounds(r.year as int, r.month as int, r.day as int);
            crate::calendar::lemma_days_before_year_monotone(r.year as int, 1);
        }
    }
    r
}

/// Whether `a` comes strictly before `b` (year, then month, then day).
fn date_before(a: CivilDate, b: CivilDate) -> (r: bool)
    ensures
        r == a.before(b),
        a.is_valid() && b.is_valid() ==> r == (a.ord() < b.ord()),
{
    proof {
        if a.is_valid() && b.is_valid() {
            lemma_ordinal_order(
                a.year as int,
                a.month as int,
                a.day as int,
                b.year as int,
                b.month as int,
                b.day as int,
            );
        }
    }
    a.year < b.year || (a.year == b.year && a.month < b.month) || (a.year == b.year && a.month
        == b.month && a.day < b.day)
}

/// Valid dates are equal exactly when their ordinals are.
pub proof fn lemma_same_day(a: CivilDate, b: CivilDate)
    requires
        a.is_valid(),
        b.is_valid(),
    ensures
        (a == b) == (a.ord() == b.ord()),
{
    lemma_ordinal_order(
        a.year as int,
        a.month as int,
        a.day as int,
        b.year as int,
        b.month as int,
        b.day as int,
    );
}

/// The Julian day count of the ordinal-1 day (1 January of year 1) minus one.
pub open spec fn julian_day_offset() -> int {
    1721425
}

proof fn lemma_julian(year: int, month: int, day: int)
    requires
        is_valid_ymd_era(year, month, day),
    ensures
        ({
            let a = (14 - month) / 12;
            let y = year + 4800 - a;
            let m = month + 12 * a - 3;
            day + (153 * m + 2) / 5 + 365 * y + y / 4 - y / 100 + y / 400 - 32045
        }) == ordinal(year, month, day) + julian_day_offset(),
{
    let a = (14 - month) / 12;
    let yy = year - a;
    assert(a == (if month < 3 {
        1int
    } else {
        0
    }));
    assert((yy + 4800) / 4 == yy / 4 + 1200);
    assert((yy + 4800) / 100 == yy / 100 + 48);
    assert((yy + 4800) / 400 == yy / 400 + 12);
    let m = month + 12 * a - 3;
    let t = (153 * m + 2) / 5;
    lemma_year_length(year - 1);
    assert(days_before_year(year) == 365 * (year - 1) + leap_count(year - 1));
    if month < 3 {
        assert(t == (if month == 1 {
            306int
        } else {
            337
        }));
        assert(ordinal(year, month, day) == 365 * yy + leap_count(yy) + (if month == 1 {
            0int
        } else {
            31
        }) + day);
    } else {
        assert(leap_count(year) == leap_count(year - 1) + (if is_leap(year) {
            1int
        } else {
            0
        }));
        assert(ordinal(year, month, day) == 365 * (yy - 1) + leap_count(yy) + days_before_month(
            year,
            month,
        ) - (if is_leap(year) {
            1int
        } else {
            0
        }) + day);
        assert(t == days_before_month(year, month) - (if is_leap(year) {
            1int
        } else {
            0
        }) - 59);
    }
}

spec fn is_valid_ymd_era(year: int, month: int, day: int) -> bool {
    crate::calendar::is_valid_ymd(year, month, day) && year >= 1
}

/// Julian day number of an era date.
fn julian_day(date: CivilDate) -> (r: i32)
    requires
        is_era_date(date),
    ensures
        r == date.ord() + julian_day_offset(),
{
    proof {
        lemma_julian(date.year as int, date.month as int, date.day as int);
    }
    let y = date.year;
    let m = date.month as i32;
    let d = date.day as i32;
    let a = (14 - m) / 12;
    let y = y + 4800 - a;
    let m = m + 12 * a - 3;
    d + (153 * m + 2) / 5 + 365 * y + y / 4 - y / 100 + y / 400 - 32045
}

/// Whole days from `from` to `to`, or 0 when `to` is not later.
fn days_between(from: CivilDate, to: CivilDate) -> (r: u32)
    requires
        is_era_date(from),
        is_era_date(to),
    ensures
        r == days_from(from.ord(), to.ord()),
{
    let diff = julian_day(to) - julian_day(from);
    if diff > 0 {
        diff as u32
    } else {
        0
    }
}


/// The computus places Easter between 22 March and 25 April.
pub proof fn lemma_easter_range(year: int)
    requires
        year >= 1,
    ensures
        0 <= easter_days_after_march_22(year) <= 34,
{
    let a = year % 19;
    let b = year / 100;
    let c = year % 100;
    let d = b / 4;
    let e = b % 4;
    let f = (b + 8) / 25;
    let g = (b - f + 1) / 3;
    let h = (19 * a + b - d - g + 15) % 30;
    let i = c / 4;
    let k = c % 4;
    let l = (32 + 2 * e + 2 * i - h - k) % 7;
    let m = (a + 11 * h + 22 * l) / 451;
    reveal(easter_days_after_march_22);
    assert(0 <= h < 30 && 0 <= l < 7 && 0 <= a < 19);
    assert(0 <= m <= 1);
    assert(m == 0 ==> a + 11 * h + 22 * l < 451);
    assert(m == 1 ==> a + 11 * h + 22 * l >= 451);
}

proof fn lemma_easter_sunday_core(
    year: int,
    b: int,
    c: int,
    d: int,
    e: int,
    i: int,
    k: int,
    h: int,
    l: int,
    m: int,
    q: int,
    x: int,
    lc: int,
)
    requires
        year == 100 * b + c,
        b == 4 * d + e,
        c == 4 * i + k,
        l == 32 + 2 * e + 2 * i - h - k - 7 * q,
        x == h + l - 7 * m,
        lc == 24 * b + i + d,
    ensures
        (365 * (year - 1) + lc + 81 + x) % 7 == 0,
{
    assert(365 * (year - 1) + lc + 81 + x == 7 * (20871 * d + 5218 * e + 209 * i + 52 * k - 36 - q
        - m));
}

/// The computus places Easter on a Sunday.
#[verifier::spinoff_prover]
#[verifier::rlimit(40)]
pub proof fn lemma_easter_sunday(year: int)
    requires
        year >= 1,
    ensures
        is_sunday(easter_ord(year)),
{
    let a = year % 19;
    let b = year / 100;
    let c = year % 100;
    let d = b / 4;
    let e = b % 4;
    let f = (b + 8) / 25;
    let g = (b - f + 1) / 3;
    let h = (19 * a + b - d - g + 15) % 30;
    let i = c / 4;
    let k = c % 4;
    let l = (32 + 2 * e + 2 * i - h - k) % 7;
    let m = (a + 11 * h + 22 * l) / 451;
    let x = h + l - 7 * m;
    let q = (32 + 2 * e + 2 * i - h - k) / 7;
    reveal(easter_days_after_march_22);
    assert(x == easter_days_after_march_22(year));
    lemma_leap_count_split(year);
    lemma_year_length(year - 1);
    assert(days_before_year(year) == 365 * (year - 1) + leap_count(year - 1));
    assert(easter_ord(year) == 365 * (year - 1) + leap_count(year) + 81 + x);
    lemma_easter_sunday_core(year, b, c, d, e, i, k, h, l, m, q, x, leap_count(year));
}

/// The computus places Easter between 22 March and 25 April, on a Sunday.
pub proof fn lemma_easter(year: int)
    requires
        year >= 1,
    ensures
        0 <= easter_days_after_march_22(year) <= 34,
        is_sunday(easter_ord(year)),
{
    lemma_easter_range(year);
    lemma_easter_sunday(year);
}

/// Western Easter Sunday (Gregorian calendar), per the Anonymous Gregorian algorithm.
pub fn western_easter(year: i32) -> (r: CivilDate)
    requires
        is_liturgical_year(year as int),
    ensures
        is_day(r, easter_ord(year as int)),
        r.year == year,
        (r.month == 3 && 22 <= r.day) || (r.month == 4 && r.day <= 25),
        weekday_of_ordinal(r.ord()) == 1,
{
    proof {
        lemma_easter(year as int);
    }
    let a = year % 19;
    let b = year / 100;
    let c = year % 100;
    let d = b / 4;
    let e = b % 4;
    let f = (b + 8) / 25;
    let g = (b - f + 1) / 3;
    let h = (19 * a + b - d - g + 15) % 30;
    let i = c / 4;
    let k = c % 4;
    let l = (32 + 2 * e + 2 * i - h - k) % 7;
    let m = (a + 11 * h + 22 * l) / 451;
    let month = ((h + l - 7 * m + 114) / 31) as u32;
    let day = ((h + l - 7 * m + 114) % 31 + 1) as u32;
    assert(h + l - 7 * m == easter_days_after_march_22(year as int)) by {
        reveal(easter_days_after_march_22);
    }
    CivilDate { year, month, day }
}

/// Offset from Easter Sunday by a signed number of days (negative = before Easter).
pub fn easter_offset(year: i32, days: i32) -> (r: CivilDate)
    requires
        is_liturgical_year(year as int),
        days > i32::MIN,
    ensures
        is_day(r, easter_ord(year as int) + days),
        -80 <= days <= 250 ==> r.year == year,
{
    let easter = western_easter(year);
    proof {
        lemma_year_length(year as int);
        crate::calendar::lemma_valid_ordinal_bounds(year as int, easter.month as int, easter.day as int);
    }
    let r = if days >= 0 {
        proof {
            crate::reminder::lemma_add_days_in_range(easter, days as int);
        }
        add_days(easter, days as u32)
    } else {
        let r = subtract_days(easter, (-days) as u32);
        proof {
            crate::calendar::lemma_borrow(year as int, easter.month as int, easter.day - (-days));
        }
        r
    };
    proof {
        if -80 <= days <= 250 {
            lemma_year_of_ordinal(r, year as int);
        }
    }
    r
}

pub fn ash_wednesday(year: i32) -> (r: CivilDate)
    requires
        is_liturgical_year(year as int),
    ensures
        is_day(r, ash_wednesday_ord(year as int)),
        r.year == year,
{
    easter_offset(year, -46)
}

pub fn pentecost(year: i32) -> (r: CivilDate)
    requires
        is_liturgical_year(year as int),
    ensures
        is_day(r, pentecost_ord(year as int)),
        r.year == year,
{
    easter_offset(year, 49)
}


/// Weekday of an era date, 1 = Sunday.
fn era_weekday(date: CivilDate) -> (r: u32)
    requires
        is_era_date(date),
    ensures
        r == weekday_of_ordinal(date.ord()),
        1 <= r <= 7,
{
    proof {
        lemma_weekday_in_range(date);
    }
    weekday(date)
}

fn next_sunday(date: CivilDate) -> (r: CivilDate)
    requires
        is_era_date(date),
        date.year <= MAX_LITURGICAL_YEAR,
    ensures
        is_day(r, next_sunday_ord(date.ord())),
        is_era_date(r),
        date.year <= r.year <= date.year + 1,
        next_sunday_ord(date.ord()) <= days_before_year(date.year + 1) ==> r.year == date.year,
{
    let wd = era_weekday(date);
    if wd == 1 {
        add_era(date, 7)
    } else {
        add_era(date, 8 - wd)
    }
}

fn sunday_on_or_after(date: CivilDate) -> (r: CivilDate)
    requires
        is_era_date(date),
        date.year <= MAX_LITURGICAL_YEAR,
    ensures
        is_day(r, sunday_on_or_after_ord(date.ord())),
        is_era_date(r),
        date.year <= r.year <= date.year + 1,
        sunday_on_or_after_ord(date.ord()) <= days_before_year(date.year + 1) ==> r.year
            == date.year,
{
    let wd = era_weekday(date);
    if wd == 1 {
        date
    } else {
        add_era(date, 8 - wd)
    }
}

fn sunday_on_or_before(date: CivilDate) -> (r: CivilDate)
    requires
        is_era_date(date),
        date.ord() - 6 > days_before_year(date.year as int),
    ensures
        is_day(r, sunday_on_or_before_ord(date.ord())),
        is_era_date(r),
        r.year == date.year,
{
    let wd = era_weekday(date);
    proof {
        crate::calendar::lemma_days_before_year_monotone(0, date.year as int);
    }
    subtract_era(date, wd - 1)
}

/// A date of `year` whose ordinal falls in January is the January day with that day number.
proof fn lemma_in_january(r: CivilDate, year: int)
    requires
        r.is_valid(),
        r.year == year,
        r.ord() <= days_before_year(year) + 31,
    ensures
        r.month == 1,
        r.day == r.ord() - days_before_year(year),
{
    if r.month != 1 {
        lemma_ordinal_order(year, 1, 31, year, r.month as int, r.day as int);
    }
}

/// Epiphany in the United States: Sunday from 2 through 8 January.
#[verifier::spinoff_prover]
pub fn epiphany(year: i32) -> (r: CivilDate)
    requires
        is_liturgical_year(year as int),
    ensures
        is_day(r, epiphany_ord(year as int)),
        r.year == year,
        r.month == 1,
        2 <= r.day <= 8,
        weekday_of_ordinal(r.ord()) == 1,
{
    proof {
        lemma_year_length(year as int);
    }
    let r = sunday_on_or_after(CivilDate { year, month: 1, day: 2 });
    proof {
        lemma_in_january(r, year as int);
    }
    r
}

/// Baptism of the Lord (US): Sunday after Epiphany, or the following Monday
/// when Epiphany falls on 7 or 8 January.
pub fn baptism_of_the_lord(year: i32) -> (r: CivilDate)
    requires
        is_liturgical_year(year as int),
    ensures
        is_day(r, baptism_ord(year as int)),
        r.year == year,
        r.month == 1,
        8 <= r.day <= 13,
{
    let epiphany = epiphany(year);
    proof {
        lemma_year_length(year as int);
    }
    let r = if epiphany.day >= 7 {
        add_era(epiphany, 1)
    } else {
        add_era(epiphany, 7)
    };
    proof {
        lemma_in_january(r, year as int);
    }
    r
}

/// First Sunday of Advent: Sunday from 27 November through 3 December.
#[verifier::spinoff_prover]
pub fn first_sunday_of_advent(year: i32) -> (r: CivilDate)
    requires
        is_liturgical_year(year as int),
    ensures
        is_day(r, advent_ord(year as int)),
        r.year == year,
        weekday_of_ordinal(r.ord()) == 1,
        ordinal(year as int, 11, 27) <= r.ord() <= ordinal(year as int, 12, 3),
{
    proof {
        lemma_year_length(year as int);
    }
    sunday_on_or_after(CivilDate { year, month: 11, day: 27 })
}

/// Christ the King: the last Sunday before Advent.
#[verifier::spinoff_prover]
pub fn christ_the_king(year: i32) -> (r: CivilDate)
    requires
        is_liturgical_year(year as int),
    ensures
        is_day(r, christ_the_king_ord(year as int)),
        r.year == year,
        weekday_of_ordinal(r.ord()) == 1,
{
    let advent = first_sunday_of_advent(year);
    proof {
        lemma_year_length(year as int);
        crate::calendar::lemma_days_before_year_monotone(0, year as int);
    }
    subtract_era(advent, 7)
}

fn holy_family(year: i32) -> (r: CivilDate)
    requires
        is_liturgical_year(year as int),
    ensures
        is_day(r, holy_family_ord(year as int)),
        is_era_date(r),
{
    let christmas = CivilDate { year, month: 12, day: 25 };
    if era_weekday(christmas) == 1 {
        CivilDate { year, month: 12, day: 30 }
    } else {
        next_sunday(christmas)
    }
}


pub proof fn lemma_sunday_on_or_after(n: int)
    ensures
        n <= sunday_on_or_after_ord(n) <= n + 6,
        is_sunday(sunday_on_or_after_ord(n)),
{
}

pub proof fn lemma_next_sunday(n: int)
    ensures
        n + 1 <= next_sunday_ord(n) <= n + 7,
        is_sunday(next_sunday_ord(n)),
        is_sunday(n) ==> next_sunday_ord(n) == n + 7,
{
}

pub proof fn lemma_sunday_on_or_before(n: int)
    ensures
        n - 6 <= sunday_on_or_before_ord(n) <= n,
        is_sunday(sunday_on_or_before_ord(n)),
        is_sunday(n) ==> sunday_on_or_before_ord(n) == n,
{
}

/// A Sunday `s` is the last Sunday on or before each of the six days after it.
pub proof fn lemma_sunday_heads_week(s: int, k: int)
    requires
        is_sunday(s),
        0 <= k <= 6,
    ensures
        sunday_on_or_before_ord(s + k) == s,
        weekday_of_ordinal(s + k) == k + 1,
{
    assert((s + k) % 7 == k);
}

proof fn lemma_month_ordinals(year: int)
    ensures
        ordinal(year, 11, 27) == ordinal(year, 3, 22) + 250,
        ordinal(year, 1, 2) == days_before_year(year) + 2,
        ordinal(year, 1, 8) == days_before_year(year) + 8,
        ordinal(year, 3, 22) >= days_before_year(year) + 81,
        ordinal(year, 12, 25) == ordinal(year, 11, 27) + 28,
        ordinal(year, 12, 30) == ordinal(year, 11, 27) + 33,
        ordinal(year, 11, 27) + 34 == days_before_year(year + 1),
{
    lemma_year_length(year);
}

/// Where the feasts of an era year fall, as ordinals.
pub proof fn lemma_feast_bounds(year: int)
    requires
        is_liturgical_year(year),
    ensures
        ordinal(year, 3, 22) <= easter_ord(year) <= ordinal(year, 3, 22) + 34,
        ordinal(year, 11, 27) <= advent_ord(year) <= ordinal(year, 11, 27) + 6,
        ordinal(year, 1, 2) <= epiphany_ord(year) <= ordinal(year, 1, 2) + 6,
        epiphany_ord(year) + 1 <= baptism_ord(year) <= epiphany_ord(year) + 7,
        ordinal(year, 1, 8) <= baptism_ord(year),
        ordinal(year, 11, 27) == ordinal(year, 3, 22) + 250,
        ordinal(year, 1, 2) == days_before_year(year) + 2,
        ordinal(year, 3, 22) >= days_before_year(year) + 81,
        ordinal(year, 11, 27) + 34 == days_before_year(year + 1),
        is_sunday(easter_ord(year)),
        is_sunday(advent_ord(year)),
        is_sunday(epiphany_ord(year)),
{
    lemma_easter(year);
    lemma_month_ordinals(year);
    lemma_sunday_on_or_after(ordinal(year, 11, 27));
    lemma_sunday_on_or_after(ordinal(year, 1, 2));
}

/// Whether `date` falls in Ordinary Time (US calendar).
pub fn is_ordinary_time(date: CivilDate) -> (r: bool)
    requires
        date.is_valid(),
        is_liturgical_year(date.year as int),
    ensures
        r == in_ordinary_time(date.year as int, date.ord()),
{
    let year = date.year;
    let baptism = baptism_of_the_lord(year);
    let ash = ash_wednesday(year);
    let pentecost = pentecost(year);
    let advent = first_sunday_of_advent(year);
    (date_before(baptism, date) && date_before(date, ash)) || (date_before(pentecost, date)
        && date_before(date, advent))
}

/// Ordinary Time week number (1–34) for a civil date, if the day is in Ordinary Time.
pub fn ordinary_time_week(date: CivilDate) -> (r: Option<u32>)
    requires
        date.is_valid(),
        is_liturgical_year(date.year as int),
    ensures
        match ordinary_time_week_of(date.year as int, date.ord()) {
            Some(w) => r == Some(w as u32),
            None => r is None,
        },
        r matches Some(w) ==> 1 <= w <= 34,
{
    if !is_ordinary_time(date) {
        return None;
    }
    let year = date.year;
    proof {
        lemma_feast_bounds(year as int);
    }
    let sunday = sunday_on_or_before(date);
    if date_before(sunday, ash_wednesday(year)) {
        let week1 = sunday_from_start(year, 1);
        let days = days_between(week1, sunday);
        Some(1 + days / 7)
    } else {
        let days = days_between(sunday, christ_the_king(year));
        Some(34 - days / 7)
    }
}

fn sunday_from_start(year: i32, week: u32) -> (r: CivilDate)
    requires
        is_liturgical_year(year as int),
        1 <= week <= 34,
    ensures
        is_day(r, sunday_from_start_ord(year as int, week as int)),
        r.year == year,
{
    proof {
        lemma_feast_bounds(year as int);
    }
    let baptism = baptism_of_the_lord(year);
    let second = next_sunday(baptism);
    if week >= 2 {
        add_era(second, (week - 2) * 7)
    } else {
        subtract_era(second, 7)
    }
}

fn sunday_from_end(year: i32, week: u32) -> (r: CivilDate)
    requires
        is_liturgical_year(year as int),
        1 <= week <= 34,
    ensures
        is_day(r, sunday_from_end_ord(year as int, week as int)),
        r.year == year,
{
    proof {
        lemma_feast_bounds(year as int);
    }
    subtract_era(christ_the_king(year), (34 - week) * 7)
}

fn notional_sunday_of_week(year: i32, week: u32) -> (r: Option<CivilDate>)
    requires
        is_liturgical_year(year as int),
    ensures
        match notional_sunday_ord(year as int, week as int) {
            Some(n) => r matches Some(d) && is_day(d, n) && d.year == year,
            None => r is None,
        },
{
    if !(1 <= week && week <= 34) {
        return None;
    }
    let from_start = sunday_from_start(year, week);
    if date_before(from_start, ash_wednesday(year)) {
        return Some(from_start);
    }
    let from_end = sunday_from_end(year, week);
    if !date_before(from_end, pentecost(year)) && date_before(
        from_end,
        first_sunday_of_advent(year),
    ) {
        return Some(from_end);
    }
    None
}

/// Civil date of a weekday in Ordinary Time week `n`.
///
/// `weekday` matches [`weekday`]: 1 = Sunday … 5 = Thursday … 7 = Saturday.
/// Weekdays of week `n` follow that week's Sunday (week 1 follows the Baptism
/// of the Lord). Returns `None` when that day is not in Ordinary Time — for
/// example Sunday of a week swallowed by Lent, Easter, or Pentecost.
pub fn ordinary_time_weekday(year: i32, week: u32, weekday: u32) -> (r: Option<CivilDate>)
    requires
        is_liturgical_year(year as int),
    ensures
        match ordinary_time_weekday_ord(year as int, week as int, weekday as int) {
            Some(n) => r matches Some(d) && is_day(d, n) && d.year == year,
            None => r is None,
        },
{
    if !(1 <= weekday && weekday <= 7) {
        return None;
    }
    let sunday = match notional_sunday_of_week(year, week) {
        Some(sunday) => sunday,
        None => return None,
    };
    proof {
        lemma_feast_bounds(year as int);
    }
    let date = if weekday == 1 {
        sunday
    } else {
        add_era(sunday, weekday - 1)
    };
    if is_ordinary_time(date) {
        Some(date)
    } else {
        None
    }
}

/// Sunday of Ordinary Time week `n` when that Sunday itself falls in Ordinary Time.
///
/// There is no 1st Sunday in Ordinary Time (Baptism of the Lord occupies that
/// slot). Some later Sundays are omitted when they fall in Lent or Easter.
pub fn sunday_of_ordinary_time_week(year: i32, week: u32) -> (r: Option<CivilDate>)
    requires
        is_liturgical_year(year as int),
    ensures
        match ordinary_time_weekday_ord(year as int, week as int, 1) {
            Some(n) => r matches Some(d) && is_day(d, n) && d.year == year,
            None => r is None,
        },
{
    ordinary_time_weekday(year, week, 1)
}


/// Temporal cycle identity of `date` (US calendar).
///
/// The shell formats this (for example Ordinary Time week 19, Thursday →
/// “Thursday of the 19th Week in Ordinary Time”). Saint feasts are not included.
pub fn liturgical_day_for(date: CivilDate) -> (r: LiturgicalDay)
    requires
        date.is_valid(),
        is_liturgical_year(date.year as int),
    ensures
        r == liturgical_day_of(date),
{
    let year = date.year;
    let wd = era_weekday(date);
    proof {
        lemma_feast_bounds(year as int);
        lemma_same_day_facts(date);
    }
    if date.month == 12 && date.day == 25 {
        return LiturgicalDay::ChristmasDay;
    }
    let easter = western_easter(year);
    if date == easter {
        return LiturgicalDay::EasterSunday;
    }
    let pentecost = pentecost(year);
    if date == pentecost {
        return LiturgicalDay::Pentecost;
    }
    if date == add_era(pentecost, 7) {
        return LiturgicalDay::TrinitySunday;
    }
    if date == add_era(pentecost, 14) {
        return LiturgicalDay::CorpusChristi;
    }
    if date == add_era(pentecost, 19) {
        return LiturgicalDay::SacredHeart;
    }
    if date == ash_wednesday(year) {
        return LiturgicalDay::AshWednesday;
    }
    if date == epiphany(year) {
        return LiturgicalDay::Epiphany;
    }
    if date == baptism_of_the_lord(year) {
        return LiturgicalDay::BaptismOfTheLord;
    }
    if date == christ_the_king(year) {
        return LiturgicalDay::ChristTheKing;
    }
    if date == holy_family(year) {
        return LiturgicalDay::HolyFamily;
    }
    let palm = easter_offset(year, -7);
    if date == palm {
        return LiturgicalDay::PalmSunday;
    }
    if date == easter_offset(year, -3) {
        return LiturgicalDay::HolyThursday;
    }
    if date == easter_offset(year, -2) {
        return LiturgicalDay::GoodFriday;
    }
    if date == easter_offset(year, -1) {
        return LiturgicalDay::HolySaturday;
    }
    if date_before(palm, date) && date_before(date, easter_offset(year, -3)) {
        return LiturgicalDay::HolyWeek { weekday: wd };
    }
    let ash = ash_wednesday(year);
    let lent1 = easter_offset(year, -42);
    if date_before(ash, date) && date_before(date, lent1) {
        return LiturgicalDay::AfterAshWednesday { weekday: wd };
    }
    if !date_before(date, lent1) && date_before(date, palm) {
        let sunday = sunday_on_or_before(date);
        let week = 1 + days_between(lent1, sunday) / 7;
        return LiturgicalDay::Lent { week, weekday: wd };
    }
    if date_before(easter, date) && date_before(date, pentecost) {
        let sunday = sunday_on_or_before(date);
        let week = 1 + days_between(easter, sunday) / 7;
        return LiturgicalDay::Easter { week, weekday: wd };
    }
    let advent = first_sunday_of_advent(year);
    let in_advent = !date_before(date, advent) && (date.month == 11 || (date.month == 12
        && date.day <= 24));
    if in_advent {
        let sunday = sunday_on_or_before(date);
        let week = 1 + days_between(advent, sunday) / 7;
        return LiturgicalDay::Advent { week, weekday: wd };
    }
    let baptism = baptism_of_the_lord(year);
    if date.month == 12 && date.day > 25 || date.month == 1 && date_before(date, baptism) {
        return LiturgicalDay::ChristmasSeason { weekday: wd };
    }
    if let Some(week) = ordinary_time_week(date) {
        return LiturgicalDay::OrdinaryTime { week, weekday: wd };
    }
    LiturgicalDay::ChristmasSeason { weekday: wd }
}

/// Equality with a valid date is equality of ordinals.
proof fn lemma_same_day_facts(date: CivilDate)
    requires
        date.is_valid(),
    ensures
        forall|other: CivilDate| #[trigger] is_day(other, other.ord()) ==> ((date == other) == (date.ord()
            == other.ord())),
{
    assert forall|other: CivilDate| #[trigger] is_day(other, other.ord()) implies ((date == other) == (
    date.ord() == other.ord())) by {
        lemma_same_day(date, other);
    }
}


// ---------------------------------------------------------------------------
// Laws of the Ordinary Time numbering
// ---------------------------------------------------------------------------

/// The day that [`ordinary_time_weekday`] gives for week `week` and weekday
/// `wd` lies in Ordinary Time, falls on weekday `wd`, and is numbered week
/// `week` by [`ordinary_time_week`].
#[verifier::spinoff_prover]
#[verifier::rlimit(50)]
pub proof fn law_ordinary_time_round_trip(year: int, week: int, wd: int)
    requires
        is_liturgical_year(year),
        ordinary_time_weekday_ord(year, week, wd) is Some,
    ensures
        ({
            let n = ordinary_time_weekday_ord(year, week, wd)->0;
            &&& in_ordinary_time(year, n)
            &&& weekday_of_ordinal(n) == wd
            &&& ordinary_time_week_of(year, n) == Some(week)
        }),
{
    lemma_feast_bounds(year);
    let second = next_sunday_ord(baptism_ord(year));
    lemma_next_sunday(baptism_ord(year));
    let s = notional_sunday_ord(year, week)->0;
    assert(is_sunday(s)) by {
        if sunday_from_start_ord(year, week) < ash_wednesday_ord(year) {
            assert(s == second + (week - 2) * 7 || s == second - 7);
        } else {
            assert(s == advent_ord(year) - 7 - (34 - week) * 7);
        }
    }
    lemma_sunday_heads_week(s, wd - 1);
}

/// Every day of Ordinary Time has a week number from 1 to 34.
#[verifier::spinoff_prover]
#[verifier::rlimit(50)]
pub proof fn law_ordinary_time_week_range(year: int, n: int)
    requires
        is_liturgical_year(year),
        in_ordinary_time(year, n),
    ensures
        ordinary_time_week_of(year, n) is Some,
        1 <= ordinary_time_week_of(year, n)->0 <= 34,
{
    lemma_feast_bounds(year);
    lemma_next_sunday(baptism_ord(year));
    lemma_sunday_on_or_before(n);
}

/// There is no first Sunday in Ordinary Time: the Baptism of the Lord occupies it.
#[verifier::spinoff_prover]
#[verifier::rlimit(50)]
pub proof fn law_no_first_sunday_in_ordinary_time(year: int)
    requires
        is_liturgical_year(year),
    ensures
        ordinary_time_weekday_ord(year, 1, 1) is None,
{
    lemma_feast_bounds(year);
    lemma_next_sunday(baptism_ord(year));
    lemma_next_sunday(epiphany_ord(year));
}

/// Christ the King lies in Ordinary Time and is the Sunday of its 34th week.
#[verifier::spinoff_prover]
#[verifier::rlimit(50)]
pub proof fn law_christ_the_king_is_week_34(year: int)
    requires
        is_liturgical_year(year),
    ensures
        in_ordinary_time(year, christ_the_king_ord(year)),
        ordinary_time_week_of(year, christ_the_king_ord(year)) == Some(34int),
        ordinary_time_weekday_ord(year, 34, 1) == Some(christ_the_king_ord(year)),
{
    lemma_feast_bounds(year);
    lemma_sunday_heads_week(christ_the_king_ord(year), 0);
    lemma_next_sunday(baptism_ord(year));
}

/// The weekday carried by a liturgical day.
pub open spec fn weekday_field(day: LiturgicalDay) -> Option<u32> {
    match day {
        LiturgicalDay::Advent { weekday, .. } => Some(weekday),
        LiturgicalDay::ChristmasSeason { weekday } => Some(weekday),
        LiturgicalDay::OrdinaryTime { weekday, .. } => Some(weekday),
        LiturgicalDay::AfterAshWednesday { weekday } => Some(weekday),
        LiturgicalDay::Lent { weekday, .. } => Some(weekday),
        LiturgicalDay::HolyWeek { weekday } => Some(weekday),
        LiturgicalDay::Easter { weekday, .. } => Some(weekday),
        _ => None,
    }
}

/// The weekday that a liturgical day carries is the weekday of its date, and
/// Christmas, Easter Sunday, Pentecost, Ash Wednesday, Epiphany and the
/// Baptism of the Lord are named on their own dates and on no others.
#[verifier::spinoff_prover]
#[verifier::rlimit(50)]
pub proof fn law_liturgical_day_names_its_date(date: CivilDate)
    requires
        date.is_valid(),
        is_liturgical_year(date.year as int),
    ensures
        ({
            let year = date.year as int;
            let n = date.ord();
            let day = liturgical_day_of(date);
            &&& weekday_field(day) matches Some(w) ==> w == weekday_of_ordinal(n)
            &&& (day == LiturgicalDay::ChristmasDay) == (date.month == 12 && date.day == 25)
            &&& (day == LiturgicalDay::EasterSunday) == (n == easter_ord(year))
            &&& (day == LiturgicalDay::Pentecost) == (n == pentecost_ord(year))
            &&& (day == LiturgicalDay::AshWednesday) == (n == ash_wednesday_ord(year))
            &&& (day == LiturgicalDay::Epiphany) == (n == epiphany_ord(year))
            &&& (day == LiturgicalDay::BaptismOfTheLord) == (n == baptism_ord(year))
        }),
{
    let year = date.year as int;
    lemma_feast_bounds(year);
    lemma_month_ordinals(year);
    crate::calendar::lemma_valid_ordinal_bounds(year, date.month as int, date.day as int);
    if date.month == 12 && date.day == 25 {
        assert(date.ord() == ordinal(year, 12, 25));
    }
}

/// Holy Week: Palm Sunday is a week before Easter, every day after it and
/// before Holy Thursday (three days before Easter) is named Holy Week with
/// its own weekday, Good Friday and Holy Saturday follow, and no day from Ash Wednesday up to Easter is named a day of
/// Christmastide or of Ordinary Time.
#[verifier::spinoff_prover]
#[verifier::rlimit(50)]
pub proof fn law_holy_week_and_lent(date: CivilDate)
    requires
        date.is_valid(),
        is_liturgical_year(date.year as int),
    ensures
        ({
            let year = date.year as int;
            let n = date.ord();
            let easter = easter_ord(year);
            &&& n == easter - 7 ==> liturgical_day_of(date) == LiturgicalDay::PalmSunday
            &&& easter - 7 < n < easter - 3 ==> liturgical_day_of(date) == LiturgicalDay::HolyWeek {
                weekday: weekday_of_ordinal(n) as u32,
            }
            &&& n == easter - 3 ==> liturgical_day_of(date) == LiturgicalDay::HolyThursday
            &&& n == easter - 2 ==> liturgical_day_of(date) == LiturgicalDay::GoodFriday
            &&& n == easter - 1 ==> liturgical_day_of(date) == LiturgicalDay::HolySaturday
            &&& easter - 46 <= n < easter ==> !(liturgical_day_of(date) is ChristmasSeason)
                && !(liturgical_day_of(date) is OrdinaryTime)
        }),
{
    let year = date.year as int;
    lemma_feast_bounds(year);
    lemma_month_ordinals(year);
    crate::calendar::lemma_valid_ordinal_bounds(year, date.month as int, date.day as int);
    if date.month == 12 && date.day == 25 {
        assert(date.ord() == ordinal(year, 12, 25));
    }
}

/// Ordinary Time ends before the First Sunday of Advent: no day in Ordinary
/// Time is on or after it, no day on or after it has an Ordinary Time week,
/// and a day named Advent is never in Ordinary Time. Nor does Ordinary Time
/// reach back to the Baptism of the Lord or into Ash Wednesday to Pentecost.
#[verifier::spinoff_prover]
#[verifier::rlimit(50)]
pub proof fn law_ordinary_time_ends_before_advent(date: CivilDate)
    requires
        date.is_valid(),
        is_liturgical_year(date.year as int),
    ensures
        ({
            let year = date.year as int;
            let n = date.ord();
            &&& in_ordinary_time(year, n) ==> n < advent_ord(year)
            &&& in_ordinary_time(year, n) ==> baptism_ord(year) < n && !(easter_ord(year) - 46 <= n
                <= easter_ord(year) + 49)
            &&& n >= advent_ord(year) ==> ordinary_time_week_of(year, n) is None
            &&& liturgical_day_of(date) is Advent ==> !in_ordinary_time(year, n)
        }),
{
    let year = date.year as int;
    lemma_feast_bounds(year);
    lemma_month_ordinals(year);
    crate::calendar::lemma_valid_ordinal_bounds(year, date.month as int, date.day as int);
}

/// The Baptism of the Lord is the Monday after Epiphany when Epiphany falls
/// on 7 or 8 January, else the Sunday after it; it falls from 8 to 13 January.
#[verifier::spinoff_prover]
#[verifier::rlimit(50)]
pub proof fn law_baptism_follows_epiphany(year: int)
    requires
        is_liturgical_year(year),
    ensures
        ({
            let e = epiphany_ord(year);
            let b = baptism_ord(year);
            &&& e - days_before_year(year) >= 7 ==> b == e + 1 && weekday_of_ordinal(b) == 2
            &&& e - days_before_year(year) < 7 ==> b == e + 7 && weekday_of_ordinal(b) == 1
            &&& ordinal(year, 1, 8) <= b <= ordinal(year, 1, 13)
        }),
{
    lemma_feast_bounds(year);
    lemma_day_after_sunday(epiphany_ord(year));
    lemma_january_ordinals(year);
}

/// The day after a Sunday is a Monday; a week after it, a Sunday again.
proof fn lemma_day_after_sunday(e: int)
    requires
        is_sunday(e),
    ensures
        weekday_of_ordinal(e + 1) == 2,
        weekday_of_ordinal(e + 7) == 1,
{
}

/// January's days follow the days before the year.
proof fn lemma_january_ordinals(year: int)
    ensures
        ordinal(year, 1, 2) == days_before_year(year) + 2,
        ordinal(year, 1, 8) == days_before_year(year) + 8,
        ordinal(year, 1, 13) == days_before_year(year) + 13,
{
}

} // verus!
