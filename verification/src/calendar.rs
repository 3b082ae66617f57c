//! Mathematical model of the proleptic Gregorian calendar.
//!
//! A civil date `(y, m, d)` is modelled by its *ordinal*: the number of days
//! since 31 December of year 0, so that 1 January of year 1 has ordinal 1.
//! Months outside `1..=12` are given the same meaning the date routines give
//! them: month 0 is a 30-day month just before January, and any month above
//! 12 is a 30-day month just before January of the next year.
use vstd::prelude::*;

verus! {

/// Gregorian leap-year rule.
pub open spec fn is_leap(y: int) -> bool {
    (y % 4 == 0 && y % 100 != 0) || y % 400 == 0
}

/// Number of days in month `m` of year `y` (30 for a month outside `1..=12`).
pub open spec fn month_length(y: int, m: int) -> int {
    if m == 1 || m == 3 || m == 5 || m == 7 || m == 8 || m == 10 || m == 12 {
        31
    } else if m == 4 || m == 6 || m == 9 || m == 11 {
        30
    } else if m == 2 {
        if is_leap(y) {
            29
        } else {
            28
        }
    } else {
        30
    }
}

/// Number of days in the years `1..y` (negative for years before 1).
pub open spec fn days_before_year(y: int) -> int {
    365 * (y - 1) + (y - 1) / 4 - (y - 1) / 100 + (y - 1) / 400
}

/// Days of year `y` that come before the first of month `m` (for `1 <= m <= 12`).
pub open spec fn days_before_month(y: int, m: int) -> int {
    let common = if m <= 1 {
        0int
    } else if m == 2 {
        31
    } else if m == 3 {
        59
    } else if m == 4 {
        90
    } else if m == 5 {
        120
    } else if m == 6 {
        151
    } else if m == 7 {
        181
    } else if m == 8 {
        212
    } else if m == 9 {
        243
    } else if m == 10 {
        273
    } else if m == 11 {
        304
    } else {
        334
    };
    if m > 2 && is_leap(y) {
        common + 1
    } else {
        common
    }
}

/// Ordinal of the day before the first of month `m` of year `y`.
pub open spec fn month_start(y: int, m: int) -> int {
    if m < 1 {
        days_before_year(y) - 30
    } else if m > 12 {
        days_before_year(y + 1) - 30
    } else {
        days_before_year(y) + days_before_month(y, m)
    }
}

/// Ordinal (day number) of the civil date `(y, m, d)`.
pub open spec fn ordinal(y: int, m: int, d: int) -> int {
    month_start(y, m) + d
}

/// `(y, m, d)` names a real calendar day.
pub open spec fn is_valid_ymd(y: int, m: int, d: int) -> bool {
    1 <= m <= 12 && 1 <= d <= month_length(y, m)
}

/// The month that follows month `m` of year `y`.
pub open spec fn next_month(y: int, m: int) -> (int, int) {
    if m >= 12 {
        (y + 1, 1int)
    } else {
        (y, m + 1)
    }
}

/// The month that precedes month `m` of year `y`.
pub open spec fn prev_month(y: int, m: int) -> (int, int) {
    if m <= 1 {
        (y - 1, 12int)
    } else {
        (y, m - 1)
    }
}

/// Moves days that overflow month `m` into the following months.
pub open spec fn carry(y: int, m: int, d: int) -> (int, int, int)
    decreases d,
{
    if d > month_length(y, m) {
        let (ny, nm) = next_month(y, m);
        carry(ny, nm, d - month_length(y, m))
    } else {
        (y, m, d)
    }
}

/// Moves a day number below 1 back into the preceding months.
pub open spec fn borrow(y: int, m: int, d: int) -> (int, int, int)
    decreases (if d < 1 {
        1 - d
    } else {
        0
    }),
{
    if d < 1 {
        let (py, pm) = prev_month(y, m);
        borrow(py, pm, d + month_length(py, pm))
    } else {
        (y, m, d)
    }
}

/// Day of the week of an ordinal: 1 = Sunday, 2 = Monday, ... 7 = Saturday
/// (1 January of year 1 was a Monday).
pub open spec fn weekday_of_ordinal(n: int) -> int {
    n % 7 + 1
}

/// Rust's integer division, which rounds toward zero.
pub open spec fn tdiv(a: int, b: int) -> int {
    if a >= 0 {
        a / b
    } else {
        -((-a) / b)
    }
}

/// Rust's integer remainder, whose sign follows the dividend.
pub open spec fn trem(a: int, b: int) -> int {
    a - b * tdiv(a, b)
}

/// The terms of Zeller's congruence for a date, evaluated with Rust's
/// integer division (`day` and `month` as the weekday routine reads them).
pub open spec fn zeller_sum(year: int, month: int, day: int) -> int {
    let y = if month < 3 {
        year - 1
    } else {
        year
    };
    let m = if month < 3 {
        month + 12
    } else {
        month
    };
    let mi = if m <= i32::MAX {
        m
    } else {
        0
    };
    let di = if day <= i32::MAX {
        day
    } else {
        0
    };
    let k = trem(y, 100);
    let j = tdiv(y, 100);
    di + tdiv(13 * (mi + 1), 5) + k + tdiv(k, 4) + tdiv(j, 4) + 5 * j
}

/// Zeller's congruence, mapped to 1 = Sunday ... 7 = Saturday.
pub open spec fn zeller_weekday(year: int, month: int, day: int) -> int {
    trem(trem(zeller_sum(year, month, day), 7) + 6, 7) + 1
}

/// Leap days in the years `1..=y`, counted from year 0.
pub open spec fn leap_count(y: int) -> int {
    y / 4 - y / 100 + y / 400
}

pub proof fn lemma_leap_count_split(y: int)
    requires
        y >= 0,
    ensures
        leap_count(y) == 24 * (y / 100) + (y % 100) / 4 + (y / 100) / 4,
{
    let j = y / 100;
    let k = y % 100;
    assert(y == 100 * j + k);
    assert(y / 4 == 25 * j + k / 4);
    assert(y / 400 == j / 4);
}

pub proof fn lemma_mod7_shift(s: int, n: int, t: int)
    requires
        s + 6 - n == 7 * t,
        s >= 0,
    ensures
        (s % 7 + 6) % 7 == n % 7,
{
    assert((s % 7 + 6) % 7 == n % 7) by (nonlinear_arith)
        requires
            s + 6 - n == 7 * t,
            s >= 0,
    ;
}

/// The month term of Zeller's congruence, `13 * (m + 1) / 5`, for March (3)
/// to February (14), and the days before the month in a common year.
pub open spec fn zeller_month_term(m: int) -> int {
    13 * (m + 1) / 5
}

/// For dates of year 1 onward, Zeller's congruence is the ordinal taken modulo 7.
pub proof fn lemma_zeller(y0: int, m0: int, d: int)
    requires
        is_valid_ymd(y0, m0, d),
        y0 >= 1,
    ensures
        zeller_weekday(y0, m0, d) == weekday_of_ordinal(ordinal(y0, m0, d)),
{
    let y = if m0 < 3 {
        y0 - 1
    } else {
        y0
    };
    let m = if m0 < 3 {
        m0 + 12
    } else {
        m0
    };
    let k = y % 100;
    let j = y / 100;
    lemma_leap_count_split(y);
    lemma_year_length(y0 - 1);
    let cum0 = days_before_month(y0, m0) - (if m0 > 2 && is_leap(y0) {
        1int
    } else {
        0
    });
    let c = zeller_month_term(m);
    let s = zeller_sum(y0, m0, d);
    assert(s == d + c + k + k / 4 + j / 4 + 5 * j);
    let n = ordinal(y0, m0, d);
    let adj = if m0 < 3 {
        0int
    } else {
        365
    };
    assert(days_before_year(y0) == 365 * (y0 - 1) + leap_count(y0 - 1));
    assert(n == 365 * y + leap_count(y) + cum0 + d - adj);
    assert(n == 36524 * j + 365 * k + k / 4 + j / 4 + cum0 + d - adj);
    assert((c + 6 - cum0 + adj) % 7 == 0);
    let t = (c + 6 - cum0 + adj) / 7 - 5217 * j - 52 * k;
    assert(s + 6 - n == 7 * t);
    lemma_mod7_shift(s, n, t);
}

pub proof fn lemma_month_length_bounds(y: int, m: int)
    ensures
        28 <= month_length(y, m) <= 31,
{
}

pub proof fn lemma_year_length(y: int)
    ensures
        days_before_year(y + 1) == days_before_year(y) + 365 + (if is_leap(y) {
            1int
        } else {
            0
        }),
{
    let a = y - 1;
    assert(y / 4 - a / 4 == (if y % 4 == 0 {
        1int
    } else {
        0
    }));
    assert(y / 100 - a / 100 == (if y % 100 == 0 {
        1int
    } else {
        0
    }));
    assert(y / 400 - a / 400 == (if y % 400 == 0 {
        1int
    } else {
        0
    }));
    assert(y % 400 == 0 ==> y % 100 == 0 && y % 4 == 0) by {
        if y % 400 == 0 {
            assert(y == 400 * (y / 400));
            assert(y == 100 * (4 * (y / 400)));
            assert(y == 4 * (100 * (y / 400)));
        }
    }
    assert(y % 100 == 0 ==> y % 4 == 0) by {
        if y % 100 == 0 {
            assert(y == 100 * (y / 100));
            assert(y == 4 * (25 * (y / 100)));
        }
    }
}

/// The first day of the next month follows the last day of this one.
pub proof fn lemma_next_month_start(y: int, m: int)
    requires
        m >= 0,
    ensures
        month_start(next_month(y, m).0, next_month(y, m).1) == month_start(y, m) + month_length(
            y,
            m,
        ),
{
    lemma_year_length(y);
}

/// The first day of this month follows the last day of the previous one.
pub proof fn lemma_prev_month_start(y: int, m: int)
    requires
        1 <= m <= 12,
    ensures
        month_start(prev_month(y, m).0, prev_month(y, m).1) + month_length(
            prev_month(y, m).0,
            prev_month(y, m).1,
        ) == month_start(y, m),
{
    lemma_year_length(y - 1);
}

/// Carrying keeps the ordinal and normalises the day.
pub proof fn lemma_carry(y: int, m: int, d: int)
    requires
        m >= 0,
    ensures
        ({
            let (ry, rm, rd) = carry(y, m, d);
            &&& ordinal(ry, rm, rd) == ordinal(y, m, d)
            &&& rd <= month_length(ry, rm)
            &&& rm >= 0
            &&& (d >= 1 ==> rd >= 1)
            &&& (d > month_length(y, m) ==> 1 <= rm <= 12)
            &&& (1 <= m <= 12 ==> 1 <= rm <= 12)
            &&& (d <= month_length(y, m) ==> ry == y && rm == m && rd == d)
            &&& y <= ry
            &&& (d >= 0 ==> ry <= y + d / 28 + 1)
        }),
    decreases d,
{
    if d > month_length(y, m) {
        lemma_next_month_start(y, m);
        let (ny, nm) = next_month(y, m);
        lemma_carry(ny, nm, d - month_length(y, m));
        let (ry, rm, rd) = carry(ny, nm, d - month_length(y, m));
        assert(d - month_length(y, m) >= 0);
        assert((d - month_length(y, m)) / 28 + 1 <= d / 28) by {
            lemma_month_length_bounds(y, m);
            assert(d >= 28 + (d - month_length(y, m)));
        }
    }
}

/// Carrying more days never lands in an earlier year.
pub proof fn lemma_carry_year_monotone(y: int, m: int, d1: int, d2: int)
    requires
        m >= 0,
        d1 <= d2,
    ensures
        carry(y, m, d1).0 <= carry(y, m, d2).0,
    decreases d2,
{
    if d1 > month_length(y, m) {
        lemma_month_length_bounds(y, m);
        let (ny, nm) = next_month(y, m);
        lemma_carry_year_monotone(ny, nm, d1 - month_length(y, m), d2 - month_length(y, m));
    } else {
        lemma_carry(y, m, d2);
    }
}

/// Carrying `d + b` days is carrying `d` days and then `b` more.
pub proof fn lemma_carry_compose(y: int, m: int, d: int, b: int)
    requires
        m >= 0,
        b >= 0,
    ensures
        carry(y, m, d + b) == carry(carry(y, m, d).0, carry(y, m, d).1, carry(y, m, d).2 + b),
    decreases d,
{
    if d > month_length(y, m) {
        lemma_month_length_bounds(y, m);
        let (ny, nm) = next_month(y, m);
        lemma_carry_compose(ny, nm, d - month_length(y, m), b);
        assert(d + b - month_length(y, m) == d - month_length(y, m) + b);
    }
}

/// Carrying never raises the day number.
pub proof fn lemma_carry_day_at_most(y: int, m: int, d: int)
    ensures
        carry(y, m, d).2 <= d,
    decreases d,
{
    if d > month_length(y, m) {
        lemma_month_length_bounds(y, m);
        let (ny, nm) = next_month(y, m);
        lemma_carry_day_at_most(ny, nm, d - month_length(y, m));
    }
}

/// Borrowing from earlier months never moves past month 1 and loses at most
/// one year per 28 borrowed days.
pub proof fn lemma_borrow_shape(y: int, m: int, d: int)
    requires
        m >= 1 || d >= 1,
    ensures
        ({
            let (ry, rm, rd) = borrow(y, m, d);
            &&& (m >= 1 ==> rm >= 1)
            &&& rd >= 1
            &&& (d >= 1 ==> ry == y && rm == m && rd == d)
            &&& ry <= y
            &&& (d <= 0 ==> ry >= y + (d / 28) - 1)
            &&& (d < 1 ==> rm <= 12 || rm < m)
            &&& (d < 1 && m <= 13 ==> rm <= 12)
        }),
    decreases (if d < 1 {
        1 - d
    } else {
        0
    }),
{
    if d < 1 {
        let (py, pm) = prev_month(y, m);
        let nd = d + month_length(py, pm);
        lemma_month_length_bounds(py, pm);
        lemma_borrow_shape(py, pm, nd);
        if nd <= 0 {
            assert(nd / 28 - 1 >= d / 28) by {
                assert(nd >= d + 28);
            }
        }
    }
}

/// Borrowing from earlier months keeps the ordinal and normalises the day.
pub proof fn lemma_borrow(y: int, m: int, d: int)
    requires
        1 <= m <= 12,
    ensures
        ({
            let (ry, rm, rd) = borrow(y, m, d);
            &&& ordinal(ry, rm, rd) == ordinal(y, m, d)
            &&& 1 <= rm <= 12
            &&& (d <= month_length(y, m) ==> 1 <= rd <= month_length(ry, rm))
        }),
    decreases (if d < 1 {
        1 - d
    } else {
        0
    }),
{
    if d < 1 {
        lemma_prev_month_start(y, m);
        let (py, pm) = prev_month(y, m);
        let nd = d + month_length(py, pm);
        lemma_month_length_bounds(py, pm);
        lemma_borrow(py, pm, nd);
    }
}

/// Ordinals of valid dates lie inside their month, year by year.
pub proof fn lemma_valid_ordinal_bounds(y: int, m: int, d: int)
    requires
        is_valid_ymd(y, m, d),
    ensures
        days_before_year(y) < ordinal(y, m, d) <= days_before_year(y + 1),
        month_start(y, m) < ordinal(y, m, d) <= month_start(y, m) + month_length(y, m),
{
    lemma_year_length(y);
}

pub proof fn lemma_days_before_year_monotone(a: int, b: int)
    requires
        a < b,
    ensures
        days_before_year(a + 1) <= days_before_year(b),
    decreases b - a,
{
    if a + 1 < b {
        lemma_days_before_year_monotone(a, b - 1);
        lemma_year_length(b - 1);
    }
}

/// Lexicographic order of valid dates is the order of their ordinals.
pub proof fn lemma_ordinal_order(y1: int, m1: int, d1: int, y2: int, m2: int, d2: int)
    requires
        is_valid_ymd(y1, m1, d1),
        is_valid_ymd(y2, m2, d2),
    ensures
        (ordinal(y1, m1, d1) < ordinal(y2, m2, d2)) == (y1 < y2 || (y1 == y2 && m1 < m2) || (y1
            == y2 && m1 == m2 && d1 < d2)),
        (ordinal(y1, m1, d1) == ordinal(y2, m2, d2)) == (y1 == y2 && m1 == m2 && d1 == d2),
{
    lemma_valid_ordinal_bounds(y1, m1, d1);
    lemma_valid_ordinal_bounds(y2, m2, d2);
    if y1 < y2 {
        lemma_days_before_year_monotone(y1, y2);
    } else if y2 < y1 {
        lemma_days_before_year_monotone(y2, y1);
    } else {
        lemma_year_length(y1);
        if m1 < m2 {
            lemma_month_start_monotone(y1, m1, m2);
        } else if m2 < m1 {
            lemma_month_start_monotone(y1, m2, m1);
        }
    }
}

pub proof fn lemma_month_start_monotone(y: int, a: int, b: int)
    requires
        1 <= a < b <= 12,
    ensures
        month_start(y, a) + month_length(y, a) <= month_start(y, b),
    decreases b - a,
{
    lemma_year_length(y);
    if a + 1 < b {
        lemma_month_start_monotone(y, a, b - 1);
        lemma_next_month_start(y, b - 1);
    } else {
        lemma_next_month_start(y, a);
    }
}

} // verus!
