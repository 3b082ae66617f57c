//! Civil dates, due rules for scheduled intentions, and reminder digests.
use vstd::prelude::*;

use crate::app::{
    prayers_view, strings_view, IntentionCadence, Prayer, PrayerStatus, PrayerView,
};
use crate::calendar::{
    carry, days_before_year, is_leap, lemma_carry, month_length, ordinal, tdiv, trem, weekday_of_ordinal, zeller_weekday,
};
use crate::prayer_log::{latest_entry, latest_prayed, logged_on, prayed_on_date, PrayerLogEntry};

verus! {

/// How many days ahead reminder digests are planned.
pub const DIGEST_HORIZON_DAYS: u32 = 14;

/// Calendar date in the user's local timezone (weekday 1 = Sunday, matching `Calendar`).
#[derive(Clone, Copy, Debug, PartialEq, Eq, Structural)]
pub struct CivilDate {
    pub year: i32,
    pub month: u32,
    pub day: u32,
}

/// A local date with an hour and minute.
#[derive(Clone, Copy, Debug, PartialEq, Eq, Structural)]
pub struct CivilDateTime {
    pub date: CivilDate,
    pub hour: u32,
    pub minute: u32,
}

impl CivilDate {
    /// Day number of this date (see [`crate::calendar::ordinal`]).
    pub open spec fn ord(self) -> int {
        ordinal(self.year as int, self.month as int, self.day as int)
    }

    /// This date names a real calendar day.
    pub open spec fn is_valid(self) -> bool {
        1 <= self.month <= 12 && 1 <= self.day <= month_length(self.year as int, self.month as int)
    }

    /// Lexicographic order on (year, month, day).
    pub open spec fn before(self, other: CivilDate) -> bool {
        ||| self.year < other.year
        ||| (self.year == other.year && self.month < other.month)
        ||| (self.year == other.year && self.month == other.month && self.day < other.day)
    }

    /// The date that `(y, m, d)` denotes after months are normalised.
    pub open spec fn from_triple(t: (int, int, int)) -> CivilDate {
        CivilDate { year: t.0 as i32, month: t.1 as u32, day: t.2 as u32 }
    }
}

/// What [`add_days`] returns: the day number `date.day + days` carried into
/// the following months.
pub open spec fn add_days_spec(date: CivilDate, days: int) -> CivilDate {
    CivilDate::from_triple(carry(date.year as int, date.month as int, date.day + days))
}

/// [`add_days`] can run without overflowing its counters: the day sum fits a
/// `u32`, the year it lands in fits an `i32`, and a month number of
/// `u32::MAX` is never moved on.
pub open spec fn add_days_in_range(date: CivilDate, days: int) -> bool {
    &&& date.day + days <= u32::MAX
    &&& carry(date.year as int, date.month as int, date.day + days).0 <= i32::MAX
    &&& (date.day + days <= 30 || date.month < u32::MAX)
}

/// A date with room for one year per 28 days added (and one more) can be
/// moved on by `days` days.
pub proof fn lemma_add_days_in_range(date: CivilDate, days: int)
    requires
        days >= 0,
        date.day + days <= u32::MAX,
        date.year + (date.day + days) / 28 + 1 <= i32::MAX,
        date.day + days <= 30 || date.month < u32::MAX,
    ensures
        add_days_in_range(date, days),
{
    lemma_carry(date.year as int, date.month as int, date.day + days);
}

/// [`weekday`] can evaluate Zeller's congruence without overflow: every
/// partial sum of its terms fits in an `i32`.
pub open spec fn weekday_in_range(date: CivilDate) -> bool {
    let y = if date.month < 3 {
        date.year - 1
    } else {
        date.year as int
    };
    let m = if date.month < 3 {
        date.month + 12
    } else {
        date.month as int
    };
    let mi = if m <= i32::MAX {
        m
    } else {
        0
    };
    let di = if date.day <= i32::MAX {
        date.day as int
    } else {
        0
    };
    let k = trem(y, 100);
    let j = tdiv(y, 100);
    let p1 = di + tdiv(13 * (mi + 1), 5);
    let p2 = p1 + k;
    let p3 = p2 + tdiv(k, 4);
    let p4 = p3 + tdiv(j, 4);
    let p5 = p4 + 5 * j;
    &&& (date.month < 3 ==> date.year > i32::MIN)
    &&& 13 * (mi + 1) <= i32::MAX
    &&& p1 <= i32::MAX
    &&& i32::MIN <= p2 <= i32::MAX
    &&& i32::MIN <= p3 <= i32::MAX
    &&& i32::MIN <= p4 <= i32::MAX
    &&& i32::MIN <= p5 <= i32::MAX
}

/// Every valid date of a year in `-5_874_700..=5_874_700` is in range for [`weekday`].
pub proof fn lemma_weekday_in_range(date: CivilDate)
    requires
        date.is_valid(),
        -5_874_700 <= date.year <= 5_874_700,
    ensures
        weekday_in_range(date),
{
}

/// Whether `year` is a Gregorian leap year.
pub fn is_leap_year(year: i32) -> (r: bool)
    ensures
        r == is_leap(year as int),
{
    (year % 4 == 0 && year % 100 != 0) || (year % 400 == 0)
}

/// Number of days in `month` of `year` (30 for a month outside 1..=12).
pub fn days_in_month(year: i32, month: u32) -> (r: u32)
    ensures
        r == month_length(year as int, month as int),
{
    match month {
        1 | 3 | 5 | 7 | 8 | 10 | 12 => 31,
        4 | 6 | 9 | 11 => 30,
        2 => {
            if is_leap_year(year) {
                29
            } else {
                28
            }
        },
        _ => 30,
    }
}

/// Sunday = 1 … Saturday = 7 (matches `Calendar.component(.weekday)`).
pub fn weekday(date: CivilDate) -> (r: u32)
    requires
        weekday_in_range(date),
    ensures
        r == zeller_weekday(date.year as int, date.month as int, date.day as int),
        1 <= r <= 7,
        date.is_valid() && date.year >= 1 ==> r == weekday_of_ordinal(date.ord()),
{
    proof {
        if date.is_valid() && date.year >= 1 {
            crate::calendar::lemma_zeller(date.year as int, date.month as int, date.day as int);
        }
    }
    let y = if date.month < 3 {
        date.year - 1
    } else {
        date.year
    };
    let m = if date.month < 3 {
        date.month + 12
    } else {
        date.month
    };
    let k = y % 100;
    let j = y / 100;
    let day_i: i32 = if date.day <= 2147483647 {
        date.day as i32
    } else {
        0
    };
    let month_i: i32 = if m <= 2147483647 {
        m as i32
    } else {
        0
    };
    assert(k == trem(y as int, 100));
    assert(j == tdiv(y as int, 100));
    let h = (day_i + (13 * (month_i + 1)) / 5 + k + k / 4 + j / 4 + 5 * j) % 7;
    assert(-7 < h < 7);
    let w = (h + 6) % 7 + 1;
    w as u32
}

/// The date `days` days after `date`.
pub fn add_days(date: CivilDate, days: u32) -> (r: CivilDate)
    requires
        add_days_in_range(date, days as int),
    ensures
        r == add_days_spec(date, days as int),
        r.ord() == date.ord() + days,
        r.day <= month_length(r.year as int, r.month as int),
        r.day <= date.day + days,
        r.day >= 1 <==> date.day + days >= 1,
        date.day + days > month_length(date.year as int, date.month as int) ==> 1 <= r.month
            <= 12,
        1 <= date.month <= 12 ==> 1 <= r.month <= 12,
        date.year <= r.year <= date.year + (date.day + days) / 28 + 1,
{
    let ghost total = date.day + days;
    proof {
        lemma_carry(date.year as int, date.month as int, total);
        crate::calendar::lemma_carry_day_at_most(date.year as int, date.month as int, total);
    }
    let mut y = date.year;
    let mut m = date.month;
    let mut d = date.day + days;
    while d > days_in_month(y, m)
        invariant
            carry(y as int, m as int, d as int) == carry(
                date.year as int,
                date.month as int,
                total,
            ),
            date.year <= y,
            add_days_in_range(date, days as int),
            total == date.day + days,
            d <= total,
            m == date.month || 1 <= m <= 12,
        decreases d,
    {
        proof {
            lemma_carry(y as int, m as int, d as int);
            crate::calendar::lemma_next_month_start(y as int, m as int);
            lemma_carry(date.year as int, date.month as int, total);
        }
        d -= days_in_month(y, m);
        m += 1;
        if m > 12 {
            proof {
                lemma_carry(y + 1, 1, d as int);
                assert(y + 1 <= carry(y + 1, 1, d as int).0);
            }
            m = 1;
            y += 1;
        }
    }
    proof {
        lemma_carry(y as int, m as int, d as int);
    }
    CivilDate { year: y, month: m, day: d }
}

/// Lexicographic "strictly later" on (date, hour, minute).
pub open spec fn is_after(fire: CivilDateTime, now: CivilDateTime) -> bool {
    ||| now.date.before(fire.date)
    ||| (fire.date == now.date && fire.hour > now.hour)
    ||| (fire.date == now.date && fire.hour == now.hour && fire.minute > now.minute)
}

/// Whether `fire` is strictly later than `now`.
pub fn is_future(fire: CivilDateTime, now: CivilDateTime) -> (r: bool)
    ensures
        r == is_after(fire, now),
{
    if fire.date.year != now.date.year {
        return fire.date.year > now.date.year;
    }
    if fire.date.month != now.date.month {
        return fire.date.month > now.date.month;
    }
    if fire.date.day != now.date.day {
        return fire.date.day > now.date.day;
    }
    if fire.hour != now.hour {
        return fire.hour > now.hour;
    }
    fire.minute > now.minute
}


/// Floor division by a positive divisor.
fn floor_div(a: i64, b: i64) -> (r: i64)
    requires
        b > 0,
        a > i64::MIN,
    ensures
        r == a / b,
{
    if a >= 0 {
        a / b
    } else {
        let q = (-a - 1) / b;
        proof {
            let ai = a as int;
            let bi = b as int;
            let qi = q as int;
            assert(ai / bi == -qi - 1) by (nonlinear_arith)
                requires
                    ai < 0,
                    bi > 0,
                    qi == (-ai - 1) / bi,
            ;
        }
        -q - 1
    }
}

/// Day number ([`CivilDate::ord`]) of any date, valid or not.
pub fn ordinal_of(date: CivilDate) -> (r: i64)
    ensures
        r == date.ord(),
{
    let y = date.year as i64;
    let m = date.month;
    let before_year = |y: i64| -> (r: i64)
        requires
            i32::MIN <= y <= i32::MAX + 1,
        ensures
            r == days_before_year(y as int),
        { 365 * (y - 1) + floor_div(y - 1, 4) - floor_div(y - 1, 100) + floor_div(y - 1, 400) };
    let start: i64 = if m < 1 {
        before_year(y) - 30
    } else if m > 12 {
        before_year(y + 1) - 30
    } else {
        let common: i64 = match m {
            1 => 0,
            2 => 31,
            3 => 59,
            4 => 90,
            5 => 120,
            6 => 151,
            7 => 181,
            8 => 212,
            9 => 243,
            10 => 273,
            11 => 304,
            _ => 334,
        };
        let extra: i64 = if m > 2 && is_leap_year(date.year) {
            1
        } else {
            0
        };
        before_year(y) + common + extra
    };
    start + date.day as i64
}

/// Whether `prayer` is due on `date`: daily every day; weekly on Sunday;
/// monthly on the 1st; a novena on the nine days from its start. Only active
/// intentions are ever due.
pub open spec fn due_on(prayer: PrayerView, date: CivilDate) -> bool {
    &&& prayer.status == PrayerStatus::Active
    &&& match prayer.cadence {
        IntentionCadence::Unscheduled => false,
        IntentionCadence::Daily => true,
        IntentionCadence::Weekly => zeller_weekday(
            date.year as int,
            date.month as int,
            date.day as int,
        ) == 1,
        IntentionCadence::Monthly => date.day == 1,
        IntentionCadence::Novena => match prayer.novena_start {
            Some(start) => start.ord() <= date.ord() <= start.ord() + 8,
            None => false,
        },
    }
}

/// Daily every day; weekly on Sunday; monthly on the 1st; novena on the nine
/// days from its start. Active + scheduled only.
pub fn is_due(prayer: &Prayer, date: CivilDate) -> (r: bool)
    requires
        reads_weekday(prayer@) ==> weekday_in_range(date),
    ensures
        r == due_on(prayer@, date),
{
    if prayer.status != PrayerStatus::Active {
        return false;
    }
    match prayer.cadence {
        IntentionCadence::Unscheduled => false,
        IntentionCadence::Daily => true,
        IntentionCadence::Weekly => weekday(date) == 1,
        IntentionCadence::Monthly => date.day == 1,
        IntentionCadence::Novena => match prayer.novena_start {
            Some(start) => {
                let from = ordinal_of(start);
                let today = ordinal_of(date);
                from <= today && today <= from + 8
            },
            None => false,
        },
    }
}


/// One reminder notification: the intentions to pray at a given local time.
#[derive(Clone, Debug, PartialEq, Eq)]
pub struct ReminderDigest {
    pub year: u16,
    pub month: u8,
    pub day: u8,
    pub hour: u8,
    pub minute: u8,
    pub intentions: Vec<String>,
}

/// The value of a [`ReminderDigest`].
#[verifier::ext_equal]
pub struct ReminderDigestView {
    pub year: u16,
    pub month: u8,
    pub day: u8,
    pub hour: u8,
    pub minute: u8,
    pub intentions: Seq<Seq<char>>,
}

impl View for ReminderDigest {
    type V = ReminderDigestView;

    open spec fn view(&self) -> ReminderDigestView {
        ReminderDigestView {
            year: self.year,
            month: self.month,
            day: self.day,
            hour: self.hour,
            minute: self.minute,
            intentions: strings_view(self.intentions@),
        }
    }
}

/// The values of a list of digests.
pub open spec fn digests_view(s: Seq<ReminderDigest>) -> Seq<ReminderDigestView> {
    s.map_values(|d: ReminderDigest| d@)
}

/// A date that every date routine handles without overflow, with room for
/// a year or so of date arithmetic.
pub open spec fn is_bounded_date(date: CivilDate) -> bool {
    &&& -9_000_000 <= date.year <= 9_000_000
    &&& date.month <= 1_000_000
    &&& date.day <= 1_000_000
}

/// A date the weekday routine handles without overflow.
pub open spec fn in_date_window(date: CivilDate) -> bool {
    &&& -10_000_000 <= date.year <= 10_000_000
    &&& date.month <= 1_000_000
    &&& date.day <= 1_000_000
}

pub proof fn lemma_bounded_weekday(date: CivilDate)
    requires
        in_date_window(date),
    ensures
        weekday_in_range(date),
{
}

/// Intentions to remind on `date`: those due that day and not yet prayed
/// that day, in list order.
pub open spec fn reminder_intentions(prayers: Seq<PrayerView>, date: CivilDate) -> Seq<Seq<char>>
    decreases prayers.len(),
{
    if prayers.len() == 0 {
        seq![]
    } else {
        let rest = reminder_intentions(prayers.drop_last(), date);
        let p = prayers.last();
        if due_on(p, date) && !logged_on(p.prayed_on, date) {
            rest.push(p.intention)
        } else {
            rest
        }
    }
}

/// The `k`-th day of a plan that starts on `start`.
pub open spec fn plan_date(start: CivilDate, k: nat) -> CivilDate
    decreases k,
{
    if k == 0 {
        start
    } else {
        add_days_spec(plan_date(start, (k - 1) as nat), 1)
    }
}

/// The year a digest carries: the civil year, or 32767 when it does not fit a `u16`.
pub open spec fn digest_year(year: i32) -> u16 {
    if 0 <= year <= u16::MAX {
        year as u16
    } else {
        32767
    }
}

/// The digest for the `k`-th day of the plan, if it fires after `now` and
/// has intentions.
pub open spec fn digest_for_day(
    prayers: Seq<PrayerView>,
    hour: u8,
    minute: u8,
    now: CivilDateTime,
    k: nat,
) -> Option<ReminderDigestView> {
    let date = plan_date(now.date, k);
    let fire = CivilDateTime { date, hour: hour as u32, minute: minute as u32 };
    let intentions = reminder_intentions(prayers, date);
    if !is_after(fire, now) || intentions.len() == 0 {
        None
    } else {
        Some(
            ReminderDigestView {
                year: digest_year(date.year),
                month: date.month as u8,
                day: date.day as u8,
                hour,
                minute,
                intentions,
            },
        )
    }
}

/// The digests of the first `n` days of the plan, in day order.
pub open spec fn planned_digests(
    prayers: Seq<PrayerView>,
    hour: u8,
    minute: u8,
    now: CivilDateTime,
    n: nat,
) -> Seq<ReminderDigestView>
    decreases n,
{
    if n == 0 {
        seq![]
    } else {
        let rest = planned_digests(prayers, hour, minute, now, (n - 1) as nat);
        match digest_for_day(prayers, hour, minute, now, (n - 1) as nat) {
            Some(d) => rest.push(d),
            None => rest,
        }
    }
}

/// Whether `p` is due reads the weekday: it is an active weekly intention.
pub open spec fn reads_weekday(p: PrayerView) -> bool {
    p.status == PrayerStatus::Active && p.cadence == IntentionCadence::Weekly
}

/// Some intention of `prayers` reads the weekday to tell whether it is due.
pub open spec fn any_reads_weekday(prayers: Seq<PrayerView>) -> bool {
    exists|i: int| 0 <= i < prayers.len() && #[trigger] reads_weekday(prayers[i])
}

/// [`plan_digests`] walks `horizon_days` days from `now` without overflow:
/// with intentions to plan, each day but the last can be moved on by one
/// day, and the weekday of each day not before today can be computed when
/// an intention reads it.
pub open spec fn plan_in_range(prayers: Seq<PrayerView>, now: CivilDateTime, horizon_days: u32) -> bool {
    prayers.len() > 0 ==> forall|k: nat|
        k < horizon_days ==> {
            &&& (k + 1 < horizon_days ==> add_days_in_range(#[trigger] plan_date(now.date, k), 1))
            &&& (any_reads_weekday(prayers) && !plan_date(now.date, k).before(now.date)
                ==> weekday_in_range(plan_date(now.date, k)))
        }
}

/// The days of a plan from a date of moderate size stay of moderate size.
#[verifier::spinoff_prover]
#[verifier::rlimit(50)]
proof fn lemma_plan_dates(d: CivilDate, k: nat)
    requires
        in_date_window(d),
        d.year + 35_800 + 2 * k <= 10_000_000,
    ensures
        in_date_window(plan_date(d, k)),
        d.year <= plan_date(d, k).year <= d.year + 35_800 + 2 * k,
        k >= 1 ==> plan_date(d, k).day <= 31,
        add_days_in_range(plan_date(d, k), 1),
        weekday_in_range(plan_date(d, k)),
    decreases k,
{
    if k > 0 {
        lemma_plan_dates(d, (k - 1) as nat);
        let p = plan_date(d, (k - 1) as nat);
        lemma_carry(p.year as int, p.month as int, p.day + 1);
        crate::calendar::lemma_month_length_bounds(
            carry(p.year as int, p.month as int, p.day + 1).0,
            carry(p.year as int, p.month as int, p.day + 1).1,
        );
    }
    let q = plan_date(d, k);
    lemma_add_days_in_range(q, 1);
}

/// A plan of `horizon_days` days from a date within ten million years of
/// year 0 (months and days at most a million) is in range.
pub proof fn lemma_plan_in_range(prayers: Seq<PrayerView>, now: CivilDateTime, horizon_days: u32)
    requires
        in_date_window(now.date),
        now.date.year + 35_800 + 2 * horizon_days <= 10_000_000,
    ensures
        plan_in_range(prayers, now, horizon_days),
{
    assert forall|k: nat| k < horizon_days implies {
        &&& (k + 1 < horizon_days ==> add_days_in_range(#[trigger] plan_date(now.date, k), 1))
        &&& (any_reads_weekday(prayers) && !plan_date(now.date, k).before(now.date)
            ==> weekday_in_range(plan_date(now.date, k)))
    } by {
        lemma_plan_dates(now.date, k);
    }
}

/// Intentions due on `date` and not yet prayed that day.
fn intentions_due(prayers: &Vec<Prayer>, date: CivilDate) -> (r: Vec<String>)
    requires
        any_reads_weekday(prayers_view(prayers@)) ==> weekday_in_range(date),
    ensures
        strings_view(r@) == reminder_intentions(prayers_view(prayers@), date),
{
    let mut out: Vec<String> = Vec::new();
    let mut i: usize = 0;
    while i < prayers.len()
        invariant
            0 <= i <= prayers@.len(),
            any_reads_weekday(prayers_view(prayers@)) ==> weekday_in_range(date),
            strings_view(out@) == reminder_intentions(prayers_view(prayers@.take(i as int)), date),
        decreases prayers@.len() - i,
    {
        let p = &prayers[i];
        let ghost prev = out@;
        proof {
            assert(prayers_view(prayers@.take(i + 1)).drop_last() =~= prayers_view(
                prayers@.take(i as int),
            ));
            assert(prayers_view(prayers@.take(i + 1)).last() == p@);
            assert(prayers_view(prayers@)[i as int] == p@);
            if reads_weekday(p@) {
                assert(any_reads_weekday(prayers_view(prayers@)));
            }
        }
        if is_due(p, date) && !prayed_on_date(&p.prayed_on, date) {
            out.push(p.intention.clone());
            proof {
                assert(strings_view(out@) =~= strings_view(prev).push(p.intention@));
            }
        }
        i += 1;
    }
    assert(prayers@.take(prayers@.len() as int) =~= prayers@);
    out
}

/// Reminder digests for the next `horizon_days` days, one per day that has
/// intentions due (and not yet prayed) and whose reminder time is still ahead.
pub fn plan_digests(
    prayers: &Vec<Prayer>,
    hour: u8,
    minute: u8,
    now: CivilDateTime,
    horizon_days: u32,
) -> (r: Vec<ReminderDigest>)
    requires
        plan_in_range(prayers_view(prayers@), now, horizon_days),
    ensures
        digests_view(r@) == planned_digests(
            prayers_view(prayers@),
            hour,
            minute,
            now,
            horizon_days as nat,
        ),
{
    if prayers.len() == 0 || horizon_days == 0 {
        proof {
            lemma_no_digests(prayers_view(prayers@), hour, minute, now, horizon_days as nat);
        }
        return Vec::new();
    }
    let mut digests: Vec<ReminderDigest> = Vec::new();
    let mut date = now.date;
    let mut day_offset: u32 = 0;
    while day_offset < horizon_days
        invariant
            prayers@.len() > 0,
            plan_in_range(prayers_view(prayers@), now, horizon_days),
            day_offset <= horizon_days,
            date == plan_date(
                now.date,
                if day_offset == 0 {
                    0
                } else {
                    (day_offset - 1) as nat
                },
            ),
            digests_view(digests@) == planned_digests(
                prayers_view(prayers@),
                hour,
                minute,
                now,
                day_offset as nat,
            ),
        decreases horizon_days - day_offset,
    {
        proof {
            assert(prayers_view(prayers@).len() > 0);
        }
        if day_offset > 0 {
            proof {
                let k = (day_offset - 1) as nat;
                assert(k + 1 < horizon_days);
                assert(add_days_in_range(plan_date(now.date, k), 1));
            }
            date = add_days(date, 1);
        }
        assert(date == plan_date(now.date, day_offset as nat));
        let fire = CivilDateTime { date, hour: hour as u32, minute: minute as u32 };
        let ghost prev = digests@;
        if is_future(fire, now) {
            let intentions = intentions_due(prayers, date);
            if intentions.len() > 0 {
                let year: u16 = if 0 <= date.year && date.year <= 65535 {
                    date.year as u16
                } else {
                    32767
                };
                digests.push(
                    ReminderDigest {
                        year,
                        month: #[verifier::truncate] (date.month as u8),
                        day: #[verifier::truncate] (date.day as u8),
                        hour,
                        minute,
                        intentions,
                    },
                );
                proof {
                    assert(digests_view(digests@) =~= digests_view(prev).push(digests@.last()@));
                }
            }
        }
        day_offset += 1;
    }
    digests
}

/// With no prayers there is nothing to remind.
proof fn lemma_no_digests(
    prayers: Seq<PrayerView>,
    hour: u8,
    minute: u8,
    now: CivilDateTime,
    n: nat,
)
    requires
        prayers.len() == 0 || n == 0,
    ensures
        planned_digests(prayers, hour, minute, now, n) == Seq::<ReminderDigestView>::empty(),
    decreases n,
{
    if n > 0 {
        lemma_no_digests(prayers, hour, minute, now, (n - 1) as nat);
        assert(reminder_intentions(prayers, plan_date(now.date, (n - 1) as nat)) =~= seq![]);
    }
}


/// When an intention was last prayed, as a sort key: never-prayed sorts first.
pub open spec fn recency(p: PrayerView) -> Option<PrayerLogEntry> {
    latest_entry(p.prayed_on)
}

/// Key `a` sorts no later than key `b`: never-prayed first, then by the time
/// of the latest prayer.
pub open spec fn recency_le(a: Option<PrayerLogEntry>, b: Option<PrayerLogEntry>) -> bool {
    match (a, b) {
        (None, _) => true,
        (Some(_), None) => false,
        (Some(x), Some(y)) => !y.earlier_than(x),
    }
}

/// Inserts `p` into the recency-sorted `s` after every element that sorts no later.
pub open spec fn insert_by_recency(s: Seq<PrayerView>, p: PrayerView) -> Seq<PrayerView>
    decreases s.len(),
{
    if s.len() == 0 {
        seq![p]
    } else if recency_le(recency(s.last()), recency(p)) {
        s.push(p)
    } else {
        insert_by_recency(s.drop_last(), p).push(s.last())
    }
}

/// Stable sort of `s` by recency (insertion sort).
pub open spec fn sort_by_recency(s: Seq<PrayerView>) -> Seq<PrayerView>
    decreases s.len(),
{
    if s.len() == 0 {
        s
    } else {
        insert_by_recency(sort_by_recency(s.drop_last()), s.last())
    }
}

/// The prayers of `s` due on `date`, in list order.
pub open spec fn due_prayers(s: Seq<PrayerView>, date: CivilDate) -> Seq<PrayerView>
    decreases s.len(),
{
    if s.len() == 0 {
        s
    } else if due_on(s.last(), date) {
        due_prayers(s.drop_last(), date).push(s.last())
    } else {
        due_prayers(s.drop_last(), date)
    }
}

/// What the day list shows for `date`: the intentions due that day,
/// never-prayed first, then least-recently-prayed.
pub open spec fn day_list(s: Seq<PrayerView>, date: CivilDate) -> Seq<PrayerView> {
    sort_by_recency(due_prayers(s, date))
}

fn recency_le_exec(a: Option<PrayerLogEntry>, b: Option<PrayerLogEntry>) -> (r: bool)
    ensures
        r == recency_le(a, b),
{
    match (a, b) {
        (None, _) => true,
        (Some(_), None) => false,
        (Some(x), Some(y)) => !crate::prayer_log::entry_earlier_than(y, x),
    }
}

/// Inserting at position `j` is inserting by recency when `j` is the place
/// after the last element that sorts no later than `p`.
proof fn lemma_insert_at(s: Seq<PrayerView>, p: PrayerView, j: int)
    requires
        0 <= j <= s.len(),
        j == 0 || recency_le(recency(s[j - 1]), recency(p)),
        forall|k: int| j <= k < s.len() ==> !recency_le(recency(#[trigger] s[k]), recency(p)),
    ensures
        insert_by_recency(s, p) == s.take(j).push(p) + s.skip(j),
    decreases s.len(),
{
    if s.len() == 0 {
        assert(s.take(j).push(p) + s.skip(j) =~= seq![p]);
    } else if j == s.len() {
        assert(s.take(j).push(p) + s.skip(j) =~= s.push(p));
    } else {
        assert(!recency_le(recency(s.last()), recency(p)));
        lemma_insert_at(s.drop_last(), p, j);
        assert(s.drop_last().take(j).push(p) + s.drop_last().skip(j) + seq![s.last()] =~= s.take(
            j,
        ).push(p) + s.skip(j));
    }
}

/// The intentions due on `date`, never-prayed first, then least-recently-prayed.
pub fn select_today(prayers: &Vec<Prayer>, date: CivilDate) -> (r: Vec<Prayer>)
    requires
        weekday_in_range(date),
    ensures
        prayers_view(r@) == day_list(prayers_view(prayers@), date),
{
    let mut out: Vec<Prayer> = Vec::new();
    let mut keys: Vec<Option<PrayerLogEntry>> = Vec::new();
    let mut i: usize = 0;
    while i < prayers.len()
        invariant
            0 <= i <= prayers@.len(),
            weekday_in_range(date),
            out@.len() == keys@.len(),
            forall|k: int| 0 <= k < keys@.len() ==> #[trigger] keys@[k] == recency(out@[k]@),
            prayers_view(out@) == sort_by_recency(
                due_prayers(prayers_view(prayers@.take(i as int)), date),
            ),
        decreases prayers@.len() - i,
    {
        let p = &prayers[i];
        proof {
            assert(prayers_view(prayers@.take(i + 1)).drop_last() =~= prayers_view(
                prayers@.take(i as int),
            ));
            assert(prayers_view(prayers@.take(i + 1)).last() == p@);
        }
        let ghost ps0 = prayers_view(prayers@.take(i as int));
        let ghost ps1 = prayers_view(prayers@.take(i + 1));
        if is_due(p, date) {
            proof {
                assert(due_prayers(ps1, date) == due_prayers(ps0, date).push(p@));
                assert(due_prayers(ps0, date).push(p@).drop_last() =~= due_prayers(ps0, date));
                assert(sort_by_recency(due_prayers(ps1, date)) == insert_by_recency(
                    sort_by_recency(due_prayers(ps0, date)),
                    p@,
                ));
            }
            let key = latest_prayed(&p.prayed_on);
            let mut j = out.len();
            while j > 0 && !recency_le_exec(keys[j - 1], key)
                invariant
                    0 <= j <= out@.len(),
                    out@.len() == keys@.len(),
                    forall|k: int| 0 <= k < keys@.len() ==> #[trigger] keys@[k] == recency(
                        out@[k]@,
                    ),
                    key == recency(p@),
                    forall|k: int|
                        j <= k < out@.len() ==> !recency_le(
                            recency(#[trigger] prayers_view(out@)[k]),
                            recency(p@),
                        ),
                decreases j,
            {
                j -= 1;
            }
            let ghost before = out@;
            proof {
                lemma_insert_at(prayers_view(before), p@, j as int);
            }
            out.insert(j, p.copy());
            keys.insert(j, key);
            proof {
                assert(prayers_view(out@) =~= prayers_view(before).take(j as int).push(p@)
                    + prayers_view(before).skip(j as int));
                assert forall|k: int| 0 <= k < keys@.len() implies #[trigger] keys@[k] == recency(
                    out@[k]@,
                ) by {
                    if k < j {
                        assert(out@[k] == before[k]);
                    } else if k > j {
                        assert(out@[k] == before[k - 1]);
                    }
                }
            }
        } else {
            assert(due_prayers(ps1, date) == due_prayers(ps0, date));
        }
        i += 1;
    }
    assert(prayers@.take(prayers@.len() as int) =~= prayers@);
    out
}

/// `date` moved `delta` years, its day clamped to the length of the month there.
pub open spec fn shift_years(date: CivilDate, delta: int) -> CivilDate {
    let year = date.year + delta;
    let len = month_length(year, date.month as int);
    CivilDate {
        year: year as i32,
        month: date.month,
        day: if date.day <= len {
            date.day
        } else {
            len as u32
        },
    }
}

fn shift_years_exec(date: CivilDate, delta: i32) -> (r: CivilDate)
    requires
        delta == 1 || delta == -1,
        i32::MIN < date.year < i32::MAX,
    ensures
        r == shift_years(date, delta as int),
{
    let year = date.year + delta;
    let len = days_in_month(year, date.month);
    CivilDate {
        year,
        month: date.month,
        day: if date.day <= len {
            date.day
        } else {
            len
        },
    }
}

/// Earliest and latest day selectable on the in-app calendar: one year
/// before and after `today` (29 February maps to 28 February).
pub fn calendar_range(today: CivilDate) -> (r: (CivilDate, CivilDate))
    requires
        i32::MIN < today.year < i32::MAX,
    ensures
        r.0 == shift_years(today, -1),
        r.1 == shift_years(today, 1),
{
    (shift_years_exec(today, -1), shift_years_exec(today, 1))
}

/// `date` clamped into the calendar range around `today`.
pub open spec fn clamped_to_range(date: CivilDate, today: CivilDate) -> CivilDate {
    let lo = shift_years(today, -1);
    let hi = shift_years(today, 1);
    if date.before(lo) {
        lo
    } else if hi.before(date) {
        hi
    } else {
        date
    }
}

/// Clamps a selected calendar day to one year either side of `today`.
pub fn clamp_calendar_date(date: CivilDate, today: CivilDate) -> (r: CivilDate)
    requires
        i32::MIN < today.year < i32::MAX,
    ensures
        r == clamped_to_range(date, today),
{
    let (lo, hi) = calendar_range(today);
    if before_exec(date, lo) {
        lo
    } else if before_exec(hi, date) {
        hi
    } else {
        date
    }
}

/// Whether `a` comes strictly before `b` (year, then month, then day).
pub fn before_exec(a: CivilDate, b: CivilDate) -> (r: bool)
    ensures
        r == a.before(b),
{
    a.year < b.year || (a.year == b.year && a.month < b.month) || (a.year == b.year && a.month
        == b.month && a.day < b.day)
}

} // verus!
