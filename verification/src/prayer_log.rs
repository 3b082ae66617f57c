//! The log of when an intention was prayed.
use vstd::prelude::*;

use crate::reminder::{CivilDate, CivilDateTime};

verus! {

/// One logged prayer, stamped with the user's local date and time.
#[derive(Clone, Copy, Debug, PartialEq, Eq, Structural)]
pub struct PrayerLogEntry {
    pub year: i32,
    pub month: u32,
    pub day: u32,
    pub hour: u32,
    pub minute: u32,
}

impl PrayerLogEntry {
    /// The entry's calendar date.
    pub open spec fn date(self) -> CivilDate {
        CivilDate { year: self.year, month: self.month, day: self.day }
    }

    /// Lexicographic order on (year, month, day, hour, minute).
    pub open spec fn earlier_than(self, other: PrayerLogEntry) -> bool {
        ||| self.year < other.year
        ||| (self.year == other.year && self.month < other.month)
        ||| (self.year == other.year && self.month == other.month && self.day < other.day)
        ||| (self.year == other.year && self.month == other.month && self.day == other.day
            && self.hour < other.hour)
        ||| (self.year == other.year && self.month == other.month && self.day == other.day
            && self.hour == other.hour && self.minute < other.minute)
    }

    /// Stamps an entry with the local date and time `now`.
    pub fn from_local(now: CivilDateTime) -> (r: Self)
        ensures
            r.date() == now.date,
            r.hour == now.hour,
            r.minute == now.minute,
    {
        Self {
            year: now.date.year,
            month: now.date.month,
            day: now.date.day,
            hour: now.hour,
            minute: now.minute,
        }
    }
}

/// Appends `entry` (append order preserved, repeats allowed).
pub fn append_entry(prayed_on: &mut Vec<PrayerLogEntry>, entry: PrayerLogEntry)
    ensures
        final(prayed_on)@ == old(prayed_on)@.push(entry),
{
    prayed_on.push(entry);
}

/// Removes the entry at `index`. Returns whether the list changed.
pub fn remove_entry(prayed_on: &mut Vec<PrayerLogEntry>, index: usize) -> (r: bool)
    ensures
        r == (index < old(prayed_on)@.len()),
        r ==> final(prayed_on)@ == old(prayed_on)@.remove(index as int),
        !r ==> final(prayed_on)@ == old(prayed_on)@,
{
    if index >= prayed_on.len() {
        return false;
    }
    prayed_on.remove(index);
    true
}

/// Some entry of `log` was made on `date`.
pub open spec fn logged_on(log: Seq<PrayerLogEntry>, date: CivilDate) -> bool {
    exists|i: int| 0 <= i < log.len() && #[trigger] log[i].date() == date
}

/// Whether any entry of `prayed_on` was made on `date`.
pub fn prayed_on_date(prayed_on: &Vec<PrayerLogEntry>, date: CivilDate) -> (r: bool)
    ensures
        r == logged_on(prayed_on@, date),
{
    let mut i: usize = 0;
    while i < prayed_on.len()
        invariant
            0 <= i <= prayed_on@.len(),
            forall|j: int| 0 <= j < i ==> #[trigger] prayed_on@[j].date() != date,
        decreases prayed_on@.len() - i,
    {
        let e = prayed_on[i];
        if e.year == date.year && e.month == date.month && e.day == date.day {
            assert(prayed_on@[i as int].date() == date);
            return true;
        }
        i += 1;
    }
    false
}

/// The latest entry of `log` (the first of equal latest ones), if any.
pub open spec fn latest_entry(log: Seq<PrayerLogEntry>) -> Option<PrayerLogEntry>
    decreases log.len(),
{
    if log.len() == 0 {
        None
    } else {
        match latest_entry(log.drop_last()) {
            None => Some(log.last()),
            Some(best) => if best.earlier_than(log.last()) {
                Some(log.last())
            } else {
                Some(best)
            },
        }
    }
}

/// Whether `a` is strictly earlier than `b`.
pub fn entry_earlier_than(a: PrayerLogEntry, b: PrayerLogEntry) -> (r: bool)
    ensures
        r == a.earlier_than(b),
{
    if a.year != b.year {
        return a.year < b.year;
    }
    if a.month != b.month {
        return a.month < b.month;
    }
    if a.day != b.day {
        return a.day < b.day;
    }
    if a.hour != b.hour {
        return a.hour < b.hour;
    }
    a.minute < b.minute
}

/// The latest entry of `prayed_on`, if any.
pub fn latest_prayed(prayed_on: &Vec<PrayerLogEntry>) -> (r: Option<PrayerLogEntry>)
    ensures
        r == latest_entry(prayed_on@),
{
    let mut best: Option<PrayerLogEntry> = None;
    let mut i: usize = 0;
    while i < prayed_on.len()
        invariant
            0 <= i <= prayed_on@.len(),
            best == latest_entry(prayed_on@.subrange(0, i as int)),
        decreases prayed_on@.len() - i,
    {
        let e = prayed_on[i];
        assert(prayed_on@.subrange(0, i + 1).drop_last() =~= prayed_on@.subrange(0, i as int));
        best = match best {
            None => Some(e),
            Some(b) => if entry_earlier_than(b, e) {
                Some(e)
            } else {
                Some(b)
            },
        };
        i += 1;
    }
    assert(prayed_on@.subrange(0, prayed_on@.len() as int) =~= prayed_on@);
    best
}

} // verus!
