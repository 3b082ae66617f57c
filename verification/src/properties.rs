//! Properties of the library that span several functions or calls, stated
//! over the same spec functions and views that the functions' contracts use.
use vstd::prelude::*;

use crate::account::{AccountStatus, Session, SessionView, API_BASE_URL};
use crate::app::{
    cleaned_tags, normalized_details, normalized_intention, normalized_tags, EffectView, Event,
    IntentionCadence, ModelView, PrayerStatus, PrayerView, StoredState, StoredStateView, MAX_DETAILS_LEN,
    MAX_INTENTION_LEN, MAX_TAGS, MAX_TAG_LEN,
};
use crate::calendar::{
    lemma_borrow, lemma_borrow_shape, lemma_carry, lemma_ordinal_order, lemma_zeller, zeller_weekday,
};
use crate::liturgical::subtract_days_spec;
use crate::prayer_log::PrayerLogEntry;
use crate::text::{take_chars, trim};
use crate::update::{
    adds_prayer, bearer, clock_in_range, find_prayer, is_busy, render_only, persisted, stored_of, sync_get_pushes, touched_version, transition,
    update_in_range, without_id,
};
use crate::view_model::{view_of, with_status};
use crate::reminder::{
    add_days_in_range, add_days_spec, clamped_to_range, day_list, digest_for_day, due_on,
    due_prayers, insert_by_recency, is_after, plan_date, planned_digests, recency, recency_le,
    shift_years, sort_by_recency, CivilDate, CivilDateTime,
};

verus! {

// ---------------------------------------------------------------------------
// Dates
// ---------------------------------------------------------------------------

/// A valid date moved forward by `n` days is a valid date `n` ordinals later.
proof fn lemma_add_days_valid(date: CivilDate, n: int)
    requires
        date.is_valid(),
        n >= 0,
        add_days_in_range(date, n),
    ensures
        add_days_spec(date, n).is_valid(),
        add_days_spec(date, n).ord() == date.ord() + n,
{
    lemma_carry(date.year as int, date.month as int, date.day + n);
}

/// `n` days after a date of year 1 or later, the weekday has moved on by
/// `n` modulo 7 (1 = Sunday … 7 = Saturday).
#[verifier::spinoff_prover]
pub proof fn law_weekday_after_days(date: CivilDate, n: int)
    requires
        date.is_valid(),
        date.year >= 1,
        n >= 0,
        add_days_in_range(date, n),
    ensures
        ({
            let later = add_days_spec(date, n);
            zeller_weekday(later.year as int, later.month as int, later.day as int) == (
            zeller_weekday(date.year as int, date.month as int, date.day as int) - 1 + n) % 7 + 1
        }),
{
    let later = add_days_spec(date, n);
    lemma_add_days_valid(date, n);
    lemma_carry(date.year as int, date.month as int, date.day + n);
    lemma_zeller(date.year as int, date.month as int, date.day as int);
    lemma_zeller(later.year as int, later.month as int, later.day as int);
    let o = date.ord();
    vstd::arithmetic::div_mod::lemma_add_mod_noop(o, n, 7);
    vstd::arithmetic::div_mod::lemma_add_mod_noop(o % 7, n, 7);
    vstd::arithmetic::div_mod::lemma_mod_twice(o, 7);
    assert(o % 7 + 1 - 1 + n == o % 7 + n);
}

/// The next day is the next weekday (Sunday follows Saturday), and a week
/// later is the same weekday, for dates of year 1 or later that can be moved
/// on by a week.
pub proof fn law_weekday_next_day(date: CivilDate)
    requires
        date.is_valid(),
        date.year >= 1,
        add_days_in_range(date, 7),
    ensures
        ({
            let w = zeller_weekday(date.year as int, date.month as int, date.day as int);
            let next = add_days_spec(date, 1);
            let week = add_days_spec(date, 7);
            &&& 1 <= w <= 7
            &&& zeller_weekday(next.year as int, next.month as int, next.day as int) == w % 7 + 1
            &&& zeller_weekday(week.year as int, week.month as int, week.day as int) == w
        }),
{
    crate::calendar::lemma_carry_year_monotone(
        date.year as int,
        date.month as int,
        date.day + 1,
        date.day + 7,
    );
    law_weekday_after_days(date, 1);
    law_weekday_after_days(date, 7);
    lemma_zeller(date.year as int, date.month as int, date.day as int);
}

/// Moving a valid date on by no days leaves it as it is, and moving it on by
/// `a` days and then by `b` days lands on a valid date, the same as moving it
/// on by `a + b` days at once, whenever that single move can be made.
pub proof fn law_add_days_composes(date: CivilDate, a: int, b: int)
    requires
        date.is_valid(),
        a >= 0,
        b >= 0,
        add_days_in_range(date, a + b),
    ensures
        add_days_spec(date, 0) == date,
        add_days_in_range(date, a),
        add_days_in_range(add_days_spec(date, a), b),
        add_days_spec(date, a).is_valid(),
        add_days_spec(add_days_spec(date, a), b) == add_days_spec(date, a + b),
{
    let (y, m) = (date.year as int, date.month as int);
    lemma_carry(y, m, date.day as int);
    crate::calendar::lemma_carry_year_monotone(y, m, date.day + a, date.day + a + b);
    lemma_carry(y, m, date.day + a);
    crate::calendar::lemma_carry_day_at_most(y, m, date.day + a);
    lemma_add_days_valid(date, a);
    crate::calendar::lemma_carry_compose(y, m, date.day + a, b);
    let c = crate::calendar::carry(y, m, date.day + a);
    let mid = add_days_spec(date, a);
    assert(mid.year as int == c.0 && mid.month as int == c.1 && mid.day as int == c.2);
}

/// Going `n` days forward and then `n` days back returns to the same date.
pub proof fn law_subtract_undoes_add(date: CivilDate, n: int)
    requires
        date.is_valid(),
        0 <= n <= i32::MAX,
        add_days_in_range(date, n),
    ensures
        subtract_days_spec(add_days_spec(date, n), n) == date,
{
    let later = add_days_spec(date, n);
    lemma_add_days_valid(date, n);
    let (y, m, d) = (later.year as int, later.month as int, later.day - n);
    lemma_borrow(y, m, d);
    let (ry, rm, rd) = crate::calendar::borrow(y, m, d);
    lemma_ordinal_order(
        ry,
        rm,
        rd,
        date.year as int,
        date.month as int,
        date.day as int,
    );
}

/// Going `n` days back and then `n` days forward returns to the same date.
pub proof fn law_add_undoes_subtract(date: CivilDate, n: int)
    requires
        date.is_valid(),
        0 <= n <= i32::MAX,
        date.year + (date.day - n) / 28 - 1 > i32::MIN,
    ensures
        add_days_spec(subtract_days_spec(date, n), n) == date,
{
    let (y, m, d) = (date.year as int, date.month as int, date.day - n);
    lemma_borrow(y, m, d);
    lemma_borrow_shape(y, m, d);
    let earlier = subtract_days_spec(date, n);
    let (ry, rm, rd) = crate::calendar::borrow(y, m, d);
    assert(earlier.year == ry && earlier.month == rm && earlier.day == rd);
    lemma_carry(ry, rm, rd + n);
    let (cy, cm, cd) = crate::calendar::carry(ry, rm, rd + n);
    lemma_ordinal_order(cy, cm, cd, date.year as int, date.month as int, date.day as int);
}

/// A day picked on the calendar always lands within a year either side of
/// today, and a day already in that range is kept as it is.
pub proof fn law_calendar_clamp(date: CivilDate, today: CivilDate)
    requires
        i32::MIN < today.year < i32::MAX,
    ensures
        !clamped_to_range(date, today).before(shift_years(today, -1)),
        !shift_years(today, 1).before(clamped_to_range(date, today)),
        !date.before(shift_years(today, -1)) && !shift_years(today, 1).before(date)
            ==> clamped_to_range(date, today) == date,
{
}

// ---------------------------------------------------------------------------
// Reminders
// ---------------------------------------------------------------------------

/// A plan over `n` days has at most `n` reminders; each is the digest of one
/// of those days, fires strictly after `now`, at the chosen time, and names
/// at least one intention.
pub proof fn law_planned_reminders_fire_later(
    prayers: Seq<PrayerView>,
    hour: u8,
    minute: u8,
    now: CivilDateTime,
    n: nat,
)
    ensures
        ({
            let ds = planned_digests(prayers, hour, minute, now, n);
            &&& ds.len() <= n
            &&& forall|i: int|
                0 <= i < ds.len() ==> {
                    &&& (#[trigger] ds[i]).intentions.len() > 0
                    &&& ds[i].hour == hour
                    &&& ds[i].minute == minute
                    &&& exists|k: nat|
                        k < n && #[trigger] digest_for_day(prayers, hour, minute, now, k) == Some(
                            ds[i],
                        ) && is_after(
                            CivilDateTime {
                                date: plan_date(now.date, k),
                                hour: hour as u32,
                                minute: minute as u32,
                            },
                            now,
                        )
                }
        }),
    decreases n,
{
    if n > 0 {
        let k = (n - 1) as nat;
        law_planned_reminders_fire_later(prayers, hour, minute, now, k);
        let rest = planned_digests(prayers, hour, minute, now, k);
        let ds = planned_digests(prayers, hour, minute, now, n);
        match digest_for_day(prayers, hour, minute, now, k) {
            Some(d) => {
                assert(ds == rest.push(d));
                assert forall|i: int| 0 <= i < ds.len() implies {
                    &&& (#[trigger] ds[i]).intentions.len() > 0
                    &&& ds[i].hour == hour
                    &&& ds[i].minute == minute
                    &&& exists|j: nat|
                        j < n && #[trigger] digest_for_day(prayers, hour, minute, now, j) == Some(
                            ds[i],
                        ) && is_after(
                            CivilDateTime {
                                date: plan_date(now.date, j),
                                hour: hour as u32,
                                minute: minute as u32,
                            },
                            now,
                        )
                } by {
                    if i == ds.len() - 1 {
                        assert(ds[i] == d);
                        assert(digest_for_day(prayers, hour, minute, now, k) == Some(ds[i]));
                    } else {
                        assert(ds[i] == rest[i]);
                    }
                }
            },
            None => {
                assert(ds == rest);
            },
        }
    }
}

/// `s` is in day-list order: never-prayed first, then least recently prayed.
pub open spec fn recency_sorted(s: Seq<PrayerView>) -> bool {
    forall|i: int, j: int|
        0 <= i < j < s.len() ==> recency_le(recency(#[trigger] s[i]), recency(#[trigger] s[j]))
}

/// The day-list order is total and transitive.
proof fn lemma_recency_order()
    ensures
        forall|a: Option<PrayerLogEntry>, b: Option<PrayerLogEntry>|
            #[trigger] recency_le(a, b) || #[trigger] recency_le(b, a),
        forall|a: Option<PrayerLogEntry>, b: Option<PrayerLogEntry>, c: Option<PrayerLogEntry>|
            #[trigger] recency_le(a, b) && #[trigger] recency_le(b, c) ==> recency_le(a, c),
{
}

/// Inserting by recency into a sorted list keeps it sorted and adds exactly `p`.
proof fn lemma_insert_by_recency(s: Seq<PrayerView>, p: PrayerView)
    requires
        recency_sorted(s),
    ensures
        recency_sorted(insert_by_recency(s, p)),
        insert_by_recency(s, p).to_multiset() == s.to_multiset().insert(p),
    decreases s.len(),
{
    broadcast use vstd::seq_lib::group_to_multiset_ensures;

    lemma_recency_order();
    if s.len() == 0 {
        assert(seq![p] =~= s.push(p));
    } else if recency_le(recency(s.last()), recency(p)) {
        let r = s.push(p);
        assert forall|i: int, j: int| 0 <= i < j < r.len() implies recency_le(
            recency(#[trigger] r[i]),
            recency(#[trigger] r[j]),
        ) by {
            if j == r.len() - 1 && i < s.len() - 1 {
                assert(recency_le(recency(s[i]), recency(s[s.len() - 1])));
            }
        }
    } else {
        let t = s.drop_last();
        let last = s.last();
        assert(s == t.push(last));
        assert forall|i: int, j: int| 0 <= i < j < t.len() implies recency_le(
            recency(#[trigger] t[i]),
            recency(#[trigger] t[j]),
        ) by {
            assert(t[i] == s[i] && t[j] == s[j]);
        }
        lemma_insert_by_recency(t, p);
        let u = insert_by_recency(t, p);
        let r = u.push(last);
        assert(u.to_multiset() =~= t.to_multiset().insert(p));
        assert(r.to_multiset() =~= s.to_multiset().insert(p));
        assert forall|i: int, j: int| 0 <= i < j < r.len() implies recency_le(
            recency(#[trigger] r[i]),
            recency(#[trigger] r[j]),
        ) by {
            if j == r.len() - 1 {
                let x = u[i];
                assert(u.contains(x));
                assert(u.to_multiset().count(x) > 0);
                if x != p {
                    assert(t.to_multiset().count(x) > 0);
                    assert(t.contains(x));
                    let k = choose|k: int| 0 <= k < t.len() && t[k] == x;
                    assert(s[k] == x);
                    assert(recency_le(recency(s[k]), recency(s[s.len() - 1])));
                }
            }
        }
    }
}

/// Sorting by recency gives a sorted list with the same elements.
proof fn lemma_sort_by_recency(s: Seq<PrayerView>)
    ensures
        recency_sorted(sort_by_recency(s)),
        sort_by_recency(s).to_multiset() == s.to_multiset(),
    decreases s.len(),
{
    broadcast use vstd::seq_lib::group_to_multiset_ensures;

    if s.len() > 0 {
        lemma_sort_by_recency(s.drop_last());
        lemma_insert_by_recency(sort_by_recency(s.drop_last()), s.last());
        assert(s == s.drop_last().push(s.last()));
    }
}

/// The prayers kept by `due_prayers` are exactly the due prayers of `s`.
proof fn lemma_due_prayers(s: Seq<PrayerView>, date: CivilDate)
    ensures
        forall|p: PrayerView|
            #[trigger] due_prayers(s, date).contains(p) <==> s.contains(p) && due_on(p, date),
    decreases s.len(),
{
    if s.len() > 0 {
        let t = s.drop_last();
        lemma_due_prayers(t, date);
        assert(s == t.push(s.last()));
        assert forall|p: PrayerView| #[trigger] due_prayers(s, date).contains(p) <==> s.contains(p)
            && due_on(p, date) by {
            if s.contains(p) && due_on(p, date) {
                let k = choose|k: int| 0 <= k < s.len() && s[k] == p;
                if k < s.len() - 1 {
                    assert(t[k] == p);
                    assert(t.contains(p));
                    assert(due_prayers(t, date).contains(p));
                    let d = due_prayers(t, date);
                    let j = choose|j: int| 0 <= j < d.len() && d[j] == p;
                    if due_on(s.last(), date) {
                        assert(due_prayers(s, date) == d.push(s.last()));
                    } else {
                        assert(due_prayers(s, date) == d);
                    }
                    assert(due_prayers(s, date)[j] == p);
                } else {
                    assert(due_prayers(s, date).last() == p);
                }
            }
            if due_prayers(s, date).contains(p) {
                let d = due_prayers(s, date);
                let j = choose|j: int| 0 <= j < d.len() && d[j] == p;
                if due_on(s.last(), date) && j == d.len() - 1 {
                    assert(s[s.len() - 1] == p);
                } else {
                    assert(due_prayers(t, date)[j] == p);
                    assert(due_prayers(t, date).contains(p));
                    let k = choose|k: int| 0 <= k < t.len() && t[k] == p;
                    assert(s[k] == p);
                }
            }
        }
    }
}

/// The day list for a date holds exactly the intentions due that day (each
/// as often as in the list of intentions), never-prayed ones first, then
/// from least to most recently prayed.
pub proof fn law_day_list_is_due_and_ordered(s: Seq<PrayerView>, date: CivilDate)
    ensures
        recency_sorted(day_list(s, date)),
        day_list(s, date).to_multiset() == due_prayers(s, date).to_multiset(),
        forall|p: PrayerView|
            #[trigger] day_list(s, date).contains(p) <==> s.contains(p) && due_on(p, date),
{
    broadcast use vstd::seq_lib::group_to_multiset_ensures;

    lemma_sort_by_recency(due_prayers(s, date));
    lemma_due_prayers(s, date);
    assert forall|p: PrayerView| #[trigger] day_list(s, date).contains(p) <==> s.contains(p)
        && due_on(p, date) by {
        assert(day_list(s, date).to_multiset().count(p) == due_prayers(s, date).to_multiset().count(p));
    }
}

// ---------------------------------------------------------------------------
// The prayer log
// ---------------------------------------------------------------------------

/// Removing the entry that was just appended gives back the log as it was.
pub proof fn law_remove_appended_entry(log: Seq<PrayerLogEntry>, entry: PrayerLogEntry)
    ensures
        log.push(entry).remove(log.len() as int) == log,
{
    assert(log.push(entry).remove(log.len() as int) =~= log);
}

// ---------------------------------------------------------------------------
// Persistence and sync
// ---------------------------------------------------------------------------

/// Every state the core asks the shell to persist is the persisted part of
/// the model it moves to.
#[verifier::spinoff_prover]
#[verifier::rlimit(60)]
pub proof fn law_persist_writes_next_state(m: ModelView, event: Event)
    ensures
        ({
            let (next, effects) = transition(m, event);
            forall|i: int|
                0 <= i < effects.len() && #[trigger] effects[i] is PersistState ==> effects[i]
                    == EffectView::PersistState(stored_of(next))
        }),
{
    match event {
        Event::AddPrayer { .. } => {},
        Event::UpdatePrayer { .. } => {},
        Event::RemovePrayer { .. } => {},
        Event::RemoveAllPrayers => {},
        Event::ArchivePrayer { .. } => {},
        Event::UnarchivePrayer { .. } => {},
        Event::SetReminderSettings { .. } => {},
        Event::LogPrayer { .. } => {},
        Event::RemovePrayerLogEntry { .. } => {},
        Event::SyncGetCompleted(result) => {
            if m.session is Some && m.account_status == AccountStatus::Syncing {
                match result {
                    Ok(Some(remote)) => {},
                    _ => {},
                }
            }
        },
        Event::SyncPutCompleted(_) => {},
        _ => {},
    }
}

/// Reading back a stored state gives the model exactly that state, whatever
/// the model held before.
pub proof fn law_load_restores_stored_state(m: ModelView, stored: StoredState)
    ensures
        stored_of(transition(m, Event::PrayersLoaded(Some(stored))).0) == stored@,
        transition(m, Event::PrayersLoaded(Some(stored))).1 == seq![EffectView::Render],
{
}

/// Every session the core asks the shell to persist is the session of the
/// model it moves to, and reading a stored session back signs the model in
/// with exactly that session and its last sync time.
#[verifier::spinoff_prover]
#[verifier::rlimit(60)]
pub proof fn law_session_round_trip(m: ModelView, event: Event, stored: Session)
    ensures
        ({
            let (next, effects) = transition(m, event);
            forall|i: int|
                0 <= i < effects.len() && #[trigger] effects[i] is PersistSession ==> next.session
                    == Some(effects[i]->PersistSession_0)
        }),
        ({
            let loaded = transition(m, Event::SessionLoaded(Some(stored))).0;
            &&& loaded.session == Some(stored@)
            &&& loaded.last_synced_at == stored.last_synced_at
            &&& loaded.account_status == AccountStatus::SignedIn
        }),
{
    match event {
        Event::AuthCompleted { .. } => {},
        Event::SyncGetCompleted(result) => {
            if m.session is Some && m.account_status == AccountStatus::Syncing {
                match result {
                    Ok(Some(remote)) => {},
                    _ => {},
                }
            }
        },
        Event::SyncPutCompleted(_) => {},
        _ => {},
    }
}

/// The account status agrees with the session: signed in or syncing only
/// with a session, and signing in only without one.
pub open spec fn session_agrees(m: ModelView) -> bool {
    &&& (m.account_status == AccountStatus::SignedIn || m.account_status
        == AccountStatus::Syncing) ==> m.session is Some
    &&& m.account_status == AccountStatus::SigningIn ==> m.session is None
}

/// Every event keeps the account status in agreement with the session.
#[verifier::spinoff_prover]
#[verifier::rlimit(60)]
pub proof fn law_session_agrees(m: ModelView, event: Event)
    requires
        session_agrees(m),
    ensures
        session_agrees(transition(m, event).0),
{
    match event {
        Event::SyncGetCompleted(result) => {
            if m.session is Some && m.account_status == AccountStatus::Syncing {
                match result {
                    Ok(Some(remote)) => {},
                    _ => {},
                }
            }
        },
        Event::SyncPutCompleted(_) => {},
        Event::AuthCompleted { .. } => {},
        _ => {},
    }
}

/// Last writer wins: when the server's document is newer than the local
/// one, it replaces the local state (and is persisted); otherwise the local
/// state is kept and pushed, with a version no older than before.
pub proof fn law_sync_newer_document_wins(
    m: ModelView,
    session: SessionView,
    remote: StoredState,
)
    requires
        m.session == Some(session),
        m.account_status == AccountStatus::Syncing,
    ensures
        ({
            let (next, effects) = transition(m, Event::SyncGetCompleted(Ok(Some(remote))));
            &&& remote.updated_at > m.updated_at ==> {
                &&& stored_of(next) == remote@
                &&& next.account_status == AccountStatus::SignedIn
                &&& effects.len() == 3
                &&& effects[1] == EffectView::PersistState(remote@)
            }
            &&& remote.updated_at <= m.updated_at ==> {
                &&& next.prayers == m.prayers
                &&& next.next_id == m.next_id
                &&& next.reminder_settings == m.reminder_settings
                &&& clock_in_range(m) ==> next.updated_at >= m.updated_at
                &&& effects == seq![
                    EffectView::PushSync {
                        url: API_BASE_URL@ + "/sync"@,
                        authorization: bearer(session.token),
                        body: stored_of(next),
                    },
                ]
            }
        }),
{
}

/// The document version never goes back, except when a stored state is
/// loaded from the shell: local changes move it forward (or keep it), and a
/// sync adopts only a newer version.
#[verifier::spinoff_prover]
#[verifier::rlimit(60)]
pub proof fn law_version_never_goes_back(m: ModelView, event: Event)
    requires
        update_in_range(m, event),
        !(event is PrayersLoaded),
    ensures
        transition(m, event).0.updated_at >= m.updated_at,
{
    match event {
        Event::SyncGetCompleted(result) => {
            if sync_get_pushes(m, result) {
                assert(clock_in_range(m));
            }
        },
        Event::AddPrayer { .. } => lemma_local_step(m, event),
        Event::UpdatePrayer { .. } => lemma_local_step(m, event),
        Event::RemovePrayer { .. } => lemma_local_step(m, event),
        Event::RemoveAllPrayers => lemma_local_step(m, event),
        Event::ArchivePrayer { .. } => lemma_local_step(m, event),
        Event::UnarchivePrayer { .. } => lemma_local_step(m, event),
        Event::SetReminderSettings { .. } => lemma_local_step(m, event),
        Event::LogPrayer { .. } => lemma_local_step(m, event),
        Event::RemovePrayerLogEntry { .. } => lemma_local_step(m, event),
        _ => {},
    }
}

/// A local change either leaves the model as it is and only renders, or is
/// saved with the version moved on by `touched_version`.
#[verifier::spinoff_prover]
#[verifier::rlimit(60)]
proof fn lemma_local_step(m: ModelView, event: Event)
    requires
        event is AddPrayer || event is UpdatePrayer || event is RemovePrayer
            || event is RemoveAllPrayers || event is ArchivePrayer || event is UnarchivePrayer
            || event is SetReminderSettings || event is LogPrayer || event is RemovePrayerLogEntry,
    ensures
        transition(m, event).1 == render_only() ==> transition(m, event).0 == m,
        transition(m, event).1 != render_only() ==> transition(m, event).0.updated_at
            == touched_version(m),
{
    assert(render_only().len() == 1);
    assert forall|x: ModelView| #[trigger] persisted(x).1.len() == 2 by {}
}

// ---------------------------------------------------------------------------
// Intentions
// ---------------------------------------------------------------------------

/// Updating a prayer in place with one of the same id keeps where each id is found.
proof fn lemma_find_after_update(s: Seq<PrayerView>, i: int, p: PrayerView, id: u64)
    requires
        0 <= i < s.len(),
        p.id == s[i].id,
    ensures
        find_prayer(s.update(i, p), id) == find_prayer(s, id),
    decreases s.len(),
{
    if i < s.len() - 1 {
        lemma_find_after_update(s.drop_last(), i, p, id);
        assert(s.update(i, p).drop_last() =~= s.drop_last().update(i, p));
    } else {
        assert(s.update(i, p).drop_last() =~= s.drop_last());
    }
}

/// The intention at `i` is the first one with `id`.
proof fn lemma_find_first(s: Seq<PrayerView>, id: u64, i: int)
    requires
        0 <= i < s.len(),
        s[i].id == id,
        forall|j: int| 0 <= j < i ==> s[j].id != id,
    ensures
        find_prayer(s, id) == Some(i),
    decreases s.len(),
{
    if i < s.len() - 1 {
        lemma_find_first(s.drop_last(), id, i);
    } else {
        lemma_find_none(s.drop_last(), id);
    }
}

/// No intention has `id`.
proof fn lemma_find_none(s: Seq<PrayerView>, id: u64)
    requires
        forall|j: int| 0 <= j < s.len() ==> s[j].id != id,
    ensures
        find_prayer(s, id) is None,
    decreases s.len(),
{
    if s.len() > 0 {
        lemma_find_none(s.drop_last(), id);
    }
}

/// Removing log entry `index` of the (first) intention with `id` takes out
/// exactly that entry: the entries before it stay where they are, those
/// after it move up by one, nothing else of that intention changes, and the
/// other intentions are untouched.
pub proof fn law_remove_log_entry_takes_out_that_entry(m: ModelView, id: u64, index: u64, i: int)
    requires
        0 <= i < m.prayers.len(),
        m.prayers[i].id == id,
        forall|j: int| 0 <= j < i ==> m.prayers[j].id != id,
        index < m.prayers[i].prayed_on.len(),
        index <= usize::MAX,
    ensures
        ({
            let next = transition(m, Event::RemovePrayerLogEntry { id, index }).0;
            let before = m.prayers[i].prayed_on;
            let after = next.prayers[i].prayed_on;
            &&& next.prayers.len() == m.prayers.len()
            &&& forall|j: int| 0 <= j < m.prayers.len() && j != i ==> next.prayers[j] == m.prayers[j]
            &&& next.prayers[i] == PrayerView { prayed_on: after, ..m.prayers[i] }
            &&& next.next_id == m.next_id
            &&& after.len() == before.len() - 1
            &&& forall|k: int| 0 <= k < index ==> after[k] == before[k]
            &&& forall|k: int| index <= k < after.len() ==> after[k] == before[k + 1]
        }),
{
    lemma_find_first(m.prayers, id, i);
    assert(index as usize == index);
}

/// An intention in the day list for `date` is marked prayed that day exactly
/// when its log holds an entry made on that calendar day (same year, month
/// and day); entries made on other days do not mark it.
pub proof fn law_prayed_today_means_logged_that_day(s: Seq<PrayerView>, date: CivilDate, i: int)
    requires
        0 <= i < crate::view_model::day_entries(s, date).len(),
    ensures
        ({
            let entry = crate::view_model::day_entries(s, date)[i];
            let log = entry.prayer.prayed_on;
            &&& entry.prayer == crate::reminder::day_list(s, date)[i]
            &&& entry.prayed_today == exists|k: int|
                0 <= k < log.len() && log[k].year == date.year && log[k].month == date.month
                    && log[k].day == date.day
        }),
{
    let entry = crate::view_model::day_entries(s, date)[i];
    let log = entry.prayer.prayed_on;
    if entry.prayed_today {
        let k = choose|k: int| 0 <= k < log.len() && #[trigger] log[k].date() == date;
        assert(log[k].year == date.year && log[k].month == date.month && log[k].day == date.day);
    } else {
        assert forall|k: int| 0 <= k < log.len() implies !(log[k].year == date.year
            && log[k].month == date.month && log[k].day == date.day) by {
            if log[k].year == date.year && log[k].month == date.month && log[k].day == date.day {
                assert(log[k].date() == date);
            }
        }
    }
}

/// Archiving an active intention and then unarchiving it gives back the
/// same intentions.
pub proof fn law_unarchive_undoes_archive(m: ModelView, id: u64)
    requires
        find_prayer(m.prayers, id) matches Some(i) && m.prayers[i].status == PrayerStatus::Active,
    ensures
        ({
            let archived = transition(m, Event::ArchivePrayer { id }).0;
            transition(archived, Event::UnarchivePrayer { id }).0.prayers == m.prayers
        }),
{
    let i = find_prayer(m.prayers, id).unwrap();
    lemma_find_some(m.prayers, id);
    let q = PrayerView { status: PrayerStatus::Archived, ..m.prayers[i] };
    lemma_find_after_update(m.prayers, i, q, id);
    let s1 = m.prayers.update(i, q);
    assert(s1.update(i, PrayerView { status: PrayerStatus::Active, ..s1[i] }) =~= m.prayers);
}

/// Where `find_prayer` finds an id, the prayer there has it.
proof fn lemma_find_some(s: Seq<PrayerView>, id: u64)
    ensures
        find_prayer(s, id) matches Some(i) ==> 0 <= i < s.len() && s[i].id == id,
    decreases s.len(),
{
    if s.len() > 0 {
        lemma_find_some(s.drop_last(), id);
    }
}

/// The prayers of `s` split by status: each list holds only its status, and
/// together they hold every prayer.
proof fn lemma_status_split(s: Seq<PrayerView>)
    ensures
        with_status(s, PrayerStatus::Active).len() + with_status(s, PrayerStatus::Archived).len()
            == s.len(),
        forall|i: int|
            0 <= i < with_status(s, PrayerStatus::Active).len() ==> (#[trigger] with_status(
                s,
                PrayerStatus::Active,
            )[i]).status == PrayerStatus::Active,
        forall|i: int|
            0 <= i < with_status(s, PrayerStatus::Archived).len() ==> (#[trigger] with_status(
                s,
                PrayerStatus::Archived,
            )[i]).status == PrayerStatus::Archived,
    decreases s.len(),
{
    if s.len() > 0 {
        lemma_status_split(s.drop_last());
    }
}

/// The active and archived lists on screen are separate and, together, show
/// every intention.
pub proof fn law_active_and_archived_lists_partition(m: ModelView)
    ensures
        ({
            let v = view_of(m);
            &&& v.prayers.len() + v.archived_prayers.len() == m.prayers.len()
            &&& forall|i: int|
                0 <= i < v.prayers.len() ==> (#[trigger] v.prayers[i]).status
                    == PrayerStatus::Active
            &&& forall|i: int|
                0 <= i < v.archived_prayers.len() ==> (#[trigger] v.archived_prayers[i]).status
                    == PrayerStatus::Archived
        }),
{
    lemma_status_split(m.prayers);
}

/// Every intention has an id below the next id to hand out, and no two
/// intentions share an id.
pub open spec fn ids_fresh(s: StoredStateView) -> bool {
    &&& forall|i: int| 0 <= i < s.prayers.len() ==> #[trigger] s.prayers[i].id < s.next_id
    &&& forall|i: int, j: int|
        0 <= i < j < s.prayers.len() ==> #[trigger] s.prayers[i].id != #[trigger] s.prayers[j].id
}

/// Dropping the prayers with one id keeps ids distinct and below `n`; every
/// prayer kept comes from the list.
proof fn lemma_without_id_fresh(s: Seq<PrayerView>, id: u64, n: u64)
    requires
        forall|i: int| 0 <= i < s.len() ==> #[trigger] s[i].id < n,
        forall|i: int, j: int| 0 <= i < j < s.len() ==> #[trigger] s[i].id != #[trigger] s[j].id,
    ensures
        ({
            let w = without_id(s, id);
            &&& forall|k: int| 0 <= k < w.len() ==> #[trigger] w[k].id < n
            &&& forall|k: int, l: int|
                0 <= k < l < w.len() ==> #[trigger] w[k].id != #[trigger] w[l].id
            &&& forall|k: int|
                0 <= k < w.len() ==> exists|j: int| 0 <= j < s.len() && #[trigger] s[j].id == (
                #[trigger] w[k]).id
        }),
    decreases s.len(),
{
    if s.len() > 0 {
        let t = s.drop_last();
        lemma_without_id_fresh(t, id, n);
        let w0 = without_id(t, id);
        if s.last().id != id {
            let w = w0.push(s.last());
            assert forall|k: int| 0 <= k < w.len() implies exists|j: int|
                0 <= j < s.len() && #[trigger] s[j].id == (#[trigger] w[k]).id by {
                if k == w.len() - 1 {
                    assert(s[s.len() - 1].id == w[k].id);
                } else {
                    let j = choose|j: int| 0 <= j < t.len() && #[trigger] t[j].id == w0[k].id;
                    assert(s[j].id == w[k].id);
                }
            }
            assert forall|k: int, l: int| 0 <= k < l < w.len() implies #[trigger] w[k].id
                != #[trigger] w[l].id by {
                if l == w.len() - 1 {
                    let j = choose|j: int| 0 <= j < t.len() && #[trigger] t[j].id == w0[k].id;
                    assert(s[j].id != s[s.len() - 1].id);
                } else {
                    assert(w0[k].id != w0[l].id);
                }
            }
        } else {
            assert forall|k: int| 0 <= k < w0.len() implies exists|j: int|
                0 <= j < s.len() && #[trigger] s[j].id == (#[trigger] w0[k]).id by {
                let j = choose|j: int| 0 <= j < t.len() && #[trigger] t[j].id == w0[k].id;
                assert(s[j].id == w0[k].id);
            }
        }
    }
}

/// Every cleaned tag is non-empty and at most [`MAX_TAG_LEN`] characters.
proof fn lemma_cleaned_tags(tags: Seq<Seq<char>>)
    ensures
        forall|i: int|
            0 <= i < cleaned_tags(tags).len() ==> 0 < (#[trigger] cleaned_tags(tags)[i]).len()
                <= MAX_TAG_LEN,
    decreases tags.len(),
{
    if tags.len() > 0 {
        lemma_cleaned_tags(tags.drop_last());
        let rest = cleaned_tags(tags.drop_last());
        let t = take_chars(trim(tags.last()), MAX_TAG_LEN as int);
        assert(t.len() <= MAX_TAG_LEN);
        if t.len() > 0 {
            assert(cleaned_tags(tags) == rest.push(t));
            assert forall|i: int| 0 <= i < cleaned_tags(tags).len() implies 0 < (
            #[trigger] cleaned_tags(tags)[i]).len() <= MAX_TAG_LEN by {
                if i < rest.len() {
                    assert(cleaned_tags(tags)[i] == rest[i]);
                }
            }
        } else {
            assert(cleaned_tags(tags) == rest);
        }
    }
}

/// What is saved of an intention's text fields is capped: the title at
/// [`MAX_INTENTION_LEN`] characters, details at [`MAX_DETAILS_LEN`] (and
/// absent rather than empty), and at most [`MAX_TAGS`] tags, each non-empty
/// and at most [`MAX_TAG_LEN`] characters.
pub proof fn law_saved_fields_are_capped(
    intention: Seq<char>,
    details: Seq<char>,
    tags: Seq<Seq<char>>,
)
    ensures
        normalized_intention(intention).len() <= MAX_INTENTION_LEN,
        normalized_details(details) matches Some(d) ==> 0 < d.len() <= MAX_DETAILS_LEN,
        normalized_tags(tags).len() <= MAX_TAGS,
        forall|i: int|
            0 <= i < normalized_tags(tags).len() ==> 0 < (#[trigger] normalized_tags(tags)[i]).len()
                <= MAX_TAG_LEN,
{
    lemma_cleaned_tags(tags);
    let cleaned = cleaned_tags(tags);
    assert forall|i: int| 0 <= i < normalized_tags(tags).len() implies 0 < (
    #[trigger] normalized_tags(tags)[i]).len() <= MAX_TAG_LEN by {
        assert(normalized_tags(tags)[i] == cleaned[i]);
    }
}

/// An intention whose title is blank once trimmed is refused, whether added
/// or edited: the model is unchanged and only a render is asked for.
pub proof fn law_blank_title_is_refused(m: ModelView, event: Event)
    requires
        event matches Event::AddPrayer { intention, .. } ==> normalized_intention(intention@).len()
            == 0,
        event matches Event::UpdatePrayer { intention, .. } ==> normalized_intention(
            intention@,
        ).len() == 0,
        event is AddPrayer || event is UpdatePrayer,
    ensures
        transition(m, event) == (m, render_only()),
{
}

/// While a sign-in or sync is under way, further sign-in, sign-up and sync
/// requests are ignored: nothing changes and nothing is asked of the shell.
pub proof fn law_busy_account_ignores_requests(m: ModelView, event: Event)
    requires
        is_busy(m),
        event is SignIn || event is SignUp || event is SyncRequested,
    ensures
        transition(m, event) == (m, Seq::<EffectView>::empty()),
{
}

/// Keeping every id in place keeps ids fresh.
proof fn lemma_ids_unchanged(m: ModelView, next: ModelView)
    requires
        ids_fresh(stored_of(m)),
        next.next_id == m.next_id,
        next.prayers.len() == m.prayers.len(),
        forall|k: int| 0 <= k < m.prayers.len() ==> #[trigger] next.prayers[k].id == m.prayers[k].id,
    ensures
        ids_fresh(stored_of(next)),
{
    assert forall|i: int, j: int| 0 <= i < j < next.prayers.len() implies #[trigger]
        next.prayers[i].id != #[trigger] next.prayers[j].id by {
        assert(m.prayers[i].id != m.prayers[j].id);
    }
}

/// Only novenas carry a start date.
pub open spec fn novena_starts_fit(s: Seq<PrayerView>) -> bool {
    forall|i: int|
        0 <= i < s.len() && (#[trigger] s[i]).novena_start is Some ==> s[i].cadence
            == IntentionCadence::Novena
}

/// Every prayer kept by `without_id` is one of the list.
proof fn lemma_without_id_from(s: Seq<PrayerView>, id: u64)
    ensures
        forall|k: int|
            0 <= k < without_id(s, id).len() ==> exists|j: int|
                0 <= j < s.len() && s[j] == #[trigger] without_id(s, id)[k],
    decreases s.len(),
{
    if s.len() > 0 {
        let t = s.drop_last();
        lemma_without_id_from(t, id);
        let w0 = without_id(t, id);
        let w = without_id(s, id);
        assert forall|k: int| 0 <= k < w.len() implies exists|j: int|
            0 <= j < s.len() && s[j] == #[trigger] w[k] by {
            if k < w0.len() {
                let j = choose|j: int| 0 <= j < t.len() && t[j] == w0[k];
                assert(s[j] == w[k]);
            } else {
                assert(s[s.len() - 1] == w[k]);
            }
        }
    }
}

/// Only novenas carry a start date: every event keeps this, provided a state
/// that the event loads from outside has it too.
pub proof fn law_novena_start_only_on_novenas(m: ModelView, event: Event)
    requires
        novena_starts_fit(m.prayers),
        event matches Event::PrayersLoaded(Some(s)) ==> novena_starts_fit(s@.prayers),
        event matches Event::SyncGetCompleted(Ok(Some(s))) ==> novena_starts_fit(s@.prayers),
    ensures
        novena_starts_fit(transition(m, event).0.prayers),
{
    match event {
        Event::RemovePrayer { id } => {
            lemma_without_id_from(m.prayers, id);
        },
        Event::UpdatePrayer { id, .. } => {
            lemma_find_some(m.prayers, id);
        },
        Event::ArchivePrayer { id } => {
            lemma_find_some(m.prayers, id);
        },
        Event::UnarchivePrayer { id } => {
            lemma_find_some(m.prayers, id);
        },
        Event::LogPrayer { id } => {
            lemma_find_some(m.prayers, id);
        },
        Event::RemovePrayerLogEntry { id, .. } => {
            lemma_find_some(m.prayers, id);
        },
        _ => {},
    }
}

/// Ids stay fresh and distinct: every event keeps the property, provided a
/// state that the event loads from outside has it too.
pub proof fn law_ids_stay_fresh(m: ModelView, event: Event)
    requires
        ids_fresh(stored_of(m)),
        adds_prayer(event) ==> m.next_id < u64::MAX,
        event matches Event::PrayersLoaded(Some(s)) ==> ids_fresh(s@),
        event matches Event::SyncGetCompleted(Ok(Some(s))) ==> ids_fresh(s@),
    ensures
        ids_fresh(stored_of(transition(m, event).0)),
{
    match event {
        Event::RemovePrayer { id } => {
            lemma_without_id_fresh(m.prayers, id, m.next_id);
            let next = stored_of(transition(m, event).0);
            let w = without_id(m.prayers, id);
            if w.len() != m.prayers.len() {
                assert(next.prayers == w);
                assert(next.next_id == m.next_id);
                assert forall|i: int| 0 <= i < next.prayers.len() implies #[trigger]
                    next.prayers[i].id < next.next_id by {
                    assert(w[i].id < m.next_id);
                }
                assert forall|i: int, j: int| 0 <= i < j < next.prayers.len() implies #[trigger]
                    next.prayers[i].id != #[trigger] next.prayers[j].id by {
                    assert(w[i].id != w[j].id);
                }
            }
        },
        Event::UpdatePrayer { id, .. } => {
            lemma_find_some(m.prayers, id);
            let next = transition(m, event).0;
            assert(next.prayers.len() == m.prayers.len());
            assert forall|k: int| 0 <= k < m.prayers.len() implies #[trigger] next.prayers[k].id
                == m.prayers[k].id by {}
            lemma_ids_unchanged(m, next);
        },
        Event::ArchivePrayer { id } => {
            lemma_find_some(m.prayers, id);
            let next = transition(m, event).0;
            assert(next.prayers.len() == m.prayers.len());
            assert forall|k: int| 0 <= k < m.prayers.len() implies #[trigger] next.prayers[k].id
                == m.prayers[k].id by {}
            lemma_ids_unchanged(m, next);
        },
        Event::UnarchivePrayer { id } => {
            lemma_find_some(m.prayers, id);
            let next = transition(m, event).0;
            assert(next.prayers.len() == m.prayers.len());
            assert forall|k: int| 0 <= k < m.prayers.len() implies #[trigger] next.prayers[k].id
                == m.prayers[k].id by {}
            lemma_ids_unchanged(m, next);
        },
        Event::LogPrayer { id } => {
            lemma_find_some(m.prayers, id);
            let next = transition(m, event).0;
            assert(next.prayers.len() == m.prayers.len());
            assert forall|k: int| 0 <= k < m.prayers.len() implies #[trigger] next.prayers[k].id
                == m.prayers[k].id by {}
            lemma_ids_unchanged(m, next);
        },
        Event::RemovePrayerLogEntry { id, .. } => {
            lemma_find_some(m.prayers, id);
            let next = transition(m, event).0;
            assert(next.prayers.len() == m.prayers.len());
            assert forall|k: int| 0 <= k < m.prayers.len() implies #[trigger] next.prayers[k].id
                == m.prayers[k].id by {}
            lemma_ids_unchanged(m, next);
        },
        _ => {},
    }
}

} // verus!
