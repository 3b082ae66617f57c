//! How the core answers each event: the next model and the effects for the shell.
use vstd::prelude::*;

use vstd::utf8::encode_utf8;

use crate::account::{
    auth_error_message, auth_error_text, auth_url, email_looks_valid, email_plausible,
    normalize_email, session_expired_message, unicode_lowercase, AccountOperation, AccountStatus,
    AuthRequest, AuthResponse, Session, SessionView, API_BASE_URL, MIN_PASSWORD_LEN, };
use crate::app::{
    copy_strings, effects_view, normalize_details, normalize_intention, normalize_tags, normalized_details,
    normalized_intention, normalized_tags, opt_view, prayers_view, resolve_novena_start,
    resolved_novena_start, snap_minute, snapped_minute, strings_view,
    trim_optional, trimmed_optional, Effect, EffectView, Event, HttpFailure, Implore,
    IntentionCadence, IntentionColor, Model, ModelView, Prayer, PrayerStatus, PrayerView,
    ReminderSettings, StoredState, StoredStateView,
};
use crate::prayer_log::{append_entry, remove_entry, PrayerLogEntry};
use crate::reminder::{
    clamp_calendar_date, clamped_to_range, CivilDate, CivilDateTime,
};
use crate::text::{concat, decimal, decimal_string, trim, trim_str};

verus! {

// ---------------------------------------------------------------------------
// The transition function
// ---------------------------------------------------------------------------

/// Just a render.
pub open spec fn render_only() -> Seq<EffectView> {
    seq![EffectView::Render]
}

/// The next document version after a local change: the shell's clock when
/// it is not behind, else one more than the current version.
pub open spec fn touched_version(m: ModelView) -> u64 {
    match m.unix_seconds {
        Some(unix) => if unix >= m.updated_at {
            unix
        } else {
            (m.updated_at + 1) as u64
        },
        None => if m.updated_at == u64::MAX {
            u64::MAX
        } else {
            (m.updated_at + 1) as u64
        },
    }
}

/// The persisted part of the model.
pub open spec fn stored_of(m: ModelView) -> StoredStateView {
    StoredStateView {
        prayers: m.prayers,
        next_id: m.next_id,
        reminder_settings: m.reminder_settings,
        updated_at: m.updated_at,
    }
}

/// After a local change: bump the document version, render, and persist.
pub open spec fn persisted(m: ModelView) -> (ModelView, Seq<EffectView>) {
    let m2 = ModelView { updated_at: touched_version(m), ..m };
    (m2, seq![EffectView::Render, EffectView::PersistState(stored_of(m2))])
}

/// Index of the first prayer with id `id`.
pub open spec fn find_prayer(s: Seq<PrayerView>, id: u64) -> Option<int>
    decreases s.len(),
{
    if s.len() == 0 {
        None
    } else {
        match find_prayer(s.drop_last(), id) {
            Some(i) => Some(i),
            None => if s.last().id == id {
                Some(s.len() - 1)
            } else {
                None
            },
        }
    }
}

/// The prayers whose id is not `id`, in order.
pub open spec fn without_id(s: Seq<PrayerView>, id: u64) -> Seq<PrayerView>
    decreases s.len(),
{
    if s.len() == 0 {
        s
    } else if s.last().id == id {
        without_id(s.drop_last(), id)
    } else {
        without_id(s.drop_last(), id).push(s.last())
    }
}

/// Adding an intention.
pub open spec fn add_prayer_step(
    m: ModelView,
    intention: Seq<char>,
    details: Seq<char>,
    tags: Seq<Seq<char>>,
    cadence: IntentionCadence,
    saint_id: Seq<char>,
    color: IntentionColor,
    novena_start: Option<CivilDate>,
) -> (ModelView, Seq<EffectView>) {
    let title = normalized_intention(intention);
    if title.len() == 0 {
        (m, render_only())
    } else {
        let p = PrayerView {
            id: m.next_id,
            intention: title,
            details: normalized_details(details),
            tags: normalized_tags(tags),
            status: PrayerStatus::Active,
            cadence,
            saint_id: trimmed_optional(saint_id),
            color,
            novena_start: resolved_novena_start(cadence, novena_start),
            prayed_on: seq![],
        };
        persisted(ModelView { prayers: m.prayers.push(p), next_id: (m.next_id + 1) as u64, ..m })
    }
}

/// Editing an intention (a no-op when nothing changes or the id is unknown).
pub open spec fn update_prayer_step(
    m: ModelView,
    id: u64,
    intention: Seq<char>,
    details: Seq<char>,
    tags: Seq<Seq<char>>,
    cadence: IntentionCadence,
    saint_id: Seq<char>,
    color: IntentionColor,
    novena_start: Option<CivilDate>,
) -> (ModelView, Seq<EffectView>) {
    let title = normalized_intention(intention);
    let details = normalized_details(details);
    let tags = normalized_tags(tags);
    let saint_id = trimmed_optional(saint_id);
    let novena_start = resolved_novena_start(cadence, novena_start);
    if title.len() == 0 {
        (m, render_only())
    } else {
        match find_prayer(m.prayers, id) {
            None => (m, render_only()),
            Some(i) => {
                let p = m.prayers[i];
                if p.intention == title && p.details == details && p.tags == tags && p.cadence
                    == cadence && p.saint_id == saint_id && p.color == color && p.novena_start
                    == novena_start {
                    (m, render_only())
                } else {
                    let q = PrayerView {
                        intention: title,
                        details,
                        tags,
                        cadence,
                        saint_id,
                        color,
                        novena_start,
                        ..p
                    };
                    persisted(ModelView { prayers: m.prayers.update(i, q), ..m })
                }
            },
        }
    }
}

/// Archiving or unarchiving an intention.
pub open spec fn set_status_step(m: ModelView, id: u64, status: PrayerStatus) -> (
    ModelView,
    Seq<EffectView>,
) {
    match find_prayer(m.prayers, id) {
        None => (m, render_only()),
        Some(i) => if m.prayers[i].status == status {
            (m, render_only())
        } else {
            persisted(
                ModelView {
                    prayers: m.prayers.update(i, PrayerView { status, ..m.prayers[i] }),
                    ..m
                },
            )
        },
    }
}

/// Logging a prayer for an active intention at the shell's local time.
pub open spec fn log_prayer_step(m: ModelView, id: u64) -> (ModelView, Seq<EffectView>) {
    match m.local_now {
        None => (m, render_only()),
        Some(now) => match find_prayer(m.prayers, id) {
            None => (m, render_only()),
            Some(i) => if m.prayers[i].status != PrayerStatus::Active {
                (m, render_only())
            } else {
                let entry = PrayerLogEntry {
                    year: now.date.year,
                    month: now.date.month,
                    day: now.date.day,
                    hour: now.hour,
                    minute: now.minute,
                };
                let p = m.prayers[i];
                persisted(
                    ModelView {
                        prayers: m.prayers.update(
                            i,
                            PrayerView { prayed_on: p.prayed_on.push(entry), ..p },
                        ),
                        ..m
                    },
                )
            },
        },
    }
}

/// Removing one prayer log entry.
pub open spec fn remove_log_entry_step(m: ModelView, id: u64, index: u64) -> (
    ModelView,
    Seq<EffectView>,
) {
    match find_prayer(m.prayers, id) {
        None => (m, render_only()),
        Some(i) => {
            let p = m.prayers[i];
            let k = index as usize;
            if k < p.prayed_on.len() {
                persisted(
                    ModelView {
                        prayers: m.prayers.update(
                            i,
                            PrayerView { prayed_on: p.prayed_on.remove(k as int), ..p },
                        ),
                        ..m
                    },
                )
            } else {
                (m, render_only())
            }
        },
    }
}

/// New reminder settings (hour capped at 23, minute snapped to a quarter hour).
pub open spec fn reminder_settings_step(m: ModelView, enabled: bool, hour: u8, minute: u8) -> (
    ModelView,
    Seq<EffectView>,
) {
    let settings = ReminderSettings {
        enabled,
        hour: if hour <= 23 {
            hour
        } else {
            23
        },
        minute: snapped_minute(minute),
    };
    if m.reminder_settings == settings {
        (m, render_only())
    } else {
        persisted(ModelView { reminder_settings: settings, ..m })
    }
}

/// The shell's local time: sets today, and clamps (or defaults) the calendar selection.
pub open spec fn sync_local_time_step(
    m: ModelView,
    year: u16,
    month: u8,
    day: u8,
    hour: u8,
    minute: u8,
    unix_seconds: u64,
) -> (ModelView, Seq<EffectView>) {
    let today = CivilDate { year: year as i32, month: month as u32, day: day as u32 };
    (
        ModelView {
            local_now: Some(CivilDateTime { date: today, hour: hour as u32, minute: minute as u32 }),
            unix_seconds: Some(unix_seconds),
            calendar_date: Some(
                match m.calendar_date {
                    Some(selected) => clamped_to_range(selected, today),
                    None => today,
                },
            ),
            ..m
        },
        render_only(),
    )
}

/// A day picked on the calendar, clamped to a year either side of today.
pub open spec fn select_calendar_date_step(m: ModelView, year: u16, month: u8, day: u8) -> (
    ModelView,
    Seq<EffectView>,
) {
    let date = CivilDate { year: year as i32, month: month as u32, day: day as u32 };
    (
        ModelView {
            calendar_date: Some(
                match m.local_now {
                    Some(now) => clamped_to_range(date, now.date),
                    None => date,
                },
            ),
            ..m
        },
        render_only(),
    )
}

/// An account request is under way.
pub open spec fn is_busy(m: ModelView) -> bool {
    m.account_status == AccountStatus::SigningIn || m.account_status == AccountStatus::Syncing
}

/// The message for a sign-up password that is too short.
pub open spec fn short_password_message() -> Seq<char> {
    "Password must be at least "@ + decimal(MIN_PASSWORD_LEN as nat) + " characters"@
}

/// An account failure: status `Error` with `message`, rendered.
pub open spec fn account_failure(m: ModelView, message: Seq<char>) -> (ModelView, Seq<EffectView>) {
    (ModelView { account_status: AccountStatus::Error, account_error: Some(message), ..m }, render_only())
}

/// Starting a sign-in or sign-up: validates the input, then sends the request.
pub open spec fn begin_auth_step(m: ModelView, email: Seq<char>, password: Seq<char>, sign_up: bool) -> (
    ModelView,
    Seq<EffectView>,
) {
    if is_busy(m) || m.session is Some {
        (m, seq![])
    } else {
        let email = unicode_lowercase(trim(email));
        let password = trim(password);
        let m1 = ModelView {
            account_operation: if sign_up {
                AccountOperation::SignUp
            } else {
                AccountOperation::SignIn
            },
            ..m
        };
        if email.len() == 0 || password.len() == 0 {
            account_failure(m1, "Email and password are required"@)
        } else if !email_plausible(email) {
            account_failure(m1, "Enter a valid email address"@)
        } else if sign_up && encode_utf8(password).len() < MIN_PASSWORD_LEN {
            account_failure(m1, short_password_message())
        } else {
            let path = if sign_up {
                "/auth/sign-up"@
            } else {
                "/auth/sign-in"@
            };
            (
                ModelView {
                    account_status: AccountStatus::SigningIn,
                    account_error: None,
                    ..m1
                },
                seq![
                    EffectView::Render,
                    EffectView::Authenticate { url: API_BASE_URL@ + path, email, password },
                ],
            )
        }
    }
}

/// The `Authorization` header value for a session token.
pub open spec fn bearer(token: Seq<char>) -> Seq<char> {
    "Bearer "@ + token
}

/// The answer to an auth request.
pub open spec fn auth_completed_step(
    m: ModelView,
    email: Seq<char>,
    result: Result<Option<AuthResponse>, HttpFailure>,
) -> (ModelView, Seq<EffectView>) {
    if m.account_status != AccountStatus::SigningIn {
        (m, seq![])
    } else {
        match result {
            Ok(None) => account_failure(m, "Could not complete sign-in. Try again."@),
            Ok(Some(body)) => if body.token@.len() == 0 || body.user_id@.len() == 0 {
                account_failure(m, "Could not complete sign-in. Try again."@)
            } else {
                let session = SessionView {
                    user_id: body.user_id@,
                    token: body.token@,
                    email,
                    last_synced_at: None,
                };
                (
                    ModelView {
                        session: Some(session),
                        last_synced_at: None,
                        account_status: AccountStatus::SignedIn,
                        account_operation: AccountOperation::Idle,
                        account_error: None,
                        ..m
                    },
                    seq![EffectView::Render, EffectView::PersistSession(session)],
                )
            },
            Err(failure) => account_failure(
                ModelView { session: None, ..m },
                auth_error_text(failure.code, failure.body_view()),
            ),
        }
    }
}

/// Signing out: clears the session locally and asks the server to revoke it.
pub open spec fn sign_out_step(m: ModelView) -> (ModelView, Seq<EffectView>) {
    let m2 = ModelView {
        session: None,
        account_status: AccountStatus::SignedOut,
        account_operation: AccountOperation::Idle,
        account_error: None,
        last_synced_at: None,
        ..m
    };
    let clear = seq![EffectView::Render, EffectView::DeleteSession];
    match m.session {
        Some(session) => (
            m2,
            clear.push(
                EffectView::RevokeSession {
                    url: API_BASE_URL@ + "/auth/sign-out"@,
                    authorization: bearer(session.token),
                },
            ),
        ),
        None => (m2, clear),
    }
}

/// Dismissing an account error.
pub open spec fn dismiss_account_error_step(m: ModelView) -> (ModelView, Seq<EffectView>) {
    (
        ModelView {
            account_error: None,
            account_operation: AccountOperation::Idle,
            account_status: if m.account_status == AccountStatus::Error {
                if m.session is Some {
                    AccountStatus::SignedIn
                } else {
                    AccountStatus::SignedOut
                }
            } else {
                m.account_status
            },
            ..m
        },
        render_only(),
    )
}

/// Starting a sync: fetch the server's document.
pub open spec fn begin_sync_step(m: ModelView) -> (ModelView, Seq<EffectView>) {
    if is_busy(m) {
        (m, seq![])
    } else {
        match m.session {
            None => account_failure(
                ModelView { account_operation: AccountOperation::Sync, ..m },
                "Sign in to sync"@,
            ),
            Some(session) => (
                ModelView {
                    account_status: AccountStatus::Syncing,
                    account_operation: AccountOperation::Sync,
                    account_error: None,
                    ..m
                },
                seq![
                    EffectView::Render,
                    EffectView::FetchSync {
                        url: API_BASE_URL@ + "/sync"@,
                        authorization: bearer(session.token),
                    },
                ],
            ),
        }
    }
}

/// Pushing the local document: bump its version and PUT it.
pub open spec fn push_sync_step(m: ModelView) -> (ModelView, Seq<EffectView>) {
    if m.account_status != AccountStatus::Syncing {
        (m, seq![])
    } else {
        match m.session {
            None => (m, seq![]),
            Some(session) => {
                let m2 = ModelView { updated_at: touched_version(m), ..m };
                (
                    m2,
                    seq![
                        EffectView::PushSync {
                            url: API_BASE_URL@ + "/sync"@,
                            authorization: bearer(session.token),
                            body: stored_of(m2),
                        },
                    ],
                )
            },
        }
    }
}

/// A successful sync: record the time, persist state and session.
pub open spec fn finish_sync_step(m: ModelView) -> (ModelView, Seq<EffectView>) {
    let session = match m.session {
        Some(s) => Some(SessionView { last_synced_at: m.unix_seconds, ..s }),
        None => None,
    };
    let m2 = ModelView {
        last_synced_at: m.unix_seconds,
        session,
        account_status: AccountStatus::SignedIn,
        account_operation: AccountOperation::Idle,
        account_error: None,
        ..m
    };
    match session {
        None => (m2, seq![EffectView::Render, EffectView::PersistState(stored_of(m2))]),
        Some(s) => (
            m2,
            seq![
                EffectView::Render,
                EffectView::PersistState(stored_of(m2)),
                EffectView::PersistSession(s),
            ],
        ),
    }
}

/// The server rejected the session: forget it and ask to sign in again.
pub open spec fn expire_session_step(m: ModelView) -> (ModelView, Seq<EffectView>) {
    (
        ModelView {
            session: None,
            last_synced_at: None,
            account_status: AccountStatus::Error,
            account_operation: AccountOperation::SignIn,
            account_error: Some("Session expired. Sign in again."@),
            ..m
        },
        seq![EffectView::Render, EffectView::DeleteSession],
    )
}

/// The server's document replaces the local one.
pub open spec fn apply_stored(m: ModelView, stored: StoredStateView) -> ModelView {
    ModelView {
        prayers: stored.prayers,
        next_id: stored.next_id,
        reminder_settings: stored.reminder_settings,
        updated_at: stored.updated_at,
        ..m
    }
}

/// The answer to the sync GET: the newer document wins (last writer wins).
pub open spec fn sync_get_step(m: ModelView, result: Result<Option<StoredState>, HttpFailure>) -> (
    ModelView,
    Seq<EffectView>,
) {
    if m.session is None || m.account_status != AccountStatus::Syncing {
        (m, seq![])
    } else {
        match result {
            Ok(None) => push_sync_step(m),
            Ok(Some(remote)) => if remote.updated_at > m.updated_at {
                finish_sync_step(apply_stored(m, remote@))
            } else {
                push_sync_step(m)
            },
            Err(failure) => if failure.code == Some(404u16) {
                push_sync_step(m)
            } else if failure.code == Some(401u16) {
                expire_session_step(m)
            } else {
                account_failure(m, auth_error_text(failure.code, failure.body_view()))
            },
        }
    }
}

/// The answer to the sync PUT.
pub open spec fn sync_put_step(m: ModelView, result: Result<Option<StoredState>, HttpFailure>) -> (
    ModelView,
    Seq<EffectView>,
) {
    if m.session is None || m.account_status != AccountStatus::Syncing {
        (m, seq![])
    } else {
        match result {
            Ok(None) => finish_sync_step(m),
            Ok(Some(remote)) => finish_sync_step(
                ModelView {
                    updated_at: if remote.updated_at > m.updated_at {
                        remote.updated_at
                    } else {
                        m.updated_at
                    },
                    ..m
                },
            ),
            Err(failure) => if failure.code == Some(401u16) {
                expire_session_step(m)
            } else {
                account_failure(m, auth_error_text(failure.code, failure.body_view()))
            },
        }
    }
}

/// The next model and the effects for `event` in model `m`.
pub open spec fn transition(m: ModelView, event: Event) -> (ModelView, Seq<EffectView>) {
    match event {
        Event::Restore => (m, seq![EffectView::LoadPrayers, EffectView::LoadSession]),
        Event::PrayersLoaded(stored) => match stored {
            Some(s) => (apply_stored(m, s@), render_only()),
            None => (m, render_only()),
        },
        Event::SessionLoaded(session) => match session {
            Some(s) => (
                ModelView {
                    last_synced_at: s.last_synced_at,
                    session: Some(s@),
                    account_status: AccountStatus::SignedIn,
                    account_operation: AccountOperation::Idle,
                    account_error: None,
                    ..m
                },
                render_only(),
            ),
            None => (m, render_only()),
        },
        Event::AddPrayer { intention, details, tags, cadence, saint_id, color, novena_start } =>
            add_prayer_step(
            m,
            intention@,
            details@,
            strings_view(tags@),
            cadence,
            saint_id@,
            color,
            novena_start,
        ),
        Event::UpdatePrayer {
            id,
            intention,
            details,
            tags,
            cadence,
            saint_id,
            color,
            novena_start,
        } => update_prayer_step(
            m,
            id,
            intention@,
            details@,
            strings_view(tags@),
            cadence,
            saint_id@,
            color,
            novena_start,
        ),
        Event::RemovePrayer { id } => {
            let kept = without_id(m.prayers, id);
            if kept.len() == m.prayers.len() {
                (m, render_only())
            } else {
                persisted(ModelView { prayers: kept, ..m })
            }
        },
        Event::RemoveAllPrayers => if m.prayers.len() == 0 {
            (m, render_only())
        } else {
            persisted(ModelView { prayers: seq![], ..m })
        },
        Event::ArchivePrayer { id } => set_status_step(m, id, PrayerStatus::Archived),
        Event::UnarchivePrayer { id } => set_status_step(m, id, PrayerStatus::Active),
        Event::SetReminderSettings { enabled, hour, minute } => reminder_settings_step(
            m,
            enabled,
            hour,
            minute,
        ),
        Event::SyncLocalTime { year, month, day, hour, minute, unix_seconds } =>
            sync_local_time_step(m, year, month, day, hour, minute, unix_seconds),
        Event::SelectCalendarDate { year, month, day } => select_calendar_date_step(
            m,
            year,
            month,
            day,
        ),
        Event::LogPrayer { id } => log_prayer_step(m, id),
        Event::RemovePrayerLogEntry { id, index } => remove_log_entry_step(m, id, index),
        Event::SignUp { email, password } => begin_auth_step(m, email@, password@, true),
        Event::SignIn { email, password } => begin_auth_step(m, email@, password@, false),
        Event::SignOut => sign_out_step(m),
        Event::DismissAccountError => dismiss_account_error_step(m),
        Event::SyncRequested => begin_sync_step(m),
        Event::AuthCompleted { email, result } => auth_completed_step(m, email@, result),
        Event::SyncGetCompleted(result) => sync_get_step(m, result),
        Event::SyncPutCompleted(result) => sync_put_step(m, result),
        Event::SessionPersisted => (m, seq![]),
        Event::SignOutCompleted => (m, seq![]),
        Event::Persisted => (m, seq![]),
    }
}

/// Moving the document version on from `m` does not overflow: the shell's
/// clock is not behind a version that is already at its maximum.
pub open spec fn clock_in_range(m: ModelView) -> bool {
    m.unix_seconds matches Some(unix) ==> unix >= m.updated_at || m.updated_at < u64::MAX
}

/// The answer to the sync GET makes the core push its own document.
pub open spec fn sync_get_pushes(m: ModelView, result: Result<Option<StoredState>, HttpFailure>) -> bool {
    &&& m.session is Some
    &&& m.account_status == AccountStatus::Syncing
    &&& match result {
        Ok(None) => true,
        Ok(Some(remote)) => remote.updated_at <= m.updated_at,
        Err(failure) => failure.code == Some(404u16),
    }
}

/// `event` moves the document version on: a local change that is saved, or
/// a push of the local document after the sync GET.
pub open spec fn bumps_version(m: ModelView, event: Event) -> bool {
    match event {
        Event::SyncGetCompleted(result) => sync_get_pushes(m, result),
        Event::AddPrayer { .. } => transition(m, event).1 != render_only(),
        Event::UpdatePrayer { .. } => transition(m, event).1 != render_only(),
        Event::RemovePrayer { .. } => transition(m, event).1 != render_only(),
        Event::RemoveAllPrayers => transition(m, event).1 != render_only(),
        Event::ArchivePrayer { .. } => transition(m, event).1 != render_only(),
        Event::UnarchivePrayer { .. } => transition(m, event).1 != render_only(),
        Event::SetReminderSettings { .. } => transition(m, event).1 != render_only(),
        Event::LogPrayer { .. } => transition(m, event).1 != render_only(),
        Event::RemovePrayerLogEntry { .. } => transition(m, event).1 != render_only(),
        _ => false,
    }
}

/// `event` adds an intention: its title is not blank once trimmed.
pub open spec fn adds_prayer(event: Event) -> bool {
    event matches Event::AddPrayer { intention, .. } && normalized_intention(intention@).len() > 0
}

/// The local year can be moved a year either way without leaving an `i32`.
pub open spec fn local_year_in_range(m: ModelView) -> bool {
    m.local_now matches Some(now) ==> i32::MIN < now.date.year < i32::MAX
}

/// `event` runs without overflow: the next id when an intention is added,
/// the document version when it is moved on, and the calendar range around
/// today when a calendar date is selected.
pub open spec fn update_in_range(m: ModelView, event: Event) -> bool {
    &&& (adds_prayer(event) ==> m.next_id < u64::MAX)
    &&& (bumps_version(m, event) ==> clock_in_range(m))
    &&& (event is SelectCalendarDate ==> local_year_in_range(m))
}


// ---------------------------------------------------------------------------
// The handlers
// ---------------------------------------------------------------------------

proof fn lemma_view_index(s: Seq<Prayer>, i: int)
    requires
        0 <= i < s.len(),
    ensures
        prayers_view(s)[i] == s[i]@,
        prayers_view(s).len() == s.len(),
{
}

/// Copies of all prayers.
pub fn copy_prayers(prayers: &Vec<Prayer>) -> (r: Vec<Prayer>)
    ensures
        prayers_view(r@) == prayers_view(prayers@),
{
    let mut out: Vec<Prayer> = Vec::new();
    let mut i: usize = 0;
    while i < prayers.len()
        invariant
            0 <= i <= prayers@.len(),
            out@.len() == i,
            prayers_view(out@) == prayers_view(prayers@.take(i as int)),
        decreases prayers@.len() - i,
    {
        let ghost prev = out@;
        out.push(prayers[i].copy());
        proof {
            assert(prayers_view(out@) =~= prayers_view(prev).push(prayers@[i as int]@));
            assert(prayers_view(prayers@.take(i + 1)) =~= prayers_view(prayers@.take(i as int)).push(
                prayers@[i as int]@,
            ));
        }
        i += 1;
    }
    assert(prayers@.take(prayers@.len() as int) =~= prayers@);
    out
}

/// The persisted part of the model.
pub fn stored_state_from_model(model: &Model) -> (r: StoredState)
    ensures
        r@ == stored_of(model@),
{
    StoredState {
        prayers: copy_prayers(&model.prayers),
        next_id: model.next_id,
        reminder_settings: model.reminder_settings,
        updated_at: model.updated_at,
    }
}

/// Bumps the document version after a local change.
pub fn touch_updated_at(model: &mut Model)
    requires
        clock_in_range(old(model)@),
    ensures
        final(model)@ == (ModelView { updated_at: touched_version(old(model)@), ..old(model)@ }),
{
    if let Some(unix) = model.unix_seconds {
        if unix >= model.updated_at {
            model.updated_at = unix;
        } else {
            model.updated_at += 1;
        }
    } else {
        model.updated_at = model.updated_at.saturating_add(1);
    }
}

/// Persist after a local mutation, bumping the document version for LWW sync.
fn persist_after_mutation(model: &mut Model) -> (r: Vec<Effect>)
    requires
        clock_in_range(old(model)@),
    ensures
        final(model)@ == persisted(old(model)@).0,
        effects_view(r@) == persisted(old(model)@).1,
{
    touch_updated_at(model);
    let stored = stored_state_from_model(model);
    let r = vec![Effect::Render, Effect::PersistState(stored)];
    assert(effects_view(r@) =~= persisted(old(model)@).1);
    r
}

fn render() -> (r: Vec<Effect>)
    ensures
        effects_view(r@) == render_only(),
{
    let r = vec![Effect::Render];
    assert(effects_view(r@) =~= render_only());
    r
}

fn done() -> (r: Vec<Effect>)
    ensures
        effects_view(r@) == Seq::<EffectView>::empty(),
{
    let r = Vec::new();
    assert(effects_view(r@) =~= Seq::<EffectView>::empty());
    r
}

/// Index of the first prayer with id `id`.
fn find_index(prayers: &Vec<Prayer>, id: u64) -> (r: Option<usize>)
    ensures
        r matches Some(i) ==> find_prayer(prayers_view(prayers@), id) == Some(i as int),
        r is None ==> find_prayer(prayers_view(prayers@), id) is None,
        r matches Some(i) ==> i < prayers@.len(),
{
    let mut i: usize = 0;
    while i < prayers.len()
        invariant
            0 <= i <= prayers@.len(),
            find_prayer(prayers_view(prayers@.take(i as int)), id) is None,
        decreases prayers@.len() - i,
    {
        proof {
            assert(prayers_view(prayers@.take(i + 1)).drop_last() =~= prayers_view(
                prayers@.take(i as int),
            ));
        }
        if prayers[i].id == id {
            proof {
                assert(prayers_view(prayers@.take(i + 1)).last() == prayers@[i as int]@);
                assert(find_prayer(prayers_view(prayers@.take(i + 1)), id) == Some(i as int));
                assert(prayers_view(prayers@.take(i + 1)) =~= prayers_view(prayers@).take(i + 1));
                lemma_find_prefix(prayers_view(prayers@), id, i + 1);
            }
            return Some(i);
        }
        i += 1;
    }
    proof {
        assert(prayers@.take(prayers@.len() as int) =~= prayers@);
    }
    None
}

/// A match found in a prefix is the match in the whole list.
proof fn lemma_find_prefix(s: Seq<PrayerView>, id: u64, n: int)
    requires
        0 <= n <= s.len(),
        find_prayer(s.take(n), id) is Some,
    ensures
        find_prayer(s, id) == find_prayer(s.take(n), id),
    decreases s.len() - n,
{
    if n < s.len() {
        assert(s.take(n + 1).drop_last() =~= s.take(n));
        assert(find_prayer(s.take(n + 1), id) == find_prayer(s.take(n), id));
        lemma_find_prefix(s, id, n + 1);
    } else {
        assert(s.take(n) =~= s);
    }
}


fn add_prayer(
    model: &mut Model,
    intention: String,
    details: String,
    tags: Vec<String>,
    cadence: IntentionCadence,
    saint_id: String,
    color: IntentionColor,
    novena_start: Option<CivilDate>,
) -> (r: Vec<Effect>)
    requires
        normalized_intention(intention@).len() > 0 ==> old(model).next_id < u64::MAX
            && clock_in_range(old(model)@),
    ensures
        final(model)@ == add_prayer_step(
            old(model)@,
            intention@,
            details@,
            strings_view(tags@),
            cadence,
            saint_id@,
            color,
            novena_start,
        ).0,
        effects_view(r@) == add_prayer_step(
            old(model)@,
            intention@,
            details@,
            strings_view(tags@),
            cadence,
            saint_id@,
            color,
            novena_start,
        ).1,
{
    let intention = normalize_intention(intention);
    if intention.as_str().is_empty() {
        return render();
    }
    let details = normalize_details(details);
    let saint_id = trim_optional(saint_id);
    let tags = normalize_tags(tags);
    let novena_start = resolve_novena_start(cadence, novena_start);
    let id = model.next_id;
    model.next_id += 1;
    let ghost before = model@;
    model.prayers.push(
        Prayer {
            id,
            intention,
            details,
            tags,
            status: PrayerStatus::Active,
            cadence,
            saint_id,
            color,
            novena_start,
            prayed_on: Vec::new(),
        },
    );
    proof {
        assert(model@.prayers =~= before.prayers.push(model.prayers@.last()@));
        assert(model.prayers@.last().prayed_on@ =~= Seq::<PrayerLogEntry>::empty());
    }
    persist_after_mutation(model)
}

fn opt_string_eq(a: &Option<String>, b: &Option<String>) -> (r: bool)
    ensures
        r == (opt_view(*a) == opt_view(*b)),
{
    match (a, b) {
        (Some(x), Some(y)) => x.eq(y),
        (None, None) => true,
        _ => false,
    }
}

fn strings_eq(a: &Vec<String>, b: &Vec<String>) -> (r: bool)
    ensures
        r == (strings_view(a@) == strings_view(b@)),
{
    if a.len() != b.len() {
        assert(strings_view(a@).len() != strings_view(b@).len());
        return false;
    }
    let mut i: usize = 0;
    while i < a.len()
        invariant
            0 <= i <= a@.len(),
            a@.len() == b@.len(),
            forall|k: int| 0 <= k < i ==> #[trigger] a@[k]@ == b@[k]@,
        decreases a@.len() - i,
    {
        if !a[i].eq(&b[i]) {
            assert(strings_view(a@)[i as int] != strings_view(b@)[i as int]);
            return false;
        }
        i += 1;
    }
    assert(strings_view(a@) =~= strings_view(b@));
    true
}

fn date_opt_eq(a: Option<CivilDate>, b: Option<CivilDate>) -> (r: bool)
    ensures
        r == (a == b),
{
    match (a, b) {
        (Some(x), Some(y)) => x == y,
        (None, None) => true,
        _ => false,
    }
}

fn update_prayer(
    model: &mut Model,
    id: u64,
    intention: String,
    details: String,
    tags: Vec<String>,
    cadence: IntentionCadence,
    saint_id: String,
    color: IntentionColor,
    novena_start: Option<CivilDate>,
) -> (r: Vec<Effect>)
    requires
        update_prayer_step(
            old(model)@,
            id,
            intention@,
            details@,
            strings_view(tags@),
            cadence,
            saint_id@,
            color,
            novena_start,
        ).1 != render_only() ==> clock_in_range(old(model)@),
    ensures
        final(model)@ == update_prayer_step(
            old(model)@,
            id,
            intention@,
            details@,
            strings_view(tags@),
            cadence,
            saint_id@,
            color,
            novena_start,
        ).0,
        effects_view(r@) == update_prayer_step(
            old(model)@,
            id,
            intention@,
            details@,
            strings_view(tags@),
            cadence,
            saint_id@,
            color,
            novena_start,
        ).1,
{
    let ghost step = update_prayer_step(
        old(model)@,
        id,
        intention@,
        details@,
        strings_view(tags@),
        cadence,
        saint_id@,
        color,
        novena_start,
    );
    let intention = normalize_intention(intention);
    if intention.as_str().is_empty() {
        return render();
    }
    let details = normalize_details(details);
    let saint_id = trim_optional(saint_id);
    let tags = normalize_tags(tags);
    let novena_start = resolve_novena_start(cadence, novena_start);
    let i = match find_index(&model.prayers, id) {
        Some(i) => i,
        None => return render(),
    };
    proof {
        lemma_view_index(model.prayers@, i as int);
    }
    let p = &model.prayers[i];
    if p.intention.eq(&intention) && opt_string_eq(&p.details, &details) && strings_eq(&p.tags, &tags)
        && p.cadence == cadence && opt_string_eq(&p.saint_id, &saint_id) && p.color == color
        && date_opt_eq(p.novena_start, novena_start) {
        return render();
    }
    let q = Prayer {
        id: p.id,
        intention,
        details,
        tags,
        status: p.status,
        cadence,
        saint_id,
        color,
        novena_start,
        prayed_on: crate::app::copy_entries(&p.prayed_on),
    };
    let ghost before = model@;
    model.prayers.set(i, q);
    proof {
        assert(model@.prayers =~= before.prayers.update(i as int, q@));
        assert(step == persisted(model@));
        assert(persisted(model@).1.len() == 2);
    }
    persist_after_mutation(model)
}

fn set_status(model: &mut Model, id: u64, status: PrayerStatus) -> (r: Vec<Effect>)
    requires
        set_status_step(old(model)@, id, status).1 != render_only() ==> clock_in_range(
            old(model)@,
        ),
    ensures
        final(model)@ == set_status_step(old(model)@, id, status).0,
        effects_view(r@) == set_status_step(old(model)@, id, status).1,
{
    let i = match find_index(&model.prayers, id) {
        Some(i) => i,
        None => return render(),
    };
    proof {
        lemma_view_index(model.prayers@, i as int);
    }
    if model.prayers[i].status == status {
        return render();
    }
    let mut q = model.prayers[i].copy();
    q.status = status;
    let ghost before = model@;
    model.prayers.set(i, q);
    proof {
        assert(model@.prayers =~= before.prayers.update(i as int, q@));
        assert(set_status_step(old(model)@, id, status) == persisted(model@));
        assert(persisted(model@).1.len() == 2);
    }
    persist_after_mutation(model)
}

fn remove_prayer(model: &mut Model, id: u64) -> (r: Vec<Effect>)
    requires
        without_id(old(model)@.prayers, id).len() != old(model)@.prayers.len() ==> clock_in_range(
            old(model)@,
        ),
    ensures
        final(model)@ == transition(old(model)@, Event::RemovePrayer { id }).0,
        effects_view(r@) == transition(old(model)@, Event::RemovePrayer { id }).1,
{
    let before = model.prayers.len();
    let mut kept: Vec<Prayer> = Vec::new();
    let mut i: usize = 0;
    while i < model.prayers.len()
        invariant
            0 <= i <= model.prayers@.len(),
            prayers_view(kept@) == without_id(prayers_view(model.prayers@.take(i as int)), id),
            kept@.len() == prayers_view(kept@).len(),
        decreases model.prayers@.len() - i,
    {
        proof {
            assert(prayers_view(model.prayers@.take(i + 1)).drop_last() =~= prayers_view(
                model.prayers@.take(i as int),
            ));
            assert(prayers_view(model.prayers@.take(i + 1)).last() == model.prayers@[i as int]@);
        }
        if model.prayers[i].id != id {
            let ghost prev = kept@;
            kept.push(model.prayers[i].copy());
            proof {
                assert(prayers_view(kept@) =~= prayers_view(prev).push(model.prayers@[i as int]@));
            }
        }
        i += 1;
    }
    proof {
        assert(model.prayers@.take(model.prayers@.len() as int) =~= model.prayers@);
    }
    if kept.len() == before {
        return render();
    }
    let ghost old_view = model@;
    model.prayers = kept;
    proof {
        assert(model@ =~= (ModelView { prayers: without_id(old_view.prayers, id), ..old_view }));
    }
    persist_after_mutation(model)
}

fn remove_all_prayers(model: &mut Model) -> (r: Vec<Effect>)
    requires
        old(model)@.prayers.len() > 0 ==> clock_in_range(old(model)@),
    ensures
        final(model)@ == transition(old(model)@, Event::RemoveAllPrayers).0,
        effects_view(r@) == transition(old(model)@, Event::RemoveAllPrayers).1,
{
    if model.prayers.len() == 0 {
        return render();
    }
    let ghost old_view = model@;
    model.prayers.clear();
    proof {
        assert(model@ =~= (ModelView { prayers: seq![], ..old_view }));
    }
    persist_after_mutation(model)
}

fn set_reminder_settings(model: &mut Model, enabled: bool, hour: u8, minute: u8) -> (r: Vec<
    Effect,
>)
    requires
        reminder_settings_step(old(model)@, enabled, hour, minute).1 != render_only()
            ==> clock_in_range(old(model)@),
    ensures
        final(model)@ == reminder_settings_step(old(model)@, enabled, hour, minute).0,
        effects_view(r@) == reminder_settings_step(old(model)@, enabled, hour, minute).1,
{
    let ghost hour_in = hour;
    let ghost minute_in = minute;
    let hour = if hour <= 23 {
        hour
    } else {
        23
    };
    let minute = snap_minute(minute);
    if model.reminder_settings.enabled == enabled && model.reminder_settings.hour == hour
        && model.reminder_settings.minute == minute {
        return render();
    }
    model.reminder_settings = ReminderSettings { enabled, hour, minute };
    proof {
        assert(reminder_settings_step(old(model)@, enabled, hour_in, minute_in) == persisted(model@));
        assert(persisted(model@).1.len() == 2);
    }
    persist_after_mutation(model)
}

fn log_prayer(model: &mut Model, id: u64) -> (r: Vec<Effect>)
    requires
        log_prayer_step(old(model)@, id).1 != render_only() ==> clock_in_range(old(model)@),
    ensures
        final(model)@ == log_prayer_step(old(model)@, id).0,
        effects_view(r@) == log_prayer_step(old(model)@, id).1,
{
    let now = match model.local_now {
        Some(now) => now,
        None => return render(),
    };
    let i = match find_index(&model.prayers, id) {
        Some(i) => i,
        None => return render(),
    };
    proof {
        lemma_view_index(model.prayers@, i as int);
    }
    if model.prayers[i].status != PrayerStatus::Active {
        return render();
    }
    let mut q = model.prayers[i].copy();
    append_entry(&mut q.prayed_on, PrayerLogEntry::from_local(now));
    let ghost before = model@;
    model.prayers.set(i, q);
    proof {
        assert(model@.prayers =~= before.prayers.update(i as int, q@));
        assert(log_prayer_step(old(model)@, id) == persisted(model@));
        assert(persisted(model@).1.len() == 2);
    }
    persist_after_mutation(model)
}

fn remove_prayer_log_entry(model: &mut Model, id: u64, index: u64) -> (r: Vec<Effect>)
    requires
        remove_log_entry_step(old(model)@, id, index).1 != render_only() ==> clock_in_range(
            old(model)@,
        ),
    ensures
        final(model)@ == remove_log_entry_step(old(model)@, id, index).0,
        effects_view(r@) == remove_log_entry_step(old(model)@, id, index).1,
{
    let i = match find_index(&model.prayers, id) {
        Some(i) => i,
        None => return render(),
    };
    proof {
        lemma_view_index(model.prayers@, i as int);
    }
    let mut q = model.prayers[i].copy();
    let k: usize = #[verifier::truncate] (index as usize);
    if remove_entry(&mut q.prayed_on, k) {
        let ghost before = model@;
        model.prayers.set(i, q);
        proof {
            assert(model@.prayers =~= before.prayers.update(i as int, q@));
            assert(remove_log_entry_step(old(model)@, id, index) == persisted(model@));
            assert(persisted(model@).1.len() == 2);
        }
        persist_after_mutation(model)
    } else {
        render()
    }
}


fn sync_local_time(
    model: &mut Model,
    year: u16,
    month: u8,
    day: u8,
    hour: u8,
    minute: u8,
    unix_seconds: u64,
) -> (r: Vec<Effect>)
    ensures
        old(model).wf() ==> final(model).wf(),
        final(model)@ == sync_local_time_step(
            old(model)@,
            year,
            month,
            day,
            hour,
            minute,
            unix_seconds,
        ).0,
        effects_view(r@) == sync_local_time_step(
            old(model)@,
            year,
            month,
            day,
            hour,
            minute,
            unix_seconds,
        ).1,
{
    let today = CivilDate { year: year as i32, month: month as u32, day: day as u32 };
    model.local_now = Some(CivilDateTime { date: today, hour: hour as u32, minute: minute as u32 });
    model.unix_seconds = Some(unix_seconds);
    model.calendar_date = Some(
        match model.calendar_date {
            Some(selected) => clamp_calendar_date(selected, today),
            None => today,
        },
    );
    render()
}

fn select_calendar_date(model: &mut Model, year: u16, month: u8, day: u8) -> (r: Vec<Effect>)
    requires
        local_year_in_range(old(model)@),
    ensures
        old(model).wf() ==> final(model).wf(),
        final(model)@ == select_calendar_date_step(old(model)@, year, month, day).0,
        effects_view(r@) == select_calendar_date_step(old(model)@, year, month, day).1,
{
    let date = CivilDate { year: year as i32, month: month as u32, day: day as u32 };
    model.calendar_date = Some(
        match model.local_now {
            Some(now) => clamp_calendar_date(date, now.date),
            None => date,
        },
    );
    render()
}

fn is_account_busy(model: &Model) -> (r: bool)
    ensures
        r == is_busy(model@),
{
    match model.account_status {
        AccountStatus::SigningIn | AccountStatus::Syncing => true,
        _ => false,
    }
}

fn fail_account(model: &mut Model, message: String) -> (r: Vec<Effect>)
    ensures
        final(model)@ == account_failure(old(model)@, message@).0,
        effects_view(r@) == account_failure(old(model)@, message@).1,
{
    model.account_status = AccountStatus::Error;
    model.account_error = Some(message);
    render()
}

fn begin_auth(model: &mut Model, email: String, password: String, sign_up: bool) -> (r: Vec<Effect>)
    ensures
        final(model)@ == begin_auth_step(old(model)@, email@, password@, sign_up).0,
        effects_view(r@) == begin_auth_step(old(model)@, email@, password@, sign_up).1,
{
    let ghost email0 = email@;
    let ghost password0 = password@;
    if is_account_busy(model) || model.session.is_some() {
        return done();
    }
    let email = normalize_email(email);
    let password = trim_str(password.as_str());
    model.account_operation = if sign_up {
        AccountOperation::SignUp
    } else {
        AccountOperation::SignIn
    };
    if email.as_str().is_empty() || password.as_str().is_empty() {
        return fail_account(model, "Email and password are required".to_owned());
    }
    if !email_looks_valid(email.as_str()) {
        return fail_account(model, "Enter a valid email address".to_owned());
    }
    if sign_up && password.as_str().as_bytes().len() < MIN_PASSWORD_LEN {
        let head = concat("Password must be at least ", decimal_string(MIN_PASSWORD_LEN as u64).as_str());
        return fail_account(model, concat(head.as_str(), " characters"));
    }
    model.account_status = AccountStatus::SigningIn;
    model.account_error = None;
    let path = if sign_up {
        "/auth/sign-up"
    } else {
        "/auth/sign-in"
    };
    let url = auth_url(path);
    let r = vec![Effect::Render, Effect::Authenticate { url, request: AuthRequest { email, password } }];
    assert(effects_view(r@) =~= begin_auth_step(old(model)@, email0, password0, sign_up).1);
    r
}

/// The `Authorization` header for a token.
fn bearer_header(token: &String) -> (r: String)
    ensures
        r@ == bearer(token@),
{
    concat("Bearer ", token.as_str())
}

fn auth_completed(
    model: &mut Model,
    email: String,
    result: Result<Option<AuthResponse>, HttpFailure>,
) -> (r: Vec<Effect>)
    ensures
        final(model)@ == auth_completed_step(old(model)@, email@, result).0,
        effects_view(r@) == auth_completed_step(old(model)@, email@, result).1,
{
    if model.account_status != AccountStatus::SigningIn {
        return done();
    }
    match result {
        Ok(None) => fail_account(model, "Could not complete sign-in. Try again.".to_owned()),
        Ok(Some(body)) => {
            if body.token.as_str().is_empty() || body.user_id.as_str().is_empty() {
                return fail_account(model, "Could not complete sign-in. Try again.".to_owned());
            }
            let session = Session {
                user_id: body.user_id,
                token: body.token,
                email,
                last_synced_at: None,
            };
            model.session = Some(session.copy());
            model.last_synced_at = None;
            model.account_status = AccountStatus::SignedIn;
            model.account_operation = AccountOperation::Idle;
            model.account_error = None;
            let r = vec![Effect::Render, Effect::PersistSession(session)];
            assert(effects_view(r@) =~= auth_completed_step(old(model)@, email@, result).1);
            r
        },
        Err(failure) => {
            model.session = None;
            let message = auth_error_message(failure.code, &failure.body);
            fail_account(model, message)
        },
    }
}

fn sign_out(model: &mut Model) -> (r: Vec<Effect>)
    ensures
        final(model)@ == sign_out_step(old(model)@).0,
        effects_view(r@) == sign_out_step(old(model)@).1,
{
    let authorization = match &model.session {
        Some(session) => Some(bearer_header(&session.token)),
        None => None,
    };
    model.session = None;
    model.account_status = AccountStatus::SignedOut;
    model.account_operation = AccountOperation::Idle;
    model.account_error = None;
    model.last_synced_at = None;
    let mut r = vec![Effect::Render, Effect::DeleteSession];
    match authorization {
        Some(authorization) => {
            r.push(Effect::RevokeSession { url: auth_url("/auth/sign-out"), authorization });
        },
        None => {},
    }
    assert(effects_view(r@) =~= sign_out_step(old(model)@).1);
    r
}

fn dismiss_account_error(model: &mut Model) -> (r: Vec<Effect>)
    ensures
        final(model)@ == dismiss_account_error_step(old(model)@).0,
        effects_view(r@) == dismiss_account_error_step(old(model)@).1,
{
    model.account_error = None;
    model.account_operation = AccountOperation::Idle;
    if model.account_status == AccountStatus::Error {
        model.account_status = if model.session.is_some() {
            AccountStatus::SignedIn
        } else {
            AccountStatus::SignedOut
        };
    }
    render()
}

fn begin_sync(model: &mut Model) -> (r: Vec<Effect>)
    ensures
        final(model)@ == begin_sync_step(old(model)@).0,
        effects_view(r@) == begin_sync_step(old(model)@).1,
{
    if model.account_status == AccountStatus::Syncing {
        return done();
    }
    if is_account_busy(model) {
        return done();
    }
    let authorization = match &model.session {
        Some(session) => bearer_header(&session.token),
        None => {
            model.account_operation = AccountOperation::Sync;
            return fail_account(model, "Sign in to sync".to_owned());
        },
    };
    model.account_status = AccountStatus::Syncing;
    model.account_operation = AccountOperation::Sync;
    model.account_error = None;
    let r = vec![Effect::Render, Effect::FetchSync { url: auth_url("/sync"), authorization }];
    assert(effects_view(r@) =~= begin_sync_step(old(model)@).1);
    r
}

fn push_sync(model: &mut Model) -> (r: Vec<Effect>)
    requires
        old(model).account_status == AccountStatus::Syncing && old(model).session is Some
            ==> clock_in_range(old(model)@),
    ensures
        final(model)@ == push_sync_step(old(model)@).0,
        effects_view(r@) == push_sync_step(old(model)@).1,
{
    if model.account_status != AccountStatus::Syncing {
        return done();
    }
    let authorization = match &model.session {
        Some(session) => bearer_header(&session.token),
        None => return done(),
    };
    touch_updated_at(model);
    let body = stored_state_from_model(model);
    let r = vec![Effect::PushSync { url: auth_url("/sync"), authorization, body }];
    assert(effects_view(r@) =~= push_sync_step(old(model)@).1);
    r
}

fn finish_sync_success(model: &mut Model) -> (r: Vec<Effect>)
    ensures
        final(model)@ == finish_sync_step(old(model)@).0,
        effects_view(r@) == finish_sync_step(old(model)@).1,
{
    model.last_synced_at = model.unix_seconds;
    let unix = model.unix_seconds;
    model.session = match &model.session {
        Some(session) => Some(
            Session {
                user_id: session.user_id.clone(),
                token: session.token.clone(),
                email: session.email.clone(),
                last_synced_at: unix,
            },
        ),
        None => None,
    };
    model.account_status = AccountStatus::SignedIn;
    model.account_operation = AccountOperation::Idle;
    model.account_error = None;
    let stored = stored_state_from_model(model);
    let r = match &model.session {
        None => vec![Effect::Render, Effect::PersistState(stored)],
        Some(session) => vec![
            Effect::Render,
            Effect::PersistState(stored),
            Effect::PersistSession(session.copy()),
        ],
    };
    assert(effects_view(r@) =~= finish_sync_step(old(model)@).1);
    r
}

fn expire_session(model: &mut Model) -> (r: Vec<Effect>)
    ensures
        final(model)@ == expire_session_step(old(model)@).0,
        effects_view(r@) == expire_session_step(old(model)@).1,
{
    model.session = None;
    model.last_synced_at = None;
    model.account_status = AccountStatus::Error;
    model.account_operation = AccountOperation::SignIn;
    model.account_error = Some(session_expired_message());
    let r = vec![Effect::Render, Effect::DeleteSession];
    assert(effects_view(r@) =~= expire_session_step(old(model)@).1);
    r
}

fn apply_stored_state(model: &mut Model, stored: StoredState)
    ensures
        final(model)@ == apply_stored(old(model)@, stored@),
{
    model.prayers = stored.prayers;
    model.next_id = stored.next_id;
    model.reminder_settings = stored.reminder_settings;
    model.updated_at = stored.updated_at;
}

fn sync_get_completed(model: &mut Model, result: Result<Option<StoredState>, HttpFailure>) -> (r: Vec<
    Effect,
>)
    requires
        sync_get_pushes(old(model)@, result) ==> clock_in_range(old(model)@),
    ensures
        final(model)@ == sync_get_step(old(model)@, result).0,
        effects_view(r@) == sync_get_step(old(model)@, result).1,
{
    if model.session.is_none() || model.account_status != AccountStatus::Syncing {
        return done();
    }
    match result {
        Ok(None) => push_sync(model),
        Ok(Some(remote)) => {
            if remote.updated_at > model.updated_at {
                apply_stored_state(model, remote);
                finish_sync_success(model)
            } else {
                push_sync(model)
            }
        },
        Err(failure) => {
            if failure.code == Some(404u16) {
                push_sync(model)
            } else if failure.code == Some(401u16) {
                expire_session(model)
            } else {
                let message = auth_error_message(failure.code, &failure.body);
                fail_account(model, message)
            }
        },
    }
}

fn sync_put_completed(model: &mut Model, result: Result<Option<StoredState>, HttpFailure>) -> (r: Vec<
    Effect,
>)
    ensures
        final(model)@ == sync_put_step(old(model)@, result).0,
        effects_view(r@) == sync_put_step(old(model)@, result).1,
{
    if model.session.is_none() || model.account_status != AccountStatus::Syncing {
        return done();
    }
    match result {
        Ok(None) => finish_sync_success(model),
        Ok(Some(remote)) => {
            if remote.updated_at > model.updated_at {
                model.updated_at = remote.updated_at;
            }
            finish_sync_success(model)
        },
        Err(failure) => {
            if failure.code == Some(401u16) {
                expire_session(model)
            } else {
                let message = auth_error_message(failure.code, &failure.body);
                fail_account(model, message)
            }
        },
    }
}


// ---------------------------------------------------------------------------
// Whether an event is in range
// ---------------------------------------------------------------------------

fn clock_ok(model: &Model) -> (r: bool)
    ensures
        r == clock_in_range(model@),
{
    match model.unix_seconds {
        Some(unix) => unix >= model.updated_at || model.updated_at < u64::MAX,
        None => true,
    }
}

/// Dropping the prayers with id `id` shortens the list exactly when one has that id.
proof fn lemma_without_id_len(s: Seq<PrayerView>, id: u64)
    ensures
        without_id(s, id).len() <= s.len(),
        (without_id(s, id).len() == s.len()) == (find_prayer(s, id) is None),
    decreases s.len(),
{
    if s.len() > 0 {
        lemma_without_id_len(s.drop_last(), id);
    }
}

/// Every saved step asks for two effects; a step that only renders asks for one.
proof fn lemma_saved_effects()
    ensures
        render_only().len() == 1,
        forall|x: ModelView| #[trigger] persisted(x).1.len() == 2,
{
    assert forall|x: ModelView| #[trigger] persisted(x).1.len() == 2 by {}
}

/// Whether editing an intention with these values would save a change.
fn update_saves(
    model: &Model,
    id: u64,
    intention: &String,
    details: &String,
    tags: &Vec<String>,
    cadence: IntentionCadence,
    saint_id: &String,
    color: IntentionColor,
    novena_start: Option<CivilDate>,
) -> (r: bool)
    ensures
        r == (update_prayer_step(
            model@,
            id,
            intention@,
            details@,
            strings_view(tags@),
            cadence,
            saint_id@,
            color,
            novena_start,
        ).1 != render_only()),
{
    proof {
        lemma_saved_effects();
    }
    let title = normalize_intention(intention.clone());
    if title.as_str().is_empty() {
        return false;
    }
    let details = normalize_details(details.clone());
    let saint_id = trim_optional(saint_id.clone());
    let tags = normalize_tags(copy_strings(tags));
    let novena_start = resolve_novena_start(cadence, novena_start);
    let i = match find_index(&model.prayers, id) {
        Some(i) => i,
        None => return false,
    };
    proof {
        lemma_view_index(model.prayers@, i as int);
    }
    let p = &model.prayers[i];
    !(p.intention.eq(&title) && opt_string_eq(&p.details, &details) && strings_eq(&p.tags, &tags)
        && p.cadence == cadence && opt_string_eq(&p.saint_id, &saint_id) && p.color == color
        && date_opt_eq(p.novena_start, novena_start))
}

/// Whether setting the status of intention `id` would save a change.
fn status_changes(model: &Model, id: u64, status: PrayerStatus) -> (r: bool)
    ensures
        r == (set_status_step(model@, id, status).1 != render_only()),
{
    proof {
        lemma_saved_effects();
    }
    match find_index(&model.prayers, id) {
        Some(i) => {
            proof {
                lemma_view_index(model.prayers@, i as int);
            }
            model.prayers[i].status != status
        },
        None => false,
    }
}

impl Implore {
    /// Whether [`Implore::update`] can answer `event` in `model` without a
    /// counter overflowing: what its `requires` asks beyond a well-formed model.
    pub fn can_update(&self, event: &Event, model: &Model) -> (r: bool)
        ensures
            r == update_in_range(model@, *event),
    {
        proof {
            lemma_saved_effects();
        }
        let clock = clock_ok(model);
        match event {
            Event::AddPrayer { intention, .. } => {
                let title = normalize_intention(intention.clone());
                title.as_str().is_empty() || (model.next_id < u64::MAX && clock)
            },
            Event::UpdatePrayer {
                id,
                intention,
                details,
                tags,
                cadence,
                saint_id,
                color,
                novena_start,
            } => clock || !update_saves(
                model,
                *id,
                intention,
                details,
                tags,
                *cadence,
                saint_id,
                *color,
                *novena_start,
            ),
            Event::RemovePrayer { id } => {
                proof {
                    lemma_without_id_len(model@.prayers, *id);
                }
                clock || find_index(&model.prayers, *id).is_none()
            },
            Event::RemoveAllPrayers => clock || model.prayers.len() == 0,
            Event::ArchivePrayer { id } => clock || !status_changes(
                model,
                *id,
                PrayerStatus::Archived,
            ),
            Event::UnarchivePrayer { id } => clock || !status_changes(
                model,
                *id,
                PrayerStatus::Active,
            ),
            Event::SetReminderSettings { enabled, hour, minute } => {
                let hour = if *hour <= 23 {
                    *hour
                } else {
                    23
                };
                let minute = snap_minute(*minute);
                clock || (model.reminder_settings.enabled == *enabled
                    && model.reminder_settings.hour == hour && model.reminder_settings.minute
                    == minute)
            },
            Event::LogPrayer { id } => {
                let saves = match model.local_now {
                    None => false,
                    Some(_) => match find_index(&model.prayers, *id) {
                        None => false,
                        Some(i) => {
                            proof {
                                lemma_view_index(model.prayers@, i as int);
                            }
                            model.prayers[i].status == PrayerStatus::Active
                        },
                    },
                };
                clock || !saves
            },
            Event::RemovePrayerLogEntry { id, index } => {
                let saves = match find_index(&model.prayers, *id) {
                    None => false,
                    Some(i) => {
                        proof {
                            lemma_view_index(model.prayers@, i as int);
                        }
                        let k: usize = #[verifier::truncate] (*index as usize);
                        k < model.prayers[i].prayed_on.len()
                    },
                };
                clock || !saves
            },
            Event::SyncGetCompleted(result) => {
                let pushes = model.session.is_some() && model.account_status
                    == AccountStatus::Syncing && match result {
                    Ok(None) => true,
                    Ok(Some(remote)) => remote.updated_at <= model.updated_at,
                    Err(failure) => failure.code == Some(404u16),
                };
                clock || !pushes
            },
            Event::SelectCalendarDate { .. } => match model.local_now {
                Some(now) => i32::MIN < now.date.year && now.date.year < i32::MAX,
                None => true,
            },
            _ => true,
        }
    }
}

impl Implore {
    /// Answers `event`: updates `model` and returns the effects for the shell, in order.
    pub fn update(&self, event: Event, model: &mut Model) -> (r: Vec<Effect>)
        requires
            update_in_range(old(model)@, event),
        ensures
            old(model).wf() ==> final(model).wf(),
            final(model)@ == transition(old(model)@, event).0,
            effects_view(r@) == transition(old(model)@, event).1,
    {
        match event {
            Event::Restore => {
                let r = vec![Effect::LoadPrayers, Effect::LoadSession];
                assert(effects_view(r@) =~= seq![EffectView::LoadPrayers, EffectView::LoadSession]);
                r
            },
            Event::PrayersLoaded(stored) => {
                if let Some(stored) = stored {
                    apply_stored_state(model, stored);
                }
                render()
            },
            Event::SessionLoaded(session) => {
                if let Some(session) = session {
                    model.last_synced_at = session.last_synced_at;
                    model.session = Some(session);
                    model.account_status = AccountStatus::SignedIn;
                    model.account_operation = AccountOperation::Idle;
                    model.account_error = None;
                }
                render()
            },
            Event::AddPrayer { intention, details, tags, cadence, saint_id, color, novena_start } => {
                proof {
                    if normalized_intention(intention@).len() > 0 {
                        assert(add_prayer_step(
                            old(model)@,
                            intention@,
                            details@,
                            strings_view(tags@),
                            cadence,
                            saint_id@,
                            color,
                            novena_start,
                        ).1.len() == 2);
                    }
                }
                add_prayer(model, intention, details, tags, cadence, saint_id, color, novena_start)
            },
            Event::UpdatePrayer {
                id,
                intention,
                details,
                tags,
                cadence,
                saint_id,
                color,
                novena_start,
            } => update_prayer(
                model,
                id,
                intention,
                details,
                tags,
                cadence,
                saint_id,
                color,
                novena_start,
            ),
            Event::RemovePrayer { id } => {
                proof {
                    if without_id(old(model)@.prayers, id).len() != old(model)@.prayers.len() {
                        assert(transition(old(model)@, Event::RemovePrayer { id }).1.len() == 2);
                    }
                }
                remove_prayer(model, id)
            },
            Event::RemoveAllPrayers => {
                proof {
                    if old(model)@.prayers.len() > 0 {
                        assert(transition(old(model)@, Event::RemoveAllPrayers).1.len() == 2);
                    }
                }
                remove_all_prayers(model)
            },
            Event::ArchivePrayer { id } => set_status(model, id, PrayerStatus::Archived),
            Event::UnarchivePrayer { id } => set_status(model, id, PrayerStatus::Active),
            Event::SetReminderSettings { enabled, hour, minute } => set_reminder_settings(
                model,
                enabled,
                hour,
                minute,
            ),
            Event::SyncLocalTime { year, month, day, hour, minute, unix_seconds } =>
                sync_local_time(model, year, month, day, hour, minute, unix_seconds),
            Event::SelectCalendarDate { year, month, day } => select_calendar_date(
                model,
                year,
                month,
                day,
            ),
            Event::LogPrayer { id } => log_prayer(model, id),
            Event::RemovePrayerLogEntry { id, index } => remove_prayer_log_entry(model, id, index),
            Event::SignUp { email, password } => begin_auth(model, email, password, true),
            Event::SignIn { email, password } => begin_auth(model, email, password, false),
            Event::SignOut => sign_out(model),
            Event::DismissAccountError => dismiss_account_error(model),
            Event::SyncRequested => begin_sync(model),
            Event::AuthCompleted { email, result } => auth_completed(model, email, result),
            Event::SyncGetCompleted(result) => sync_get_completed(model, result),
            Event::SyncPutCompleted(result) => sync_put_completed(model, result),
            Event::SessionPersisted => done(),
            Event::SignOutCompleted => done(),
            Event::Persisted => done(),
        }
    }
}

} // verus!
