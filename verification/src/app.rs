//! The application core: intentions, reminder settings, the account and sync
//! state machine, and the view model the shell renders.
use vstd::prelude::*;

use crate::account::{AccountOperation, AccountStatus, AuthRequest, AuthResponse, Session, SessionView};
use crate::liturgical::LiturgicalDay;
use crate::prayer_log::PrayerLogEntry;
use crate::reminder::{CivilDate, CivilDateTime, ReminderDigest};
use crate::text::{
    take_chars, trim, trim_and_take, trim_str,
};

verus! {

/// Max tags stored on one intention (also exposed on [`ViewModel`]).
pub const MAX_TAGS: usize = 8;

/// Max characters per tag (also exposed on [`ViewModel`]).
pub const MAX_TAG_LEN: usize = 32;

/// Max characters in an intention title (also exposed on [`ViewModel`]).
pub const MAX_INTENTION_LEN: usize = 64;

/// Max characters in optional details (also exposed on [`ViewModel`]).
pub const MAX_DETAILS_LEN: usize = 512;

/// Marketing version of this core.
pub const VERSION: &'static str = "0.1.0";

/// Key-value key of the persisted [`StoredState`].
pub const PRAYERS_KEY: &'static str = "prayers";

#[derive(Clone, Copy, Debug, PartialEq, Eq, Structural)]
pub enum PrayerStatus {
    Active,
    Archived,
}

#[derive(Clone, Copy, Debug, PartialEq, Eq, Structural)]
pub enum IntentionCadence {
    Unscheduled,
    Daily,
    Weekly,
    Monthly,
    Novena,
}

/// Preset accent colors for intention rows (shell maps to platform colors).
#[derive(Clone, Copy, Debug, PartialEq, Eq, Structural)]
pub enum IntentionColor {
    /// No accent color (the default).
    Unset,
    Sky,
    Sage,
    Sand,
    Rose,
    Slate,
    Gold,
}

/// One prayer intention.
#[derive(Clone, Debug, PartialEq, Eq)]
pub struct Prayer {
    pub id: u64,
    pub intention: String,
    pub details: Option<String>,
    pub tags: Vec<String>,
    pub status: PrayerStatus,
    pub cadence: IntentionCadence,
    pub saint_id: Option<String>,
    pub color: IntentionColor,
    /// Start of a classic 9-day novena; only set when [`IntentionCadence::Novena`].
    pub novena_start: Option<CivilDate>,
    pub prayed_on: Vec<PrayerLogEntry>,
}

/// The mathematical value of a [`Prayer`]: its texts as character sequences.
#[verifier::ext_equal]
pub struct PrayerView {
    pub id: u64,
    pub intention: Seq<char>,
    pub details: Option<Seq<char>>,
    pub tags: Seq<Seq<char>>,
    pub status: PrayerStatus,
    pub cadence: IntentionCadence,
    pub saint_id: Option<Seq<char>>,
    pub color: IntentionColor,
    pub novena_start: Option<CivilDate>,
    pub prayed_on: Seq<PrayerLogEntry>,
}

/// The value of an optional string.
pub open spec fn opt_view(s: Option<String>) -> Option<Seq<char>> {
    match s {
        Some(t) => Some(t@),
        None => None,
    }
}

/// The values of a list of strings.
pub open spec fn strings_view(s: Seq<String>) -> Seq<Seq<char>> {
    s.map_values(|t: String| t@)
}

impl View for Prayer {
    type V = PrayerView;

    open spec fn view(&self) -> PrayerView {
        PrayerView {
            id: self.id,
            intention: self.intention@,
            details: opt_view(self.details),
            tags: strings_view(self.tags@),
            status: self.status,
            cadence: self.cadence,
            saint_id: opt_view(self.saint_id),
            color: self.color,
            novena_start: self.novena_start,
            prayed_on: self.prayed_on@,
        }
    }
}

/// The values of a list of prayers.
pub open spec fn prayers_view(s: Seq<Prayer>) -> Seq<PrayerView> {
    s.map_values(|p: Prayer| p@)
}

/// A copy of an optional string.
pub fn copy_opt_string(s: &Option<String>) -> (r: Option<String>)
    ensures
        opt_view(r) == opt_view(*s),
{
    match s {
        Some(t) => Some(t.clone()),
        None => None,
    }
}

/// A copy of a list of strings.
pub fn copy_strings(s: &Vec<String>) -> (r: Vec<String>)
    ensures
        strings_view(r@) == strings_view(s@),
{
    let mut out: Vec<String> = Vec::new();
    let mut i: usize = 0;
    while i < s.len()
        invariant
            0 <= i <= s@.len(),
            out@.len() == i,
            strings_view(out@) == strings_view(s@.take(i as int)),
        decreases s@.len() - i,
    {
        let ghost prev = out@;
        let c = s[i].clone();
        out.push(c);
        proof {
            assert(s@.take(i + 1) =~= s@.take(i as int).push(s@[i as int]));
            assert forall|j: int| 0 <= j < i + 1 implies #[trigger] strings_view(out@)[j]
                == strings_view(s@.take(i + 1))[j] by {
                if j < i {
                    assert(out@[j] == prev[j]);
                    assert(strings_view(prev)[j] == strings_view(s@.take(i as int))[j]);
                }
            }
            assert(strings_view(out@) =~= strings_view(s@.take(i + 1)));
        }
        i += 1;
    }
    assert(s@.take(s@.len() as int) =~= s@);
    out
}

/// A copy of a list of log entries.
pub fn copy_entries(s: &Vec<PrayerLogEntry>) -> (r: Vec<PrayerLogEntry>)
    ensures
        r@ == s@,
{
    let mut out: Vec<PrayerLogEntry> = Vec::new();
    let mut i: usize = 0;
    while i < s.len()
        invariant
            0 <= i <= s@.len(),
            out@ == s@.take(i as int),
        decreases s@.len() - i,
    {
        out.push(s[i]);
        proof {
            assert(s@.take(i + 1) =~= s@.take(i as int).push(s@[i as int]));
        }
        i += 1;
    }
    assert(s@.take(s@.len() as int) =~= s@);
    out
}

impl Prayer {
    /// A copy of this prayer.
    pub fn copy(&self) -> (r: Prayer)
        ensures
            r@ == self@,
    {
        Prayer {
            id: self.id,
            intention: self.intention.clone(),
            details: copy_opt_string(&self.details),
            tags: copy_strings(&self.tags),
            status: self.status,
            cadence: self.cadence,
            saint_id: copy_opt_string(&self.saint_id),
            color: self.color,
            novena_start: self.novena_start,
            prayed_on: copy_entries(&self.prayed_on),
        }
    }
}


// ---------------------------------------------------------------------------
// Input normalisation
// ---------------------------------------------------------------------------

/// An intention title: trimmed, at most [`MAX_INTENTION_LEN`] characters.
pub open spec fn normalized_intention(value: Seq<char>) -> Seq<char> {
    take_chars(trim(value), MAX_INTENTION_LEN as int)
}

/// Optional details: trimmed, at most [`MAX_DETAILS_LEN`] characters, absent when empty.
pub open spec fn normalized_details(value: Seq<char>) -> Option<Seq<char>> {
    let t = take_chars(trim(value), MAX_DETAILS_LEN as int);
    if t.len() == 0 {
        None
    } else {
        Some(t)
    }
}

/// An optional field: trimmed, absent when empty.
pub open spec fn trimmed_optional(value: Seq<char>) -> Option<Seq<char>> {
    let t = trim(value);
    if t.len() == 0 {
        None
    } else {
        Some(t)
    }
}

/// Each tag trimmed and cut to [`MAX_TAG_LEN`] characters, empty tags dropped, in order.
pub open spec fn cleaned_tags(tags: Seq<Seq<char>>) -> Seq<Seq<char>>
    decreases tags.len(),
{
    if tags.len() == 0 {
        seq![]
    } else {
        let rest = cleaned_tags(tags.drop_last());
        let t = take_chars(trim(tags.last()), MAX_TAG_LEN as int);
        if t.len() == 0 {
            rest
        } else {
            rest.push(t)
        }
    }
}

/// The first [`MAX_TAGS`] cleaned tags.
pub open spec fn normalized_tags(tags: Seq<Seq<char>>) -> Seq<Seq<char>> {
    let cleaned = cleaned_tags(tags);
    if cleaned.len() <= MAX_TAGS {
        cleaned
    } else {
        cleaned.take(MAX_TAGS as int)
    }
}

/// A novena start is kept only for the novena cadence.
pub open spec fn resolved_novena_start(cadence: IntentionCadence, start: Option<CivilDate>) -> Option<
    CivilDate,
> {
    match cadence {
        IntentionCadence::Novena => start,
        _ => None,
    }
}

/// A reminder minute snapped down to a quarter hour (0, 15, 30 or 45).
pub open spec fn snapped_minute(minute: u8) -> u8 {
    let snapped = (minute / 15) * 15;
    if snapped <= 45 {
        snapped as u8
    } else {
        45
    }
}

pub fn snap_minute(minute: u8) -> (r: u8)
    ensures
        r == snapped_minute(minute),
{
    let snapped = (minute / 15) * 15;
    if snapped <= 45 {
        snapped
    } else {
        45
    }
}

pub fn normalize_intention(value: String) -> (r: String)
    ensures
        r@ == normalized_intention(value@),
{
    trim_and_take(value.as_str(), MAX_INTENTION_LEN)
}

pub fn normalize_details(value: String) -> (r: Option<String>)
    ensures
        opt_view(r) == normalized_details(value@),
{
    let trimmed = trim_and_take(value.as_str(), MAX_DETAILS_LEN);
    if trimmed.as_str().is_empty() {
        None
    } else {
        Some(trimmed)
    }
}

pub fn trim_optional(value: String) -> (r: Option<String>)
    ensures
        opt_view(r) == trimmed_optional(value@),
{
    let trimmed = trim_str(value.as_str());
    if trimmed.as_str().is_empty() {
        None
    } else {
        Some(trimmed)
    }
}

pub fn normalize_tags(tags: Vec<String>) -> (r: Vec<String>)
    ensures
        strings_view(r@) == normalized_tags(strings_view(tags@)),
{
    let mut cleaned: Vec<String> = Vec::new();
    let mut i: usize = 0;
    while i < tags.len()
        invariant
            0 <= i <= tags@.len(),
            cleaned@.len() == cleaned_tags(strings_view(tags@.take(i as int))).len(),
            strings_view(cleaned@) == cleaned_tags(strings_view(tags@.take(i as int))),
        decreases tags@.len() - i,
    {
        let tag = trim_and_take(tags[i].as_str(), MAX_TAG_LEN);
        proof {
            assert(strings_view(tags@.take(i + 1)).drop_last() =~= strings_view(
                tags@.take(i as int),
            ));
            assert(strings_view(tags@.take(i + 1)).last() == tags@[i as int]@);
        }
        if !tag.as_str().is_empty() {
            let ghost prev = cleaned@;
            cleaned.push(tag);
            proof {
                assert(strings_view(cleaned@) =~= strings_view(prev).push(tag@));
            }
        }
        i += 1;
    }
    assert(tags@.take(tags@.len() as int) =~= tags@);
    if cleaned.len() > MAX_TAGS {
        cleaned.truncate(MAX_TAGS);
        proof {
            assert(strings_view(cleaned@) =~= normalized_tags(strings_view(tags@)));
        }
    }
    cleaned
}

pub fn resolve_novena_start(cadence: IntentionCadence, start: Option<CivilDate>) -> (r: Option<
    CivilDate,
>)
    ensures
        r == resolved_novena_start(cadence, start),
{
    match cadence {
        IntentionCadence::Novena => start,
        _ => None,
    }
}


// ---------------------------------------------------------------------------
// Settings, persisted state and the model
// ---------------------------------------------------------------------------

/// Daily reminder digest settings.
#[derive(Clone, Copy, Debug, PartialEq, Eq, Structural)]
pub struct ReminderSettings {
    pub enabled: bool,
    pub hour: u8,
    pub minute: u8,
}

impl Default for ReminderSettings {
    fn default() -> (r: Self)
        ensures
            r == (ReminderSettings { enabled: false, hour: 8, minute: 0 }),
    {
        Self { enabled: false, hour: 8, minute: 0 }
    }
}

/// What is persisted locally and synced: intentions, next id, settings and
/// the document version for last-writer-wins sync.
#[derive(Clone, Debug, PartialEq, Eq)]
pub struct StoredState {
    pub prayers: Vec<Prayer>,
    pub next_id: u64,
    pub reminder_settings: ReminderSettings,
    pub updated_at: u64,
}

/// The value of a [`StoredState`].
#[verifier::ext_equal]
pub struct StoredStateView {
    pub prayers: Seq<PrayerView>,
    pub next_id: u64,
    pub reminder_settings: ReminderSettings,
    pub updated_at: u64,
}

impl View for StoredState {
    type V = StoredStateView;

    open spec fn view(&self) -> StoredStateView {
        StoredStateView {
            prayers: prayers_view(self.prayers@),
            next_id: self.next_id,
            reminder_settings: self.reminder_settings,
            updated_at: self.updated_at,
        }
    }
}

/// The core's whole state.
pub struct Model {
    pub prayers: Vec<Prayer>,
    pub next_id: u64,
    pub reminder_settings: ReminderSettings,
    pub local_now: Option<CivilDateTime>,
    /// Browse selection for the Calendar tab; defaults to local today after sync.
    pub calendar_date: Option<CivilDate>,
    pub session: Option<Session>,
    pub account_status: AccountStatus,
    pub account_operation: AccountOperation,
    pub account_error: Option<String>,
    pub last_synced_at: Option<u64>,
    /// Document version for LWW sync.
    pub updated_at: u64,
    /// Latest unix seconds from [`Event::SyncLocalTime`].
    pub unix_seconds: Option<u64>,
}

/// The value of a [`Model`].
#[verifier::ext_equal]
pub struct ModelView {
    pub prayers: Seq<PrayerView>,
    pub next_id: u64,
    pub reminder_settings: ReminderSettings,
    pub local_now: Option<CivilDateTime>,
    pub calendar_date: Option<CivilDate>,
    pub session: Option<SessionView>,
    pub account_status: AccountStatus,
    pub account_operation: AccountOperation,
    pub account_error: Option<Seq<char>>,
    pub last_synced_at: Option<u64>,
    pub updated_at: u64,
    pub unix_seconds: Option<u64>,
}

/// The value of an optional session.
pub open spec fn session_view(s: Option<Session>) -> Option<SessionView> {
    match s {
        Some(t) => Some(t@),
        None => None,
    }
}

impl View for Model {
    type V = ModelView;

    open spec fn view(&self) -> ModelView {
        ModelView {
            prayers: prayers_view(self.prayers@),
            next_id: self.next_id,
            reminder_settings: self.reminder_settings,
            local_now: self.local_now,
            calendar_date: self.calendar_date,
            session: session_view(self.session),
            account_status: self.account_status,
            account_operation: self.account_operation,
            account_error: opt_view(self.account_error),
            last_synced_at: self.last_synced_at,
            updated_at: self.updated_at,
            unix_seconds: self.unix_seconds,
        }
    }
}

impl Model {
    /// The dates the model holds are ones the date routines handle.
    pub open spec fn wf(&self) -> bool {
        &&& (self.local_now matches Some(now) ==> crate::reminder::is_bounded_date(now.date))
        &&& (self.calendar_date matches Some(d) ==> crate::reminder::is_bounded_date(d))
    }
}

impl ModelView {
    /// The dates the model holds are ones the date routines handle.
    pub open spec fn wf(self) -> bool {
        &&& (self.local_now matches Some(now) ==> crate::reminder::is_bounded_date(now.date))
        &&& (self.calendar_date matches Some(d) ==> crate::reminder::is_bounded_date(d))
    }
}

impl Default for Model {
    fn default() -> (r: Self)
        ensures
            r@.prayers.len() == 0,
            r.next_id == 0,
            r.reminder_settings == (ReminderSettings { enabled: false, hour: 8, minute: 0 }),
            r.local_now is None,
            r.calendar_date is None,
            r.session is None,
            r.account_status == AccountStatus::SignedOut,
            r.account_operation == AccountOperation::Idle,
            r.account_error is None,
            r.last_synced_at is None,
            r.updated_at == 0,
            r.unix_seconds is None,
            r.wf(),
    {
        Model {
            prayers: Vec::new(),
            next_id: 0,
            reminder_settings: ReminderSettings::default(),
            local_now: None,
            calendar_date: None,
            session: None,
            account_status: AccountStatus::SignedOut,
            account_operation: AccountOperation::Idle,
            account_error: None,
            last_synced_at: None,
            updated_at: 0,
            unix_seconds: None,
        }
    }
}

/// An intention due on a day, with whether it was already prayed that day.
#[derive(Clone, Debug, PartialEq, Eq)]
pub struct TodayPrayer {
    pub prayer: Prayer,
    pub prayed_today: bool,
}

/// What the shell renders.
#[derive(Clone, Debug, PartialEq, Eq)]
pub struct ViewModel {
    /// Version of this core.
    pub version: String,
    /// True when any intention exists (active or archived).
    pub has_prayers: bool,
    /// Active intentions for the Intentions list.
    pub prayers: Vec<Prayer>,
    /// Archived intentions for the Archived screen.
    pub archived_prayers: Vec<Prayer>,
    /// Intentions due on the shell's local date (never-prayed first, then least-recently-prayed).
    pub today_prayers: Vec<TodayPrayer>,
    /// Shell's local calendar date; set after `SyncLocalTime`.
    pub local_date: Option<CivilDate>,
    pub reminder_settings: ReminderSettings,
    pub reminder_digests: Vec<ReminderDigest>,
    /// Temporal cycle for the shell's local date; set after `SyncLocalTime`.
    pub liturgical_day: Option<LiturgicalDay>,
    /// Selected day on the Calendar tab.
    pub calendar_date: Option<CivilDate>,
    /// Earliest selectable calendar day (±1 year from local today).
    pub calendar_min_date: Option<CivilDate>,
    /// Latest selectable calendar day (±1 year from local today).
    pub calendar_max_date: Option<CivilDate>,
    /// Temporal cycle for [`Self::calendar_date`].
    pub calendar_liturgical_day: Option<LiturgicalDay>,
    /// Intentions due on [`Self::calendar_date`] (same ordering as today).
    pub calendar_prayers: Vec<TodayPrayer>,
    /// Max tags per intention.
    pub max_tags: u8,
    /// Max characters per tag.
    pub max_tag_len: u8,
    /// Max characters in an intention title.
    pub max_intention_len: u8,
    /// Max characters in optional details.
    pub max_details_len: u16,
    pub account_status: AccountStatus,
    /// Empty when signed out.
    pub signed_in_email: String,
    pub last_synced_at: Option<u64>,
    /// Empty when no account error.
    pub account_error: String,
    pub account_operation: AccountOperation,
    /// Sync API base URL the core will call (for Settings / debugging).
    pub api_base_url: String,
}

impl Default for ViewModel {
    fn default() -> (r: Self)
        ensures
            r.version@ == VERSION@,
            !r.has_prayers,
            r.prayers@.len() == 0,
            r.archived_prayers@.len() == 0,
            r.today_prayers@.len() == 0,
            r.local_date is None,
            r.reminder_settings == (ReminderSettings { enabled: false, hour: 8, minute: 0 }),
            r.reminder_digests@.len() == 0,
            r.liturgical_day is None,
            r.calendar_date is None,
            r.calendar_min_date is None,
            r.calendar_max_date is None,
            r.calendar_liturgical_day is None,
            r.calendar_prayers@.len() == 0,
            r.max_tags == MAX_TAGS,
            r.max_tag_len == MAX_TAG_LEN,
            r.max_intention_len == MAX_INTENTION_LEN,
            r.max_details_len == MAX_DETAILS_LEN,
            r.account_status == AccountStatus::SignedOut,
            r.signed_in_email@.len() == 0,
            r.last_synced_at is None,
            r.account_error@.len() == 0,
            r.account_operation == AccountOperation::Idle,
            r.api_base_url@ == crate::account::API_BASE_URL@,
    {
        Self {
            version: VERSION.to_owned(),
            has_prayers: false,
            prayers: Vec::new(),
            archived_prayers: Vec::new(),
            today_prayers: Vec::new(),
            local_date: None,
            reminder_settings: ReminderSettings::default(),
            reminder_digests: Vec::new(),
            liturgical_day: None,
            calendar_date: None,
            calendar_min_date: None,
            calendar_max_date: None,
            calendar_liturgical_day: None,
            calendar_prayers: Vec::new(),
            max_tags: MAX_TAGS as u8,
            max_tag_len: MAX_TAG_LEN as u8,
            max_intention_len: MAX_INTENTION_LEN as u8,
            max_details_len: MAX_DETAILS_LEN as u16,
            account_status: AccountStatus::SignedOut,
            signed_in_email: String::new(),
            last_synced_at: None,
            account_error: String::new(),
            account_operation: AccountOperation::Idle,
            api_base_url: crate::account::API_BASE_URL.to_owned(),
        }
    }
}

// ---------------------------------------------------------------------------
// Events and effects
// ---------------------------------------------------------------------------

/// A failed HTTP request: its status code (none when the server was not
/// reached) and its body, if any.
#[derive(Clone, Debug, PartialEq, Eq)]
pub struct HttpFailure {
    pub code: Option<u16>,
    pub body: Option<Vec<u8>>,
}

impl HttpFailure {
    pub open spec fn body_view(self) -> Option<Seq<u8>> {
        match self.body {
            Some(b) => Some(b@),
            None => None,
        }
    }
}

/// What the shell, or the answer to an effect, reports to the core.
#[derive(Debug, PartialEq, Eq)]
pub enum Event {
    /// Load persisted prayers and the session from the shell key-value store.
    Restore,
    AddPrayer {
        intention: String,
        details: String,
        tags: Vec<String>,
        cadence: IntentionCadence,
        saint_id: String,
        color: IntentionColor,
        novena_start: Option<CivilDate>,
    },
    UpdatePrayer {
        id: u64,
        intention: String,
        details: String,
        tags: Vec<String>,
        cadence: IntentionCadence,
        saint_id: String,
        color: IntentionColor,
        novena_start: Option<CivilDate>,
    },
    RemovePrayer { id: u64 },
    /// Delete every intention (active and archived).
    RemoveAllPrayers,
    ArchivePrayer { id: u64 },
    UnarchivePrayer { id: u64 },
    SetReminderSettings { enabled: bool, hour: u8, minute: u8 },
    /// Shell reports the user's local date/time for digest planning.
    SyncLocalTime {
        year: u16,
        month: u8,
        day: u8,
        hour: u8,
        minute: u8,
        /// Unix seconds (UTC) from the shell clock; used for sync LWW.
        unix_seconds: u64,
    },
    /// Selected day on the in-app calendar (±1 year from local today).
    SelectCalendarDate { year: u16, month: u8, day: u8 },
    /// Append a prayer log entry for this intention (today's local date).
    LogPrayer { id: u64 },
    /// Remove one prayer log entry by index in `prayed_on`.
    RemovePrayerLogEntry { id: u64, index: u64 },
    /// Create an account on the sync API.
    SignUp { email: String, password: String },
    /// Sign in to an existing account.
    SignIn { email: String, password: String },
    /// Clear the local session (does not delete intentions).
    SignOut,
    /// Clear a stale account error (leaving Create Account, etc.).
    DismissAccountError,
    /// Pull/push the sync document (LWW on `updated_at`).
    SyncRequested,
    /// The stored prayers blob, when one was found and it parsed.
    PrayersLoaded(Option<StoredState>),
    /// The stored session, when one was found and it parsed.
    SessionLoaded(Option<Session>),
    /// The shell finished writing the prayers blob.
    Persisted,
    /// The shell finished writing or deleting the session blob.
    SessionPersisted,
    /// Auth response: the body when the request succeeded (none when it had
    /// none or it did not parse), or the failure.
    AuthCompleted { email: String, result: Result<Option<AuthResponse>, HttpFailure> },
    /// GET /sync response.
    SyncGetCompleted(Result<Option<StoredState>, HttpFailure>),
    /// PUT /sync response.
    SyncPutCompleted(Result<Option<StoredState>, HttpFailure>),
    /// Best-effort server session revoke finished.
    SignOutCompleted,
}

/// What the core asks the shell to do.
#[derive(Clone, Debug, PartialEq, Eq)]
pub enum Effect {
    /// Render the view model.
    Render,
    /// Read the prayers blob ([`PRAYERS_KEY`]); answered by [`Event::PrayersLoaded`].
    LoadPrayers,
    /// Read the session blob (`SESSION_KEY`); answered by [`Event::SessionLoaded`].
    LoadSession,
    /// Write this state as the prayers blob; answered by [`Event::Persisted`].
    PersistState(StoredState),
    /// Write this session as the session blob; answered by [`Event::SessionPersisted`].
    PersistSession(Session),
    /// Delete the session blob; answered by [`Event::SessionPersisted`].
    DeleteSession,
    /// POST the credentials as JSON to `url`; answered by [`Event::AuthCompleted`]
    /// with the request's e-mail.
    Authenticate { url: String, request: AuthRequest },
    /// POST to `url` with this `Authorization` header; answered by [`Event::SignOutCompleted`].
    RevokeSession { url: String, authorization: String },
    /// GET the sync document; answered by [`Event::SyncGetCompleted`].
    FetchSync { url: String, authorization: String },
    /// PUT the sync document as JSON; answered by [`Event::SyncPutCompleted`].
    PushSync { url: String, authorization: String, body: StoredState },
}

/// The value of an [`Effect`].
#[verifier::ext_equal]
pub enum EffectView {
    Render,
    LoadPrayers,
    LoadSession,
    PersistState(StoredStateView),
    PersistSession(SessionView),
    DeleteSession,
    Authenticate { url: Seq<char>, email: Seq<char>, password: Seq<char> },
    RevokeSession { url: Seq<char>, authorization: Seq<char> },
    FetchSync { url: Seq<char>, authorization: Seq<char> },
    PushSync { url: Seq<char>, authorization: Seq<char>, body: StoredStateView },
}

impl View for Effect {
    type V = EffectView;

    open spec fn view(&self) -> EffectView {
        match self {
            Effect::Render => EffectView::Render,
            Effect::LoadPrayers => EffectView::LoadPrayers,
            Effect::LoadSession => EffectView::LoadSession,
            Effect::PersistState(s) => EffectView::PersistState(s@),
            Effect::PersistSession(s) => EffectView::PersistSession(s@),
            Effect::DeleteSession => EffectView::DeleteSession,
            Effect::Authenticate { url, request } => EffectView::Authenticate {
                url: url@,
                email: request.email@,
                password: request.password@,
            },
            Effect::RevokeSession { url, authorization } => EffectView::RevokeSession {
                url: url@,
                authorization: authorization@,
            },
            Effect::FetchSync { url, authorization } => EffectView::FetchSync {
                url: url@,
                authorization: authorization@,
            },
            Effect::PushSync { url, authorization, body } => EffectView::PushSync {
                url: url@,
                authorization: authorization@,
                body: body@,
            },
        }
    }
}

/// The values of a list of effects.
pub open spec fn effects_view(s: Seq<Effect>) -> Seq<EffectView> {
    s.map_values(|e: Effect| e@)
}

/// The application core.
pub struct Implore;

} // verus!
