//! The view model the shell renders, computed from the model.
use vstd::prelude::*;

use crate::account::{AccountOperation, AccountStatus, API_BASE_URL};
use crate::app::{
    opt_view, session_view, prayers_view, Implore, IntentionCadence, Model, ModelView, Prayer, PrayerStatus,
    PrayerView, ReminderSettings, TodayPrayer, ViewModel, MAX_DETAILS_LEN, MAX_INTENTION_LEN,
    MAX_TAGS, MAX_TAG_LEN, VERSION,
};
use crate::liturgical::{
    is_liturgical_year, liturgical_day_for, liturgical_day_of, LiturgicalDay, MAX_LITURGICAL_YEAR,
};
use crate::prayer_log::{logged_on, prayed_on_date};
use crate::reminder::{
    calendar_range, day_list, digests_view, is_bounded_date, lemma_bounded_weekday,
    plan_digests, planned_digests, select_today, shift_years, weekday_in_range, CivilDate,
    ReminderDigestView,
    DIGEST_HORIZON_DAYS,
};

verus! {

/// The value of a [`TodayPrayer`].
#[verifier::ext_equal]
pub struct TodayPrayerView {
    pub prayer: PrayerView,
    pub prayed_today: bool,
}

impl View for TodayPrayer {
    type V = TodayPrayerView;

    open spec fn view(&self) -> TodayPrayerView {
        TodayPrayerView { prayer: self.prayer@, prayed_today: self.prayed_today }
    }
}

/// The values of a list of day entries.
pub open spec fn today_view(s: Seq<TodayPrayer>) -> Seq<TodayPrayerView> {
    s.map_values(|t: TodayPrayer| t@)
}

/// The value of a [`ViewModel`].
#[verifier::ext_equal]
pub struct ViewModelView {
    pub version: Seq<char>,
    pub has_prayers: bool,
    pub prayers: Seq<PrayerView>,
    pub archived_prayers: Seq<PrayerView>,
    pub today_prayers: Seq<TodayPrayerView>,
    pub local_date: Option<CivilDate>,
    pub reminder_settings: ReminderSettings,
    pub reminder_digests: Seq<ReminderDigestView>,
    pub liturgical_day: Option<LiturgicalDay>,
    pub calendar_date: Option<CivilDate>,
    pub calendar_min_date: Option<CivilDate>,
    pub calendar_max_date: Option<CivilDate>,
    pub calendar_liturgical_day: Option<LiturgicalDay>,
    pub calendar_prayers: Seq<TodayPrayerView>,
    pub max_tags: u8,
    pub max_tag_len: u8,
    pub max_intention_len: u8,
    pub max_details_len: u16,
    pub account_status: AccountStatus,
    pub signed_in_email: Seq<char>,
    pub last_synced_at: Option<u64>,
    pub account_error: Seq<char>,
    pub account_operation: AccountOperation,
    pub api_base_url: Seq<char>,
}

impl View for ViewModel {
    type V = ViewModelView;

    open spec fn view(&self) -> ViewModelView {
        ViewModelView {
            version: self.version@,
            has_prayers: self.has_prayers,
            prayers: prayers_view(self.prayers@),
            archived_prayers: prayers_view(self.archived_prayers@),
            today_prayers: today_view(self.today_prayers@),
            local_date: self.local_date,
            reminder_settings: self.reminder_settings,
            reminder_digests: digests_view(self.reminder_digests@),
            liturgical_day: self.liturgical_day,
            calendar_date: self.calendar_date,
            calendar_min_date: self.calendar_min_date,
            calendar_max_date: self.calendar_max_date,
            calendar_liturgical_day: self.calendar_liturgical_day,
            calendar_prayers: today_view(self.calendar_prayers@),
            max_tags: self.max_tags,
            max_tag_len: self.max_tag_len,
            max_intention_len: self.max_intention_len,
            max_details_len: self.max_details_len,
            account_status: self.account_status,
            signed_in_email: self.signed_in_email@,
            last_synced_at: self.last_synced_at,
            account_error: self.account_error@,
            account_operation: self.account_operation,
            api_base_url: self.api_base_url@,
        }
    }
}

/// The prayers of `s` with status `status`, in order.
pub open spec fn with_status(s: Seq<PrayerView>, status: PrayerStatus) -> Seq<PrayerView>
    decreases s.len(),
{
    if s.len() == 0 {
        s
    } else if s.last().status == status {
        with_status(s.drop_last(), status).push(s.last())
    } else {
        with_status(s.drop_last(), status)
    }
}

/// Active, scheduled intentions: the ones reminders are planned for.
pub open spec fn reminder_candidates(s: Seq<PrayerView>) -> Seq<PrayerView>
    decreases s.len(),
{
    if s.len() == 0 {
        s
    } else if s.last().status == PrayerStatus::Active && s.last().cadence
        != IntentionCadence::Unscheduled {
        reminder_candidates(s.drop_last()).push(s.last())
    } else {
        reminder_candidates(s.drop_last())
    }
}

/// The day list for `date`, each with whether it was prayed that day.
pub open spec fn day_entries(s: Seq<PrayerView>, date: CivilDate) -> Seq<TodayPrayerView> {
    day_list(s, date).map_values(
        |p: PrayerView| TodayPrayerView { prayer: p, prayed_today: logged_on(p.prayed_on, date) },
    )
}

/// The temporal-cycle day of `date`, for the dates the liturgical routines handle.
pub open spec fn liturgical_day_shown(date: CivilDate) -> Option<LiturgicalDay> {
    if date.is_valid() && is_liturgical_year(date.year as int) {
        Some(liturgical_day_of(date))
    } else {
        None
    }
}

/// What the shell renders for model `m`.
pub open spec fn view_of(m: ModelView) -> ViewModelView {
    ViewModelView {
        version: VERSION@,
        has_prayers: m.prayers.len() > 0,
        prayers: with_status(m.prayers, PrayerStatus::Active),
        archived_prayers: with_status(m.prayers, PrayerStatus::Archived),
        today_prayers: match m.local_now {
            Some(now) => day_entries(m.prayers, now.date),
            None => seq![],
        },
        local_date: match m.local_now {
            Some(now) => Some(now.date),
            None => None,
        },
        reminder_settings: m.reminder_settings,
        reminder_digests: match m.local_now {
            Some(now) => if m.reminder_settings.enabled {
                planned_digests(
                    reminder_candidates(m.prayers),
                    m.reminder_settings.hour,
                    m.reminder_settings.minute,
                    now,
                    DIGEST_HORIZON_DAYS as nat,
                )
            } else {
                seq![]
            },
            None => seq![],
        },
        liturgical_day: match m.local_now {
            Some(now) => liturgical_day_shown(now.date),
            None => None,
        },
        calendar_date: m.calendar_date,
        calendar_min_date: match m.local_now {
            Some(now) => Some(shift_years(now.date, -1)),
            None => None,
        },
        calendar_max_date: match m.local_now {
            Some(now) => Some(shift_years(now.date, 1)),
            None => None,
        },
        calendar_liturgical_day: match m.calendar_date {
            Some(date) => liturgical_day_shown(date),
            None => None,
        },
        calendar_prayers: match m.calendar_date {
            Some(date) => day_entries(m.prayers, date),
            None => seq![],
        },
        max_tags: MAX_TAGS as u8,
        max_tag_len: MAX_TAG_LEN as u8,
        max_intention_len: MAX_INTENTION_LEN as u8,
        max_details_len: MAX_DETAILS_LEN as u16,
        account_status: m.account_status,
        signed_in_email: match m.session {
            Some(session) => session.email,
            None => seq![],
        },
        last_synced_at: m.last_synced_at,
        account_error: match m.account_error {
            Some(e) => e,
            None => seq![],
        },
        account_operation: m.account_operation,
        api_base_url: API_BASE_URL@,
    }
}

fn prayers_with_status(prayers: &Vec<Prayer>, status: PrayerStatus) -> (r: Vec<Prayer>)
    ensures
        prayers_view(r@) == with_status(prayers_view(prayers@), status),
{
    let mut out: Vec<Prayer> = Vec::new();
    let mut i: usize = 0;
    while i < prayers.len()
        invariant
            0 <= i <= prayers@.len(),
            prayers_view(out@) == with_status(prayers_view(prayers@.take(i as int)), status),
        decreases prayers@.len() - i,
    {
        proof {
            assert(prayers_view(prayers@.take(i + 1)).drop_last() =~= prayers_view(
                prayers@.take(i as int),
            ));
            assert(prayers_view(prayers@.take(i + 1)).last() == prayers@[i as int]@);
        }
        if prayers[i].status == status {
            let ghost prev = out@;
            out.push(prayers[i].copy());
            proof {
                assert(prayers_view(out@) =~= prayers_view(prev).push(prayers@[i as int]@));
            }
        }
        i += 1;
    }
    assert(prayers@.take(prayers@.len() as int) =~= prayers@);
    out
}

fn scheduled_active(prayers: &Vec<Prayer>) -> (r: Vec<Prayer>)
    ensures
        prayers_view(r@) == reminder_candidates(prayers_view(prayers@)),
{
    let mut out: Vec<Prayer> = Vec::new();
    let mut i: usize = 0;
    while i < prayers.len()
        invariant
            0 <= i <= prayers@.len(),
            prayers_view(out@) == reminder_candidates(prayers_view(prayers@.take(i as int))),
        decreases prayers@.len() - i,
    {
        proof {
            assert(prayers_view(prayers@.take(i + 1)).drop_last() =~= prayers_view(
                prayers@.take(i as int),
            ));
            assert(prayers_view(prayers@.take(i + 1)).last() == prayers@[i as int]@);
        }
        if prayers[i].status == PrayerStatus::Active && prayers[i].cadence
            != IntentionCadence::Unscheduled {
            let ghost prev = out@;
            out.push(prayers[i].copy());
            proof {
                assert(prayers_view(out@) =~= prayers_view(prev).push(prayers@[i as int]@));
            }
        }
        i += 1;
    }
    assert(prayers@.take(prayers@.len() as int) =~= prayers@);
    out
}

/// The intentions due on `date` (never-prayed first, then least-recently-prayed),
/// each with whether it was prayed that day.
pub fn day_prayers(prayers: &Vec<Prayer>, date: CivilDate) -> (r: Vec<TodayPrayer>)
    requires
        weekday_in_range(date),
    ensures
        today_view(r@) == day_entries(prayers_view(prayers@), date),
{
    let selected = select_today(prayers, date);
    let mut out: Vec<TodayPrayer> = Vec::new();
    let mut i: usize = 0;
    while i < selected.len()
        invariant
            0 <= i <= selected@.len(),
            out@.len() == i,
            prayers_view(selected@) == day_list(prayers_view(prayers@), date),
            today_view(out@) == day_entries(prayers_view(prayers@), date).take(i as int),
        decreases selected@.len() - i,
    {
        let p = selected[i].copy();
        let prayed_today = prayed_on_date(&p.prayed_on, date);
        let ghost prev = out@;
        out.push(TodayPrayer { prayer: p, prayed_today });
        proof {
            let entries = day_entries(prayers_view(prayers@), date);
            assert(prayers_view(selected@)[i as int] == selected@[i as int]@);
            assert(entries[i as int] == TodayPrayerView { prayer: p@, prayed_today });
            assert(today_view(out@) =~= today_view(prev).push(entries[i as int]));
            assert(entries.take(i + 1) =~= entries.take(i as int).push(entries[i as int]));
        }
        i += 1;
    }
    assert(day_entries(prayers_view(prayers@), date).take(selected@.len() as int) =~= day_entries(
        prayers_view(prayers@),
        date,
    ));
    out
}

fn liturgical_day_if_handled(date: CivilDate) -> (r: Option<LiturgicalDay>)
    ensures
        r == liturgical_day_shown(date),
{
    let valid_month = 1 <= date.month && date.month <= 12;
    if valid_month && 1 <= date.day && date.day <= crate::reminder::days_in_month(
        date.year,
        date.month,
    ) && 1 <= date.year && date.year <= MAX_LITURGICAL_YEAR {
        Some(liturgical_day_for(date))
    } else {
        None
    }
}

fn copy_or_empty(s: &Option<String>) -> (r: String)
    ensures
        r@ == match opt_view(*s) {
            Some(t) => t,
            None => Seq::<char>::empty(),
        },
{
    match s {
        Some(t) => t.clone(),
        None => String::new(),
    }
}

fn digests_for(model: &Model) -> (r: Vec<crate::reminder::ReminderDigest>)
    requires
        model.wf(),
    ensures
        digests_view(r@) == match model.local_now {
            Some(now) => if model.reminder_settings.enabled {
                planned_digests(
                    reminder_candidates(prayers_view(model.prayers@)),
                    model.reminder_settings.hour,
                    model.reminder_settings.minute,
                    now,
                    DIGEST_HORIZON_DAYS as nat,
                )
            } else {
                seq![]
            },
            None => seq![],
        },
{
    match model.local_now {
        Some(now) => if model.reminder_settings.enabled {
            let candidates = scheduled_active(&model.prayers);
            proof {
                crate::reminder::lemma_plan_in_range(prayers_view(candidates@), now, DIGEST_HORIZON_DAYS);
            }
            plan_digests(
                &candidates,
                model.reminder_settings.hour,
                model.reminder_settings.minute,
                now,
                DIGEST_HORIZON_DAYS,
            )
        } else {
            let r = Vec::new();
            assert(digests_view(r@) =~= seq![]);
            r
        },
        None => {
            let r = Vec::new();
            assert(digests_view(r@) =~= seq![]);
            r
        },
    }
}

fn day_prayers_on(prayers: &Vec<Prayer>, date: Option<CivilDate>) -> (r: Vec<TodayPrayer>)
    requires
        date matches Some(d) ==> is_bounded_date(d),
    ensures
        today_view(r@) == match date {
            Some(d) => day_entries(prayers_view(prayers@), d),
            None => seq![],
        },
{
    match date {
        Some(d) => {
            proof {
                lemma_bounded_weekday(d);
            }
            day_prayers(prayers, d)
        },
        None => {
            let r = Vec::new();
            assert(today_view(r@) =~= seq![]);
            r
        },
    }
}

fn signed_in_email(model: &Model) -> (r: String)
    ensures
        r@ == match session_view(model.session) {
            Some(session) => session.email,
            None => seq![],
        },
{
    match &model.session {
        Some(session) => session.email.clone(),
        None => String::new(),
    }
}

impl Implore {
    /// What the shell renders for `model`.
    #[verifier::spinoff_prover]
    pub fn view(&self, model: &Model) -> (r: ViewModel)
        requires
            model.wf(),
        ensures
            r@ == view_of(model@),
    {
        let local_date = match model.local_now {
            Some(now) => Some(now.date),
            None => None,
        };
        let (calendar_min_date, calendar_max_date) = match model.local_now {
            Some(now) => {
                let (lo, hi) = calendar_range(now.date);
                (Some(lo), Some(hi))
            },
            None => (None, None),
        };
        ViewModel {
            version: VERSION.to_owned(),
            has_prayers: model.prayers.len() > 0,
            prayers: prayers_with_status(&model.prayers, PrayerStatus::Active),
            archived_prayers: prayers_with_status(&model.prayers, PrayerStatus::Archived),
            today_prayers: day_prayers_on(&model.prayers, local_date),
            local_date,
            reminder_settings: model.reminder_settings,
            reminder_digests: digests_for(model),
            liturgical_day: match local_date {
                Some(date) => liturgical_day_if_handled(date),
                None => None,
            },
            calendar_date: model.calendar_date,
            calendar_min_date,
            calendar_max_date,
            calendar_liturgical_day: match model.calendar_date {
                Some(date) => liturgical_day_if_handled(date),
                None => None,
            },
            calendar_prayers: day_prayers_on(&model.prayers, model.calendar_date),
            max_tags: MAX_TAGS as u8,
            max_tag_len: MAX_TAG_LEN as u8,
            max_intention_len: MAX_INTENTION_LEN as u8,
            max_details_len: MAX_DETAILS_LEN as u16,
            account_status: model.account_status,
            signed_in_email: signed_in_email(model),
            last_synced_at: model.last_synced_at,
            account_error: copy_or_empty(&model.account_error),
            account_operation: model.account_operation,
            api_base_url: API_BASE_URL.to_owned(),
        }
    }
}

} // verus!
