use implore::account::{AccountOperation, AccountStatus, AuthResponse, Session, API_BASE_URL};
use implore::app::{
    Effect, Event, HttpFailure, Implore, IntentionCadence, IntentionColor, Model, Prayer,
    PrayerStatus, ReminderSettings, StoredState, MAX_DETAILS_LEN, MAX_INTENTION_LEN, MAX_TAGS,
    MAX_TAG_LEN, VERSION,
};
use implore::liturgical::LiturgicalDay;
use implore::prayer_log::PrayerLogEntry;
use implore::reminder::CivilDate;

fn prayer(
    id: u64,
    intention: &str,
    details: Option<&str>,
    tags: &[&str],
    status: PrayerStatus,
) -> Prayer {
    Prayer {
        id,
        intention: intention.into(),
        details: details.map(str::to_string),
        tags: tags.iter().map(|tag| (*tag).into()).collect(),
        status,
        cadence: IntentionCadence::Unscheduled,
        saint_id: None,
        color: IntentionColor::Unset,
        novena_start: None,
        prayed_on: Vec::new(),
    }
}

fn add(app: &Implore, model: &mut Model, intention: &str, details: &str, tags: &[&str]) -> Vec<Effect> {
    add_with_cadence(app, model, intention, details, tags, IntentionCadence::Unscheduled)
}

fn add_with_cadence(
    app: &Implore,
    model: &mut Model,
    intention: &str,
    details: &str,
    tags: &[&str],
    cadence: IntentionCadence,
) -> Vec<Effect> {
    app.update(
        Event::AddPrayer {
            intention: intention.into(),
            details: details.into(),
            tags: tags.iter().map(|tag| (*tag).into()).collect(),
            cadence,
            saint_id: String::new(),
            color: IntentionColor::Unset,
            novena_start: None,
        },
        model,
    )
}

fn sync_time(app: &Implore, model: &mut Model, day: u8, hour: u8) -> Vec<Effect> {
    app.update(
        Event::SyncLocalTime {
            year: 2026,
            month: 8,
            day,
            hour,
            minute: 0,
            unix_seconds: 1_700_000_000,
        },
        model,
    )
}

fn date(year: i32, month: u32, day: u32) -> CivilDate {
    CivilDate { year, month, day }
}

/// The state written by the last effect list, which must be `[Render, PersistState(..)]`.
fn persisted(effects: Vec<Effect>) -> StoredState {
    assert_eq!(effects.len(), 2);
    assert_eq!(effects[0], Effect::Render);
    match effects.into_iter().nth(1) {
        Some(Effect::PersistState(stored)) => stored,
        other => panic!("expected KeyValue set effect, got {:?}", other),
    }
}

fn signed_in_session(last_synced_at: Option<u64>) -> Session {
    Session {
        user_id: "u1".into(),
        token: "tok".into(),
        email: "me@example.com".into(),
        last_synced_at,
    }
}

#[test]
fn restore_requests_get() {
    let app = Implore;
    let mut model = Model::default();

    let effects = app.update(Event::Restore, &mut model);
    assert_eq!(effects.len(), 2);
    assert!(effects.contains(&Effect::LoadPrayers));
    assert!(effects.contains(&Effect::LoadSession));
}

#[test]
fn loads_persisted_prayers() {
    let app = Implore;
    let mut model = Model::default();

    let stored = StoredState {
        prayers: vec![prayer(3, "Mom", None, &[], PrayerStatus::Active)],
        next_id: 4,
        reminder_settings: ReminderSettings::default(),
        updated_at: 0,
    };

    let effects = app.update(Event::PrayersLoaded(Some(stored)), &mut model);
    assert_eq!(effects, vec![Effect::Render]);

    assert_eq!(model.next_id, 4);
    assert_eq!(
        app.view(&model).prayers,
        vec![prayer(3, "Mom", None, &[], PrayerStatus::Active)]
    );
}

#[test]
fn loads_empty_when_missing() {
    let app = Implore;
    let mut model = Model::default();

    let effects = app.update(Event::PrayersLoaded(None), &mut model);
    assert_eq!(effects, vec![Effect::Render]);

    assert!(app.view(&model).prayers.is_empty());
    assert_eq!(model.next_id, 0);
}

#[test]
fn renders() {
    let app = Implore;
    let mut model = Model::default();
    let effects = add(&app, &mut model, "Mom", "", &[]);
    assert_eq!(effects.len(), 2);
}

#[test]
fn shows_empty_list_initially() {
    let app = Implore;
    let model = Model::default();

    assert!(app.view(&model).prayers.is_empty());
    assert_eq!(app.view(&model).version, VERSION);
}

#[test]
fn adds_prayer_with_optional_fields() {
    let app = Implore;
    let mut model = Model::default();

    let effects = add(&app, &mut model, "Mom", "Surgery recovery", &["family", "health"]);
    assert_eq!(effects.len(), 2);

    assert_eq!(
        app.view(&model).prayers,
        vec![prayer(
            0,
            "Mom",
            Some("Surgery recovery"),
            &["family", "health"],
            PrayerStatus::Active,
        )]
    );
}

#[test]
fn adds_prayer_without_optional_fields() {
    let app = Implore;
    let mut model = Model::default();

    let effects = add(&app, &mut model, "Mom", "", &[]);
    assert_eq!(effects.len(), 2);

    assert_eq!(
        app.view(&model).prayers,
        vec![prayer(0, "Mom", None, &[], PrayerStatus::Active)]
    );
}

#[test]
fn ignores_empty_or_whitespace_intention() {
    let app = Implore;
    let mut model = Model::default();

    assert_eq!(add(&app, &mut model, "   ", "note", &["tag"]), vec![Effect::Render]);
    assert_eq!(add(&app, &mut model, "", "", &[]), vec![Effect::Render]);

    assert!(app.view(&model).prayers.is_empty());
}

#[test]
fn trims_fields_and_drops_empty_tags() {
    let app = Implore;
    let mut model = Model::default();

    let effects = add(
        &app,
        &mut model,
        "  Dad  ",
        "  recovery  ",
        &["  family  ", "  ", "health"],
    );
    assert_eq!(effects.len(), 2);

    assert_eq!(
        app.view(&model).prayers,
        vec![prayer(
            0,
            "Dad",
            Some("recovery"),
            &["family", "health"],
            PrayerStatus::Active,
        )]
    );
}

#[test]
fn caps_tag_count_and_length() {
    let app = Implore;
    let mut model = Model::default();
    let long = "a".repeat(40);
    let tags = [
        long.as_str(),
        "t1",
        "t2",
        "t3",
        "t4",
        "t5",
        "t6",
        "t7",
        "t8",
        "t9",
        "t10",
        "t11",
    ];

    let _ = add(&app, &mut model, "Mom", "", &tags);

    let saved = &app.view(&model).prayers[0].tags;
    assert_eq!(saved.len(), MAX_TAGS);
    assert_eq!(saved[0].chars().count(), MAX_TAG_LEN);
    assert_eq!(saved[1], "t1");
    assert_eq!(saved.last().unwrap(), "t7");

    let view = app.view(&model);
    assert_eq!(view.max_tags as usize, MAX_TAGS);
    assert_eq!(view.max_tag_len as usize, MAX_TAG_LEN);
}

#[test]
fn caps_intention_and_details_length() {
    let app = Implore;
    let mut model = Model::default();
    let long_intention = "i".repeat(MAX_INTENTION_LEN + 20);
    let long_details = "d".repeat(MAX_DETAILS_LEN + 100);

    let _ = add(
        &app,
        &mut model,
        format!("  {long_intention}  ").as_str(),
        long_details.as_str(),
        &[],
    );

    let saved = &app.view(&model).prayers[0];
    assert_eq!(saved.intention.chars().count(), MAX_INTENTION_LEN);
    assert_eq!(saved.details.as_ref().unwrap().chars().count(), MAX_DETAILS_LEN);

    let view = app.view(&model);
    assert_eq!(view.max_intention_len as usize, MAX_INTENTION_LEN);
    assert_eq!(view.max_details_len as usize, MAX_DETAILS_LEN);
}

#[test]
fn removes_prayer_by_id() {
    let app = Implore;
    let mut model = Model::default();

    let _ = add(&app, &mut model, "Mom", "", &[]);
    let _ = add(&app, &mut model, "Dad", "", &[]);

    let effects = app.update(Event::RemovePrayer { id: 0 }, &mut model);
    assert_eq!(effects.len(), 2);

    assert_eq!(
        app.view(&model).prayers,
        vec![prayer(1, "Dad", None, &[], PrayerStatus::Active)]
    );
}

#[test]
fn remove_unknown_id_is_noop() {
    let app = Implore;
    let mut model = Model::default();

    let _ = add(&app, &mut model, "Mom", "", &[]);

    let effects = app.update(Event::RemovePrayer { id: 99 }, &mut model);
    assert_eq!(effects, vec![Effect::Render]);

    assert_eq!(
        app.view(&model).prayers,
        vec![prayer(0, "Mom", None, &[], PrayerStatus::Active)]
    );
}

#[test]
fn removes_all_prayers_and_persists() {
    let app = Implore;
    let mut model = Model::default();

    let _ = add(&app, &mut model, "Mom", "", &[]);
    let _ = add(&app, &mut model, "Dad", "", &[]);
    let _ = app.update(Event::ArchivePrayer { id: 0 }, &mut model);

    assert!(app.view(&model).has_prayers);

    let stored = persisted(app.update(Event::RemoveAllPrayers, &mut model));
    assert!(stored.prayers.is_empty());
    assert_eq!(stored.next_id, 2);

    let view = app.view(&model);
    assert!(!view.has_prayers);
    assert!(view.prayers.is_empty());
    assert_eq!(model.next_id, 2);
}

#[test]
fn remove_all_prayers_when_empty_is_noop() {
    let app = Implore;
    let mut model = Model::default();

    let effects = app.update(Event::RemoveAllPrayers, &mut model);
    assert_eq!(effects, vec![Effect::Render]);
    assert!(!app.view(&model).has_prayers);
}

#[test]
fn archives_prayer_and_hides_from_active_list() {
    let app = Implore;
    let mut model = Model::default();

    let _ = add(&app, &mut model, "Mom", "", &[]);
    let _ = add(&app, &mut model, "Dad", "", &[]);

    let effects = app.update(Event::ArchivePrayer { id: 0 }, &mut model);
    assert_eq!(effects.len(), 2);

    assert_eq!(
        app.view(&model).prayers,
        vec![prayer(1, "Dad", None, &[], PrayerStatus::Active)]
    );
    assert_eq!(
        app.view(&model).archived_prayers,
        vec![prayer(0, "Mom", None, &[], PrayerStatus::Archived)]
    );
    assert_eq!(model.prayers[0].status, PrayerStatus::Archived);
}

#[test]
fn active_and_archived_lists_are_separate() {
    let app = Implore;
    let mut model = Model::default();

    let _ = add(&app, &mut model, "Mom", "", &[]);
    let _ = add(&app, &mut model, "Dad", "", &[]);
    let _ = app.update(Event::ArchivePrayer { id: 0 }, &mut model);

    let view = app.view(&model);
    assert_eq!(view.prayers, vec![prayer(1, "Dad", None, &[], PrayerStatus::Active)]);
    assert_eq!(
        view.archived_prayers,
        vec![prayer(0, "Mom", None, &[], PrayerStatus::Archived)]
    );
}

#[test]
fn unarchives_prayer() {
    let app = Implore;
    let mut model = Model::default();

    let _ = add(&app, &mut model, "Mom", "", &[]);
    let _ = app.update(Event::ArchivePrayer { id: 0 }, &mut model);
    assert!(app.view(&model).prayers.is_empty());

    let effects = app.update(Event::UnarchivePrayer { id: 0 }, &mut model);
    assert_eq!(effects.len(), 2);

    assert_eq!(
        app.view(&model).prayers,
        vec![prayer(0, "Mom", None, &[], PrayerStatus::Active)]
    );
}

#[test]
fn persists_json_blob_with_next_id() {
    let app = Implore;
    let mut model = Model::default();

    let stored = persisted(add(&app, &mut model, "Mom", "", &["family"]));
    assert_eq!(stored.next_id, 1);
    assert_eq!(stored.prayers[0].intention, "Mom");
    assert_eq!(stored.prayers[0].tags, vec!["family".to_string()]);
    assert_eq!(stored.prayers[0].status, PrayerStatus::Active);
    assert_eq!(stored.prayers[0].cadence, IntentionCadence::Unscheduled);
    assert!(!stored.reminder_settings.enabled);
}

#[test]
fn set_reminder_settings_persists_and_plans_digests() {
    let app = Implore;
    let mut model = Model::default();

    let _ = add_with_cadence(&app, &mut model, "Mom", "", &[], IntentionCadence::Daily);
    let _ = sync_time(&app, &mut model, 12, 7);
    let _ = app.update(
        Event::SetReminderSettings {
            enabled: true,
            hour: 8,
            minute: 0,
        },
        &mut model,
    );

    let view = app.view(&model);
    assert!(view.reminder_settings.enabled);
    assert!(!view.reminder_digests.is_empty());
    assert_eq!(view.reminder_digests[0].intentions, vec!["Mom".to_string()]);
}

#[test]
fn reminder_digests_omit_intentions_already_prayed_that_day() {
    let app = Implore;
    let mut model = Model::default();

    let _ = add_with_cadence(&app, &mut model, "Mom", "", &[], IntentionCadence::Daily);
    let _ = add_with_cadence(&app, &mut model, "Dad", "", &[], IntentionCadence::Daily);
    let _ = sync_time(&app, &mut model, 12, 7);
    let _ = app.update(
        Event::SetReminderSettings {
            enabled: true,
            hour: 8,
            minute: 0,
        },
        &mut model,
    );
    let _ = app.update(Event::LogPrayer { id: 0 }, &mut model);

    let view = app.view(&model);
    assert_eq!(view.reminder_digests[0].day, 12);
    assert_eq!(view.reminder_digests[0].intentions, vec!["Dad".to_string()]);
    assert!(view
        .reminder_digests
        .iter()
        .skip(1)
        .all(|digest| digest.intentions == ["Mom", "Dad"]));
}

#[test]
fn reminder_digests_skip_unscheduled_and_archived() {
    let app = Implore;
    let mut model = Model::default();

    let _ = add_with_cadence(&app, &mut model, "Mom", "", &[], IntentionCadence::Daily);
    let _ = add_with_cadence(&app, &mut model, "Dad", "", &[], IntentionCadence::Unscheduled);
    let _ = add_with_cadence(&app, &mut model, "Parish", "", &[], IntentionCadence::Weekly);
    let _ = app.update(Event::ArchivePrayer { id: 2 }, &mut model);
    let _ = sync_time(&app, &mut model, 16, 7);
    let _ = app.update(
        Event::SetReminderSettings {
            enabled: true,
            hour: 8,
            minute: 0,
        },
        &mut model,
    );

    let view = app.view(&model);
    assert_eq!(view.prayers.len(), 2);
    assert_eq!(view.archived_prayers.len(), 1);
    assert!(view
        .reminder_digests
        .iter()
        .all(|digest| digest.intentions == ["Mom"]));
}

#[test]
fn adds_and_persists_daily_and_monthly_cadence() {
    let app = Implore;
    let mut model = Model::default();

    let stored = persisted(add_with_cadence(
        &app,
        &mut model,
        "Mom",
        "",
        &[],
        IntentionCadence::Daily,
    ));
    assert_eq!(stored.prayers[0].cadence, IntentionCadence::Daily);

    assert_eq!(app.view(&model).prayers[0].cadence, IntentionCadence::Daily);

    let stored = persisted(add_with_cadence(
        &app,
        &mut model,
        "Dad",
        "",
        &[],
        IntentionCadence::Monthly,
    ));
    assert_eq!(stored.prayers[1].cadence, IntentionCadence::Monthly);
}

#[test]
fn adds_and_persists_novena_with_start() {
    let app = Implore;
    let mut model = Model::default();
    let start = date(2026, 8, 12);

    let stored = persisted(app.update(
        Event::AddPrayer {
            intention: "Peace".into(),
            details: String::new(),
            tags: vec![],
            cadence: IntentionCadence::Novena,
            saint_id: String::new(),
            color: IntentionColor::Unset,
            novena_start: Some(start),
        },
        &mut model,
    ));
    assert_eq!(stored.prayers[0].cadence, IntentionCadence::Novena);
    assert_eq!(stored.prayers[0].novena_start, Some(start));

    assert_eq!(app.view(&model).prayers[0].novena_start, Some(start));
}

#[test]
fn clearing_novena_cadence_clears_start() {
    let app = Implore;
    let mut model = Model::default();
    let start = date(2026, 8, 12);

    let _ = app.update(
        Event::AddPrayer {
            intention: "Peace".into(),
            details: String::new(),
            tags: vec![],
            cadence: IntentionCadence::Novena,
            saint_id: String::new(),
            color: IntentionColor::Unset,
            novena_start: Some(start),
        },
        &mut model,
    );

    let stored = persisted(app.update(
        Event::UpdatePrayer {
            id: 0,
            intention: "Peace".into(),
            details: String::new(),
            tags: vec![],
            cadence: IntentionCadence::Daily,
            saint_id: String::new(),
            color: IntentionColor::Unset,
            novena_start: Some(start),
        },
        &mut model,
    ));
    assert_eq!(stored.prayers[0].cadence, IntentionCadence::Daily);
    assert_eq!(stored.prayers[0].novena_start, None);
}

#[test]
fn updates_prayer_fields_and_cadence() {
    let app = Implore;
    let mut model = Model::default();
    let _ = add(&app, &mut model, "Mom", "", &["family"]);

    let stored = persisted(app.update(
        Event::UpdatePrayer {
            id: 0,
            intention: "  Dad  ".into(),
            details: "  recovery  ".into(),
            tags: vec!["  health  ".into(), "  ".into()],
            cadence: IntentionCadence::Weekly,
            saint_id: "st-joseph".into(),
            color: IntentionColor::Sage,
            novena_start: None,
        },
        &mut model,
    ));
    assert_eq!(stored.prayers[0].intention, "Dad");
    assert_eq!(stored.prayers[0].details.as_deref(), Some("recovery"));
    assert_eq!(stored.prayers[0].tags, vec!["health".to_string()]);
    assert_eq!(stored.prayers[0].cadence, IntentionCadence::Weekly);
    assert_eq!(stored.prayers[0].status, PrayerStatus::Active);
    assert_eq!(stored.prayers[0].saint_id.as_deref(), Some("st-joseph"));
    assert_eq!(stored.prayers[0].color, IntentionColor::Sage);
    assert_eq!(stored.prayers[0].novena_start, None);

    assert_eq!(
        app.view(&model).prayers[0],
        Prayer {
            id: 0,
            intention: "Dad".into(),
            details: Some("recovery".into()),
            tags: vec!["health".into()],
            status: PrayerStatus::Active,
            cadence: IntentionCadence::Weekly,
            saint_id: Some("st-joseph".into()),
            color: IntentionColor::Sage,
            novena_start: None,
            prayed_on: Vec::new(),
        }
    );
}

#[test]
fn log_prayer_persists_and_allows_multiple_entries_same_day() {
    let app = Implore;
    let mut model = Model::default();

    let _ = add(&app, &mut model, "Mom", "", &[]);
    let _ = sync_time(&app, &mut model, 12, 9);

    let stored = persisted(app.update(Event::LogPrayer { id: 0 }, &mut model));
    assert_eq!(stored.prayers[0].prayed_on.len(), 1);
    assert_eq!(
        stored.prayers[0].prayed_on[0],
        PrayerLogEntry {
            year: 2026,
            month: 8,
            day: 12,
            hour: 9,
            minute: 0,
        }
    );

    let stored = persisted(app.update(Event::LogPrayer { id: 0 }, &mut model));
    assert_eq!(stored.prayers[0].prayed_on.len(), 2);

    assert_eq!(app.view(&model).prayers[0].prayed_on.len(), 2);
}

#[test]
fn remove_prayer_log_entry_removes_one() {
    let app = Implore;
    let mut model = Model::default();

    let _ = add(&app, &mut model, "Mom", "", &[]);
    let _ = sync_time(&app, &mut model, 12, 9);
    let _ = app.update(Event::LogPrayer { id: 0 }, &mut model);
    let _ = app.update(Event::LogPrayer { id: 0 }, &mut model);
    assert_eq!(app.view(&model).prayers[0].prayed_on.len(), 2);

    let stored = persisted(app.update(Event::RemovePrayerLogEntry { id: 0, index: 0 }, &mut model));
    assert_eq!(stored.prayers[0].prayed_on.len(), 1);
}

#[test]
fn log_prayer_ignored_for_archived_or_without_local_time() {
    let app = Implore;
    let mut model = Model::default();

    let _ = add(&app, &mut model, "Mom", "", &[]);
    let _ = app.update(Event::ArchivePrayer { id: 0 }, &mut model);

    assert_eq!(app.update(Event::LogPrayer { id: 0 }, &mut model), vec![Effect::Render]);

    let _ = app.update(Event::UnarchivePrayer { id: 0 }, &mut model);
    assert_eq!(app.update(Event::LogPrayer { id: 0 }, &mut model), vec![Effect::Render]);
    assert!(app.view(&model).prayers[0].prayed_on.is_empty());
}

#[test]
fn update_empty_intention_or_unknown_id_is_noop() {
    let app = Implore;
    let mut model = Model::default();
    let _ = add(&app, &mut model, "Mom", "", &[]);

    let effects = app.update(
        Event::UpdatePrayer {
            id: 0,
            intention: "   ".into(),
            details: "note".into(),
            tags: vec![],
            cadence: IntentionCadence::Daily,
            saint_id: String::new(),
            color: IntentionColor::Sky,
            novena_start: None,
        },
        &mut model,
    );
    assert_eq!(effects, vec![Effect::Render]);

    let effects = app.update(
        Event::UpdatePrayer {
            id: 99,
            intention: "Dad".into(),
            details: String::new(),
            tags: vec![],
            cadence: IntentionCadence::Daily,
            saint_id: String::new(),
            color: IntentionColor::Sky,
            novena_start: None,
        },
        &mut model,
    );
    assert_eq!(effects, vec![Effect::Render]);

    assert_eq!(
        app.view(&model).prayers,
        vec![prayer(0, "Mom", None, &[], PrayerStatus::Active)]
    );
}

#[test]
fn liturgical_day_follows_synced_local_date() {
    let app = Implore;
    let mut model = Model::default();
    assert_eq!(app.view(&model).liturgical_day, None);

    assert_eq!(sync_time(&app, &mut model, 13, 8), vec![Effect::Render]);

    assert_eq!(
        app.view(&model).liturgical_day,
        Some(LiturgicalDay::OrdinaryTime {
            week: 19,
            weekday: 5
        })
    );
}

#[test]
fn sync_local_time_defaults_calendar_date_to_today() {
    let app = Implore;
    let mut model = Model::default();

    assert_eq!(sync_time(&app, &mut model, 15, 8), vec![Effect::Render]);

    let view = app.view(&model);
    assert_eq!(view.calendar_date, Some(date(2026, 8, 15)));
    assert_eq!(view.calendar_min_date, Some(date(2025, 8, 15)));
    assert_eq!(view.calendar_max_date, Some(date(2027, 8, 15)));
    assert_eq!(view.calendar_liturgical_day, view.liturgical_day);
}

#[test]
fn select_calendar_date_clamps_and_lists_due() {
    let app = Implore;
    let mut model = Model::default();

    let _ = add_with_cadence(&app, &mut model, "Mom", "", &[], IntentionCadence::Daily);
    let _ = add_with_cadence(&app, &mut model, "Parish", "", &[], IntentionCadence::Weekly);

    assert_eq!(sync_time(&app, &mut model, 15, 8), vec![Effect::Render]);

    // Sunday: both daily and weekly due
    let effects = app.update(
        Event::SelectCalendarDate {
            year: 2026,
            month: 8,
            day: 16,
        },
        &mut model,
    );
    assert_eq!(effects, vec![Effect::Render]);

    let view = app.view(&model);
    assert_eq!(view.calendar_date, Some(date(2026, 8, 16)));
    assert_eq!(view.calendar_prayers.len(), 2);

    // Far past clamps to min
    let effects = app.update(
        Event::SelectCalendarDate {
            year: 2020,
            month: 1,
            day: 1,
        },
        &mut model,
    );
    assert_eq!(effects, vec![Effect::Render]);
    assert_eq!(app.view(&model).calendar_date, Some(date(2025, 8, 15)));
}

#[test]
fn today_prayers_empty_until_local_time_then_due_only() {
    let app = Implore;
    let mut model = Model::default();

    let _ = add_with_cadence(&app, &mut model, "Mom", "", &[], IntentionCadence::Daily);
    let _ = add_with_cadence(&app, &mut model, "Parish", "", &[], IntentionCadence::Weekly);
    let _ = add(&app, &mut model, "Dad", "", &[]);

    assert!(app.view(&model).today_prayers.is_empty());

    assert_eq!(sync_time(&app, &mut model, 12, 8), vec![Effect::Render]);

    let today = app.view(&model).today_prayers;
    assert_eq!(today.len(), 1);
    assert_eq!(today[0].prayer.intention, "Mom");
    assert!(!today[0].prayed_today);
    assert_eq!(app.view(&model).local_date, Some(date(2026, 8, 12)));
}

#[test]
fn today_prayers_marks_prayed_today_from_local_date() {
    let app = Implore;
    let mut model = Model::default();

    let _ = add_with_cadence(&app, &mut model, "Mom", "", &[], IntentionCadence::Daily);

    assert_eq!(sync_time(&app, &mut model, 12, 8), vec![Effect::Render]);

    let stored = persisted(app.update(Event::LogPrayer { id: 0 }, &mut model));
    assert_eq!(stored.prayers[0].prayed_on.len(), 1);

    let today = app.view(&model).today_prayers;
    assert_eq!(today.len(), 1);
    assert!(today[0].prayed_today);
}

#[test]
fn sign_in_requests_auth_http() {
    let app = Implore;
    let mut model = Model::default();

    let effects = app.update(
        Event::SignIn {
            email: "  Me@Example.com ".into(),
            password: "secret".into(),
        },
        &mut model,
    );
    assert_eq!(effects.len(), 2);
    assert_eq!(effects[0], Effect::Render);
    match &effects[1] {
        Effect::Authenticate { url, request } => {
            assert_eq!(*url, format!("{API_BASE_URL}/auth/sign-in"));
            assert_eq!(request.email, "me@example.com");
            assert_eq!(request.password, "secret");
        }
        other => panic!("expected auth request, got {:?}", other),
    }

    assert_eq!(model.account_status, AccountStatus::SigningIn);
}

#[test]
fn sign_up_requests_auth_http() {
    let app = Implore;
    let mut model = Model::default();

    let effects = app.update(
        Event::SignUp {
            email: "  Me@Example.com ".into(),
            password: "secret12".into(),
        },
        &mut model,
    );
    assert_eq!(effects.len(), 2);
    assert_eq!(effects[0], Effect::Render);
    match &effects[1] {
        Effect::Authenticate { url, request } => {
            assert_eq!(*url, format!("{API_BASE_URL}/auth/sign-up"));
            assert_eq!(request.email, "me@example.com");
            assert_eq!(request.password, "secret12");
        }
        other => panic!("expected auth request, got {:?}", other),
    }

    assert_eq!(model.account_status, AccountStatus::SigningIn);
}

#[test]
fn auth_completed_stores_session() {
    let app = Implore;
    let mut model = Model::default();
    model.account_status = AccountStatus::SigningIn;

    let response = AuthResponse {
        user_id: "u1".into(),
        token: "tok".into(),
    };

    let effects = app.update(
        Event::AuthCompleted {
            email: "me@example.com".into(),
            result: Ok(Some(response)),
        },
        &mut model,
    );
    assert_eq!(effects.len(), 2);
    assert_eq!(effects[0], Effect::Render);
    match &effects[1] {
        Effect::PersistSession(session) => {
            assert_eq!(session.email, "me@example.com");
            assert_eq!(session.token, "tok");
        }
        other => panic!("expected session set, got {:?}", other),
    }

    assert_eq!(model.account_status, AccountStatus::SignedIn);
    assert_eq!(app.view(&model).signed_in_email, "me@example.com");
}

#[test]
fn sign_out_clears_session() {
    let app = Implore;
    let mut model = Model::default();
    model.session = Some(signed_in_session(None));
    model.account_status = AccountStatus::SignedIn;
    model.last_synced_at = Some(99);

    let effects = app.update(Event::SignOut, &mut model);
    assert_eq!(
        effects,
        vec![
            Effect::Render,
            Effect::DeleteSession,
            Effect::RevokeSession {
                url: format!("{API_BASE_URL}/auth/sign-out"),
                authorization: "Bearer tok".into(),
            },
        ]
    );

    assert!(model.session.is_none());
    assert_eq!(model.account_status, AccountStatus::SignedOut);
    assert!(model.last_synced_at.is_none());
    assert!(app.view(&model).signed_in_email.is_empty());
}

#[test]
fn sign_up_rejects_short_password() {
    let app = Implore;
    let mut model = Model::default();

    let effects = app.update(
        Event::SignUp {
            email: "me@example.com".into(),
            password: "short".into(),
        },
        &mut model,
    );
    assert_eq!(effects, vec![Effect::Render]);

    assert_eq!(model.account_status, AccountStatus::Error);
    assert_eq!(
        model.account_error.as_deref(),
        Some("Password must be at least 8 characters")
    );
    assert_eq!(model.account_operation, AccountOperation::SignUp);
}

#[test]
fn sign_up_rejects_invalid_email() {
    let app = Implore;
    let mut model = Model::default();

    let effects = app.update(
        Event::SignUp {
            email: "not-an-email".into(),
            password: "secret12".into(),
        },
        &mut model,
    );
    assert_eq!(effects, vec![Effect::Render]);

    assert_eq!(model.account_status, AccountStatus::Error);
    assert_eq!(model.account_error.as_deref(), Some("Enter a valid email address"));
    assert_eq!(model.account_operation, AccountOperation::SignUp);
}

#[test]
fn dismiss_account_error_returns_to_signed_out() {
    let app = Implore;
    let mut model = Model::default();
    model.account_status = AccountStatus::Error;
    model.account_operation = AccountOperation::SignUp;
    model.account_error = Some("An account with this email already exists".into());

    let effects = app.update(Event::DismissAccountError, &mut model);
    assert_eq!(effects, vec![Effect::Render]);

    assert_eq!(model.account_status, AccountStatus::SignedOut);
    assert_eq!(model.account_operation, AccountOperation::Idle);
    assert!(model.account_error.is_none());
    assert!(app.view(&model).account_error.is_empty());
}

#[test]
fn auth_completed_ignored_when_not_signing_in() {
    let app = Implore;
    let mut model = Model::default();
    model.account_status = AccountStatus::SignedOut;

    let response = AuthResponse {
        user_id: "u1".into(),
        token: "tok".into(),
    };

    let effects = app.update(
        Event::AuthCompleted {
            email: "me@example.com".into(),
            result: Ok(Some(response)),
        },
        &mut model,
    );
    assert!(effects.is_empty());

    assert!(model.session.is_none());
    assert_eq!(model.account_status, AccountStatus::SignedOut);
}

#[test]
fn busy_auth_is_ignored() {
    let app = Implore;
    let mut model = Model::default();
    model.account_status = AccountStatus::SigningIn;

    let effects = app.update(
        Event::SignIn {
            email: "other@example.com".into(),
            password: "secret12".into(),
        },
        &mut model,
    );
    assert!(effects.is_empty());

    assert_eq!(model.account_status, AccountStatus::SigningIn);
}

#[test]
fn sync_401_expires_session() {
    let app = Implore;
    let mut model = Model::default();
    model.session = Some(signed_in_session(Some(9)));
    model.account_status = AccountStatus::Syncing;
    model.last_synced_at = Some(9);

    let failure = HttpFailure {
        code: Some(401),
        body: Some(Vec::new()),
    };
    let effects = app.update(Event::SyncGetCompleted(Err(failure)), &mut model);
    assert_eq!(effects, vec![Effect::Render, Effect::DeleteSession]);

    assert!(model.session.is_none());
    assert!(model.last_synced_at.is_none());
    assert_eq!(model.account_status, AccountStatus::Error);
    assert_eq!(
        model.account_error.as_deref(),
        Some("Session expired. Sign in again.")
    );
    assert_eq!(model.account_operation, AccountOperation::SignIn);
}

#[test]
fn session_loaded_restores_last_synced() {
    let app = Implore;
    let mut model = Model::default();

    let effects = app.update(Event::SessionLoaded(Some(signed_in_session(Some(42)))), &mut model);
    assert_eq!(effects, vec![Effect::Render]);

    assert_eq!(model.account_status, AccountStatus::SignedIn);
    assert_eq!(app.view(&model).signed_in_email, "me@example.com");
    assert_eq!(model.last_synced_at, Some(42));
}

#[test]
fn sync_pull_wins_when_remote_newer() {
    let app = Implore;
    let mut model = Model::default();
    model.session = Some(signed_in_session(None));
    model.account_status = AccountStatus::Syncing;
    model.updated_at = 10;
    model.unix_seconds = Some(50);
    model.prayers = vec![prayer(1, "Local", None, &[], PrayerStatus::Active)];
    model.next_id = 2;

    let remote = StoredState {
        prayers: vec![prayer(7, "Remote", None, &[], PrayerStatus::Active)],
        next_id: 8,
        reminder_settings: ReminderSettings::default(),
        updated_at: 20,
    };

    let effects = app.update(Event::SyncGetCompleted(Ok(Some(remote))), &mut model);
    assert_eq!(effects.len(), 3);
    assert_eq!(effects[0], Effect::Render);
    match &effects[1] {
        Effect::PersistState(stored) => {
            assert_eq!(stored.updated_at, 20);
            assert_eq!(stored.prayers[0].intention, "Remote");
        }
        other => panic!("expected prayers set, got {:?}", other),
    }
    match &effects[2] {
        Effect::PersistSession(session) => {
            assert_eq!(session.last_synced_at, Some(50));
        }
        other => panic!("expected session set, got {:?}", other),
    }

    assert_eq!(model.updated_at, 20);
    assert_eq!(app.view(&model).prayers[0].intention, "Remote");
    assert_eq!(model.last_synced_at, Some(50));
    assert_eq!(model.account_status, AccountStatus::SignedIn);
}

#[test]
fn sync_pushes_when_local_newer() {
    let app = Implore;
    let mut model = Model::default();
    model.session = Some(signed_in_session(None));
    model.account_status = AccountStatus::Syncing;
    model.updated_at = 30;
    model.unix_seconds = Some(40);
    model.prayers = vec![prayer(1, "Local", None, &[], PrayerStatus::Active)];
    model.next_id = 2;

    let remote = StoredState {
        prayers: vec![prayer(7, "Remote", None, &[], PrayerStatus::Active)],
        next_id: 8,
        reminder_settings: ReminderSettings::default(),
        updated_at: 10,
    };

    let effects = app.update(Event::SyncGetCompleted(Ok(Some(remote))), &mut model);
    let push = effects
        .iter()
        .find(|effect| matches!(effect, Effect::PushSync { .. }))
        .expect("expected a PUT of the sync document");
    match push {
        Effect::PushSync {
            url,
            authorization,
            body,
        } => {
            assert_eq!(*url, format!("{API_BASE_URL}/sync"));
            assert_eq!(authorization, "Bearer tok");
            assert_eq!(body.updated_at, 40);
            assert_eq!(body.prayers[0].intention, "Local");
        }
        _ => unreachable!(),
    }
}
