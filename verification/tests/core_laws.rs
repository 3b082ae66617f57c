use implore::account::{AccountStatus, Session};
use implore::app::{
    Effect, Event, Implore, IntentionCadence, IntentionColor, Model, PrayerStatus, StoredState,
};

fn add(app: &Implore, model: &mut Model, intention: &str) -> Vec<Effect> {
    app.update(
        Event::AddPrayer {
            intention: intention.into(),
            details: String::new(),
            tags: vec!["  a  ".into(), "".into()],
            cadence: IntentionCadence::Daily,
            saint_id: String::new(),
            color: IntentionColor::Rose,
            novena_start: None,
        },
        model,
    )
}

fn last_persisted(effects: &[Effect]) -> Option<StoredState> {
    effects.iter().rev().find_map(|e| match e {
        Effect::PersistState(s) => Some(s.clone()),
        _ => None,
    })
}

#[test]
fn persisted_state_reloads_into_a_fresh_model() {
    let app = Implore;
    let mut model = Model::default();
    let _ = add(&app, &mut model, "Mom");
    let effects = add(&app, &mut model, "Dad");
    let stored = last_persisted(&effects).expect("a persisted state");

    assert_eq!(stored.prayers, model.prayers);
    assert_eq!(stored.next_id, model.next_id);
    assert_eq!(stored.updated_at, model.updated_at);

    let mut fresh = Model::default();
    let effects = app.update(Event::PrayersLoaded(Some(stored.clone())), &mut fresh);
    assert_eq!(effects, vec![Effect::Render]);
    assert_eq!(fresh.prayers, stored.prayers);
    assert_eq!(fresh.next_id, stored.next_id);
    assert_eq!(fresh.reminder_settings, stored.reminder_settings);
    assert_eq!(fresh.updated_at, stored.updated_at);
    assert_eq!(app.view(&fresh).prayers, app.view(&model).prayers);
}

#[test]
fn archive_then_unarchive_restores_intentions() {
    let app = Implore;
    let mut model = Model::default();
    let _ = add(&app, &mut model, "Mom");
    let _ = add(&app, &mut model, "Dad");
    let before = model.prayers.clone();

    let _ = app.update(Event::ArchivePrayer { id: 1 }, &mut model);
    assert_eq!(model.prayers[1].status, PrayerStatus::Archived);
    let _ = app.update(Event::UnarchivePrayer { id: 1 }, &mut model);
    assert_eq!(model.prayers, before);
}

#[test]
fn ids_are_never_reused_after_removal() {
    let app = Implore;
    let mut model = Model::default();
    let _ = add(&app, &mut model, "Mom");
    let _ = add(&app, &mut model, "Dad");
    let _ = app.update(Event::RemovePrayer { id: 1 }, &mut model);
    let _ = add(&app, &mut model, "Parish");
    let ids: Vec<u64> = model.prayers.iter().map(|p| p.id).collect();
    assert_eq!(ids, vec![0, 2]);
    assert_eq!(model.next_id, 3);
}

#[test]
fn version_moves_forward_with_local_changes() {
    let app = Implore;
    let mut model = Model::default();
    let _ = add(&app, &mut model, "Mom");
    assert_eq!(model.updated_at, 1);
    let _ = app.update(
        Event::SyncLocalTime {
            year: 2026,
            month: 8,
            day: 12,
            hour: 9,
            minute: 0,
            unix_seconds: 1_700_000_000,
        },
        &mut model,
    );
    let _ = app.update(Event::ArchivePrayer { id: 0 }, &mut model);
    assert_eq!(model.updated_at, 1_700_000_000);
    // A clock behind the version still moves it forward by one.
    let _ = app.update(
        Event::SyncLocalTime {
            year: 2026,
            month: 8,
            day: 12,
            hour: 9,
            minute: 0,
            unix_seconds: 5,
        },
        &mut model,
    );
    let _ = app.update(Event::UnarchivePrayer { id: 0 }, &mut model);
    assert_eq!(model.updated_at, 1_700_000_001);
}

#[test]
fn reminder_settings_are_capped_and_snapped() {
    let app = Implore;
    let mut model = Model::default();
    let effects = app.update(
        Event::SetReminderSettings {
            enabled: true,
            hour: 30,
            minute: 59,
        },
        &mut model,
    );
    assert_eq!(effects.len(), 2);
    assert_eq!(model.reminder_settings.hour, 23);
    assert_eq!(model.reminder_settings.minute, 45);
    // Setting the same values again changes nothing.
    let effects = app.update(
        Event::SetReminderSettings {
            enabled: true,
            hour: 23,
            minute: 50,
        },
        &mut model,
    );
    assert_eq!(effects, vec![Effect::Render]);
}

#[test]
fn busy_sync_ignores_new_requests() {
    let app = Implore;
    let mut model = Model::default();
    model.session = Some(Session {
        user_id: "u1".into(),
        token: "tok".into(),
        email: "me@example.com".into(),
        last_synced_at: None,
    });
    model.account_status = AccountStatus::Syncing;
    assert!(app.update(Event::SyncRequested, &mut model).is_empty());
    assert!(app
        .update(
            Event::SignUp {
                email: "x@example.com".into(),
                password: "secret12".into(),
            },
            &mut model,
        )
        .is_empty());
    assert_eq!(model.account_status, AccountStatus::Syncing);
}

#[test]
fn sync_requested_fetches_with_bearer() {
    let app = Implore;
    let mut model = Model::default();
    let effects = app.update(Event::SyncRequested, &mut model);
    assert_eq!(effects, vec![Effect::Render]);
    assert_eq!(model.account_error.as_deref(), Some("Sign in to sync"));

    model.session = Some(Session {
        user_id: "u1".into(),
        token: "tok".into(),
        email: "me@example.com".into(),
        last_synced_at: None,
    });
    model.account_status = AccountStatus::SignedIn;
    let effects = app.update(Event::SyncRequested, &mut model);
    assert_eq!(
        effects,
        vec![
            Effect::Render,
            Effect::FetchSync {
                url: "http://127.0.0.1:3000/sync".into(),
                authorization: "Bearer tok".into(),
            },
        ]
    );
    assert_eq!(model.account_status, AccountStatus::Syncing);
}

#[test]
fn saved_tags_drop_blanks_and_keep_color() {
    let app = Implore;
    let mut model = Model::default();
    let _ = add(&app, &mut model, "Mom");
    assert_eq!(model.prayers[0].tags, vec!["a".to_string()]);
    assert_eq!(model.prayers[0].color, IntentionColor::Rose);
    assert_eq!(model.prayers[0].saint_id, None);
}

#[test]
fn full_version_counter_still_answers_events_that_save_nothing() {
    let app = Implore;
    let mut model = Model::default();
    let _ = add(&app, &mut model, "Mom");
    model.updated_at = u64::MAX;
    model.unix_seconds = Some(5);

    let blank = Event::AddPrayer {
        intention: "   ".into(),
        details: String::new(),
        tags: vec![],
        cadence: IntentionCadence::Daily,
        saint_id: String::new(),
        color: IntentionColor::Unset,
        novena_start: None,
    };
    assert!(app.can_update(&blank, &model));
    assert_eq!(app.update(blank, &mut model), vec![Effect::Render]);

    let absent = Event::RemovePrayer { id: 42 };
    assert!(app.can_update(&absent, &model));
    assert_eq!(app.update(absent, &mut model), vec![Effect::Render]);

    let log_without_time = Event::LogPrayer { id: 0 };
    assert!(app.can_update(&log_without_time, &model));
    assert_eq!(app.update(log_without_time, &mut model), vec![Effect::Render]);

    // A change that would be saved must move the version on: refused.
    assert!(!app.can_update(&Event::ArchivePrayer { id: 0 }, &model));
    assert!(!app.can_update(&Event::RemovePrayer { id: 0 }, &model));
    assert_eq!(model.updated_at, u64::MAX);
}

#[test]
fn full_id_counter_refuses_only_real_additions() {
    let app = Implore;
    let mut model = Model::default();
    model.next_id = u64::MAX;
    let blank = Event::AddPrayer {
        intention: "".into(),
        details: String::new(),
        tags: vec![],
        cadence: IntentionCadence::Daily,
        saint_id: String::new(),
        color: IntentionColor::Unset,
        novena_start: None,
    };
    assert!(app.can_update(&blank, &model));
    let real = Event::AddPrayer {
        intention: "Mom".into(),
        details: String::new(),
        tags: vec![],
        cadence: IntentionCadence::Daily,
        saint_id: String::new(),
        color: IntentionColor::Unset,
        novena_start: None,
    };
    assert!(!app.can_update(&real, &model));
}

#[test]
fn newer_remote_is_adopted_with_a_full_version_counter() {
    let app = Implore;
    let mut model = Model::default();
    model.session = Some(Session {
        user_id: "u1".into(),
        token: "tok".into(),
        email: "me@example.com".into(),
        last_synced_at: None,
    });
    model.account_status = AccountStatus::Syncing;
    model.updated_at = u64::MAX - 1;
    model.unix_seconds = Some(5);
    let remote = StoredState {
        prayers: vec![],
        next_id: 3,
        reminder_settings: model.reminder_settings,
        updated_at: u64::MAX,
    };
    let event = Event::SyncGetCompleted(Ok(Some(remote)));
    assert!(app.can_update(&event, &model));
    let effects = app.update(event, &mut model);
    assert_eq!(effects.len(), 3);
    assert_eq!(model.updated_at, u64::MAX);
    assert_eq!(model.next_id, 3);
    assert_eq!(model.account_status, AccountStatus::SignedIn);
}
