//! Shared core of a small app for the people you quietly carry in prayer:
//! prayer intentions with schedules and a prayer log, daily reminder
//! digests, the US liturgical calendar (temporal cycle), and private account
//! sync, all as verified functions over a mathematical model.
pub mod account;
pub mod app;
pub mod calendar;
pub mod liturgical;
pub mod prayer_log;
pub mod properties;
pub mod reminder;
pub mod server;
pub mod text;
pub mod update;
pub mod view_model;

pub use account::{
    AccountOperation, AccountStatus, AuthRequest, AuthResponse, Session, API_BASE_URL, SESSION_KEY,
};
pub use app::{
    Effect, Event, HttpFailure, Implore, IntentionCadence, IntentionColor, Model, Prayer,
    PrayerStatus, ReminderSettings, StoredState, TodayPrayer, ViewModel, MAX_DETAILS_LEN,
    MAX_INTENTION_LEN, MAX_TAGS, MAX_TAG_LEN, PRAYERS_KEY, VERSION,
};
pub use liturgical::{
    ash_wednesday, baptism_of_the_lord, christ_the_king, easter_offset, epiphany,
    first_sunday_of_advent, is_ordinary_time, liturgical_day_for, ordinary_time_week,
    ordinary_time_weekday, pentecost, sunday_of_ordinary_time_week, western_easter,
    LiturgicalDay,
};
pub use prayer_log::{append_entry, remove_entry, PrayerLogEntry};
pub use reminder::{
    add_days, is_due, plan_digests, weekday, CivilDate, CivilDateTime, ReminderDigest,
    DIGEST_HORIZON_DAYS,
};
