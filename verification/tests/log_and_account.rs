use implore::account::{
    auth_error_message, auth_url, email_looks_valid, looks_like_html, normalize_email,
    session_expired_message,
};
use implore::prayer_log::{
    append_entry, latest_prayed, prayed_on_date, remove_entry, PrayerLogEntry,
};
use implore::reminder::{CivilDate, CivilDateTime};
use implore::text::{decimal_string, trim_and_take, trim_str};

fn entry(day: u32, hour: u32, minute: u32) -> PrayerLogEntry {
    PrayerLogEntry {
        year: 2026,
        month: 8,
        day,
        hour,
        minute,
    }
}

#[test]
fn from_local_keeps_date_and_time() {
    let now = CivilDateTime {
        date: CivilDate {
            year: 2026,
            month: 8,
            day: 12,
        },
        hour: 15,
        minute: 30,
    };

    assert_eq!(PrayerLogEntry::from_local(now), entry(12, 15, 30));
}

#[test]
fn append_allows_multiple_entries_for_same_day() {
    let mut prayed_on = Vec::new();
    append_entry(&mut prayed_on, entry(12, 9, 0));
    append_entry(&mut prayed_on, entry(12, 18, 15));
    assert_eq!(prayed_on, vec![entry(12, 9, 0), entry(12, 18, 15)]);
}

#[test]
fn remove_entry_removes_one_item() {
    let mut prayed_on = vec![entry(10, 8, 0), entry(12, 9, 0), entry(12, 21, 0)];
    assert!(remove_entry(&mut prayed_on, 1));
    assert_eq!(prayed_on, vec![entry(10, 8, 0), entry(12, 21, 0)]);
}

#[test]
fn remove_entry_out_of_bounds_is_noop() {
    let mut prayed_on = vec![entry(10, 8, 0)];
    assert!(!remove_entry(&mut prayed_on, 3));
    assert_eq!(prayed_on.len(), 1);
}

// ---------------------------------------------------------------------------
// Further cases
// ---------------------------------------------------------------------------

#[test]
fn append_then_remove_last_restores_log() {
    let before = vec![entry(10, 8, 0), entry(12, 9, 0)];
    let mut prayed_on = before.clone();
    append_entry(&mut prayed_on, entry(12, 21, 0));
    assert!(remove_entry(&mut prayed_on, 2));
    assert_eq!(prayed_on, before);
}

#[test]
fn prayed_on_date_matches_any_entry_of_that_day() {
    let log = vec![entry(10, 8, 0), entry(12, 21, 0)];
    assert!(prayed_on_date(&log, CivilDate { year: 2026, month: 8, day: 12 }));
    assert!(!prayed_on_date(&log, CivilDate { year: 2026, month: 8, day: 11 }));
    assert!(!prayed_on_date(&Vec::new(), CivilDate { year: 2026, month: 8, day: 12 }));
}

#[test]
fn latest_prayed_picks_latest_time() {
    assert_eq!(latest_prayed(&Vec::new()), None);
    let log = vec![entry(12, 9, 0), entry(10, 23, 0), entry(12, 9, 30), entry(11, 0, 0)];
    assert_eq!(latest_prayed(&log), Some(entry(12, 9, 30)));
}

#[test]
fn normalize_email_trims_and_lowercases() {
    assert_eq!(normalize_email("  Me@Example.com ".to_string()), "me@example.com");
    assert_eq!(normalize_email("\tÉMILE@Example.COM\n".to_string()), "émile@example.com");
}

#[test]
fn email_validity_check() {
    assert!(email_looks_valid("me@example.com"));
    assert!(!email_looks_valid("not-an-email"));
    assert!(!email_looks_valid("@example.com"));
    assert!(!email_looks_valid("me@example"));
    assert!(!email_looks_valid("me@.example.com"));
    assert!(!email_looks_valid("me@example.com."));
    assert!(!email_looks_valid("m e@example.com"));
}

#[test]
fn auth_url_joins_base_and_path() {
    assert_eq!(auth_url("/auth/sign-in"), "http://127.0.0.1:3000/auth/sign-in");
}

#[test]
fn auth_error_prefers_server_json_message() {
    let body = br#"  {"error":"An account with this email already exists"}  "#.to_vec();
    assert_eq!(
        auth_error_message(Some(409), &Some(body)),
        "An account with this email already exists"
    );
    let body = br#"{"error":"Password must be at least 8 characters"}"#.to_vec();
    assert_eq!(
        auth_error_message(Some(400), &Some(body)),
        "Password must be at least 8 characters"
    );
}

#[test]
fn auth_error_falls_back_to_status() {
    assert_eq!(auth_error_message(Some(401), &None), "Invalid email or password");
    assert_eq!(
        auth_error_message(Some(409), &Some(Vec::new())),
        "An account with this email already exists"
    );
    assert_eq!(auth_error_message(Some(502), &Some(b"<html>bad gateway</html>".to_vec())), "Request failed (502)");
    assert_eq!(
        auth_error_message(Some(500), &Some(br#"{"message":"boom"}"#.to_vec())),
        "Request failed (500)"
    );
    assert_eq!(
        auth_error_message(Some(500), &Some(br#"{"error":""}"#.to_vec())),
        "Request failed (500)"
    );
    assert_eq!(
        auth_error_message(Some(500), &Some(vec![0xff, 0xfe])),
        "Request failed (500)"
    );
    assert_eq!(
        auth_error_message(None, &None),
        "Network error. Check your connection and try again."
    );
}

#[test]
fn auth_error_ignores_long_bodies() {
    let long = format!(r#"{{"error":"{}"}}"#, "x".repeat(200));
    assert_eq!(
        auth_error_message(Some(400), &Some(long.into_bytes())),
        "Request failed (400)"
    );
}

#[test]
fn html_detection_looks_at_the_head() {
    assert!(looks_like_html("<p>hi</p>"));
    assert!(looks_like_html("Error page <HTML>"));
    assert!(looks_like_html("x <!DOCTYPE html>"));
    assert!(!looks_like_html(r#"{"error":"nope"}"#));
    let late = format!("{}<html>", "a".repeat(70));
    assert!(!looks_like_html(&late));
}

#[test]
fn session_expired_text() {
    assert_eq!(session_expired_message(), "Session expired. Sign in again.");
}

#[test]
fn trimming_and_truncation_count_characters() {
    assert_eq!(trim_str("\u{3000} a b \n"), "a b");
    assert_eq!(trim_and_take("  héllo  ", 3), "hél");
    assert_eq!(trim_and_take("   ", 5), "");
}

#[test]
fn decimal_string_writes_digits() {
    assert_eq!(decimal_string(0), "0");
    assert_eq!(decimal_string(401), "401");
    assert_eq!(decimal_string(u64::MAX), "18446744073709551615");
}
