use implore::server::{
    bearer_token, hash_password, new_account, new_token, password_outcome, require_bearer_token,
    served_document, sign_in_token, stored_document, validate_credentials, verify_password,
    ApiError, TOKEN_LEN,
};

fn err(status: u16, message: &str) -> ApiError {
    ApiError {
        status,
        message: message.to_string(),
    }
}

#[test]
fn credentials_are_normalised() {
    let c = validate_credentials("  Me@Example.com ", "  secret12 ", true).ok().unwrap();
    assert_eq!(c.email, "me@example.com");
    assert_eq!(c.password, "secret12");
}

#[test]
fn credentials_must_be_present() {
    assert_eq!(
        validate_credentials("   ", "secret12", false).err(),
        Some(err(400, "Email and password are required"))
    );
    assert_eq!(
        validate_credentials("me@example.com", "  ", true).err(),
        Some(err(400, "Email and password are required"))
    );
}

#[test]
fn sign_up_password_needs_eight_bytes() {
    assert_eq!(
        validate_credentials("me@example.com", " short ", true).err(),
        Some(err(400, "Password must be at least 8 characters"))
    );
    // Sign-in does not check the length.
    assert!(validate_credentials("me@example.com", "short", false).is_ok());
    // The length counts bytes: four two-byte characters are enough.
    assert!(validate_credentials("me@example.com", "éééé", true).is_ok());
}

#[test]
fn bearer_token_parsing() {
    assert_eq!(bearer_token(Some("Bearer abc")), Some("abc".to_string()));
    assert_eq!(bearer_token(Some("bearer  abc  ")), Some("abc".to_string()));
    assert_eq!(bearer_token(Some("Bearer    ")), None);
    assert_eq!(bearer_token(Some("Basic abc")), None);
    assert_eq!(bearer_token(Some("BEARER abc")), None);
    assert_eq!(bearer_token(Some("Bearer")), None);
    assert_eq!(bearer_token(None), None);
}

#[test]
fn missing_bearer_is_unauthorized() {
    assert_eq!(require_bearer_token(Some("Bearer tok")).ok(), Some("tok".to_string()));
    assert_eq!(
        require_bearer_token(None).err(),
        Some(err(401, "Missing bearer token"))
    );
    assert_eq!(
        require_bearer_token(Some("Token tok")).err(),
        Some(err(401, "Missing bearer token"))
    );
}

#[test]
fn password_outcomes() {
    assert_eq!(password_outcome(Some(true)), Ok(()));
    assert_eq!(
        password_outcome(Some(false)),
        Err(err(401, "Invalid email or password"))
    );
    assert_eq!(password_outcome(None), Err(err(500, "Invalid password hash")));
}

#[test]
fn hashed_password_verifies_and_others_do_not() {
    let hash = hash_password("secret12").ok().unwrap();
    assert!(hash.starts_with("$argon2id$v=19$"));
    assert_eq!(verify_password("secret12", &hash), Ok(()));
    assert_eq!(
        verify_password("secret13", &hash),
        Err(err(401, "Invalid email or password"))
    );
    assert_eq!(
        verify_password("secret12", "not-a-hash"),
        Err(err(500, "Invalid password hash"))
    );
}

#[test]
fn tokens_are_alphanumeric() {
    let a = new_token();
    let b = new_token();
    assert_eq!(a.len(), TOKEN_LEN);
    assert!(a.chars().all(|c| c.is_ascii_alphanumeric()));
    assert_ne!(a, b);
}

#[test]
fn sign_in_token_needs_matching_password() {
    assert_eq!(
        sign_in_token("secret12", "not-a-hash").err(),
        Some(err(500, "Invalid password hash"))
    );
}

#[test]
fn new_account_validates_then_hashes() {
    assert_eq!(
        new_account("me@example.com", "short").err(),
        Some(err(400, "Password must be at least 8 characters"))
    );
    let account = new_account(" Me@Example.com ", "secret12").ok().unwrap();
    assert_eq!(account.email, "me@example.com");
    assert_eq!(account.token.len(), TOKEN_LEN);
    assert_eq!(account.user_id.len(), 36);
    let id: Vec<char> = account.user_id.chars().collect();
    for (i, c) in id.iter().enumerate() {
        if i == 8 || i == 13 || i == 18 || i == 23 {
            assert_eq!(*c, '-');
        } else {
            assert!(c.is_ascii_digit() || ('a'..='f').contains(c));
        }
    }
    assert_eq!(id[14], '4');
    assert!(['8', '9', 'a', 'b'].contains(&id[19]));
    assert_eq!(verify_password("secret12", &account.password_hash), Ok(()));
    let token = sign_in_token("secret12", &account.password_hash).ok().unwrap();
    assert_eq!(token.len(), TOKEN_LEN);
}

#[test]
fn served_document_carries_its_version() {
    let text = served_document(r#"{"prayers":[],"next_id":1,"updated_at":3}"#, 42)
        .ok()
        .unwrap();
    let doc: serde_json::Value = serde_json::from_str(&text).unwrap();
    assert_eq!(doc["updated_at"], 42);
    assert_eq!(doc["next_id"], 1);
    // A document that is not an object is served as it is.
    assert_eq!(served_document("[1,2]", 42).ok().unwrap(), "[1,2]");
    assert_eq!(
        served_document("{not json", 42).err(),
        Some(err(500, "Corrupt sync document"))
    );
}

#[test]
fn stored_document_defaults_version_to_zero() {
    let (text, version) = stored_document(r#"{"next_id":2,"updated_at":17}"#).ok().unwrap();
    assert_eq!(version, 17);
    let doc: serde_json::Value = serde_json::from_str(&text).unwrap();
    assert_eq!(doc["updated_at"], 17);

    let (text, version) = stored_document(r#"{"next_id":2}"#).ok().unwrap();
    assert_eq!(version, 0);
    let doc: serde_json::Value = serde_json::from_str(&text).unwrap();
    assert_eq!(doc["updated_at"], 0);

    let (_, version) = stored_document(r#"{"updated_at":"soon"}"#).ok().unwrap();
    assert_eq!(version, 0);
    assert_eq!(
        stored_document("").err(),
        Some(err(400, "Invalid sync document"))
    );
}
