//! The decisions of the sync server: request validation, bearer tokens,
//! password hashing and checking, and new session tokens.
use vstd::prelude::*;

use vstd::utf8::encode_utf8;

use argon2::password_hash::{PasswordHasher, PasswordVerifier};
use rand::Rng;

use crate::account::{normalize_email, unicode_lowercase, MIN_PASSWORD_LEN};
use crate::app::opt_view;
use crate::text::{chars_of, string_from_chars, trim, trim_chars, trim_str};

verus! {

/// HTTP status: the request is malformed.
pub const BAD_REQUEST: u16 = 400;

/// HTTP status: missing or wrong credentials.
pub const UNAUTHORIZED: u16 = 401;

/// HTTP status: the resource already exists.
pub const CONFLICT: u16 = 409;

/// HTTP status: the server failed.
pub const INTERNAL_SERVER_ERROR: u16 = 500;

/// Length of a session token.
pub const TOKEN_LEN: usize = 48;

/// The longest password, in bytes, that Argon2 hashes (`argon2::MAX_PWD_LEN`).
pub const ARGON2_MAX_PASSWORD_LEN: u64 = 0xFFFF_FFFF;

/// An error answer: its HTTP status and the message sent as `{"error": ..}`.
#[derive(Clone, Debug, PartialEq, Eq)]
pub struct ApiError {
    pub status: u16,
    pub message: String,
}

impl ApiError {
    /// The error's status and message as plain values.
    pub open spec fn value(self) -> (u16, Seq<char>) {
        (self.status, self.message@)
    }
}

fn api_error(status: u16, message: &str) -> (r: ApiError)
    ensures
        r.value() == (status, message@),
{
    ApiError { status, message: message.to_owned() }
}

// ---------------------------------------------------------------------------
// Credentials
// ---------------------------------------------------------------------------

/// Credentials as the server keeps them: the e-mail trimmed and lower-cased,
/// the password trimmed.
pub struct Credentials {
    pub email: String,
    pub password: String,
}

/// Why the server refuses the credentials of a sign-up (`sign_up`) or
/// sign-in request, if it does: both fields are required once trimmed, and
/// a new password needs at least [`MIN_PASSWORD_LEN`] bytes.
pub open spec fn credentials_error(email: Seq<char>, password: Seq<char>, sign_up: bool) -> Option<
    (u16, Seq<char>),
> {
    let email = unicode_lowercase(trim(email));
    let password = trim(password);
    if email.len() == 0 || password.len() == 0 {
        Some((BAD_REQUEST, "Email and password are required"@))
    } else if sign_up && encode_utf8(password).len() < MIN_PASSWORD_LEN {
        Some((BAD_REQUEST, "Password must be at least 8 characters"@))
    } else {
        None
    }
}

/// Normalises and checks the credentials of a sign-up or sign-in request.
pub fn validate_credentials(email: &str, password: &str, sign_up: bool) -> (r: Result<
    Credentials,
    ApiError,
>)
    ensures
        match r {
            Ok(c) => credentials_error(email@, password@, sign_up) is None && c.email@
                == unicode_lowercase(trim(email@)) && c.password@ == trim(password@),
            Err(e) => credentials_error(email@, password@, sign_up) == Some(e.value()),
        },
{
    let email = normalize_email(email.to_owned());
    let password = trim_str(password);
    if email.as_str().is_empty() || password.as_str().is_empty() {
        return Err(api_error(BAD_REQUEST, "Email and password are required"));
    }
    if sign_up && password.as_str().as_bytes().len() < MIN_PASSWORD_LEN {
        return Err(api_error(BAD_REQUEST, "Password must be at least 8 characters"));
    }
    Ok(Credentials { email, password })
}

// ---------------------------------------------------------------------------
// Bearer tokens
// ---------------------------------------------------------------------------

/// The header starts with the `Bearer ` scheme (capitalised or not).
pub open spec fn has_bearer_scheme(header: Seq<char>) -> bool {
    &&& header.len() >= 7
    &&& (header[0] == 'B' || header[0] == 'b')
    &&& header[1] == 'e'
    &&& header[2] == 'a'
    &&& header[3] == 'r'
    &&& header[4] == 'e'
    &&& header[5] == 'r'
    &&& header[6] == ' '
}

/// The token of an `Authorization` header value: what follows `Bearer `
/// (or `bearer `), trimmed, when that is not empty.
pub open spec fn bearer_value(header: Seq<char>) -> Option<Seq<char>> {
    if has_bearer_scheme(header) && trim(header.skip(7)).len() > 0 {
        Some(trim(header.skip(7)))
    } else {
        None
    }
}

/// The session token of an `Authorization` header, if it carries one.
pub fn bearer_token(header: Option<&str>) -> (r: Option<String>)
    ensures
        match header {
            None => r is None,
            Some(h) => match r {
                None => bearer_value(h@) is None,
                Some(t) => bearer_value(h@) == Some(t@),
            },
        },
{
    let value = match header {
        None => return None,
        Some(v) => v,
    };
    let chars = chars_of(value);
    if chars.len() < 7 {
        return None;
    }
    if !((chars[0] == 'B' || chars[0] == 'b') && chars[1] == 'e' && chars[2] == 'a' && chars[3]
        == 'r' && chars[4] == 'e' && chars[5] == 'r' && chars[6] == ' ') {
        return None;
    }
    let mut rest: Vec<char> = Vec::new();
    let mut i: usize = 7;
    while i < chars.len()
        invariant
            7 <= i <= chars@.len(),
            rest@ == chars@.subrange(7, i as int),
        decreases chars@.len() - i,
    {
        rest.push(chars[i]);
        i += 1;
    }
    assert(rest@ == value@.skip(7));
    let token = trim_chars(&rest);
    if token.len() == 0 {
        return None;
    }
    Some(string_from_chars(token.as_slice()))
}

/// The session token of a request, or the 401 answer when it has none.
pub fn require_bearer_token(header: Option<&str>) -> (r: Result<String, ApiError>)
    ensures
        match header {
            None => r matches Err(e) && e.value() == (UNAUTHORIZED, "Missing bearer token"@),
            Some(h) => match bearer_value(h@) {
                Some(t) => r matches Ok(token) && token@ == t,
                None => r matches Err(e) && e.value() == (UNAUTHORIZED, "Missing bearer token"@),
            },
        },
{
    match bearer_token(header) {
        Some(token) => Ok(token),
        None => Err(api_error(UNAUTHORIZED, "Missing bearer token")),
    }
}

// ---------------------------------------------------------------------------
// Passwords and tokens
// ---------------------------------------------------------------------------

/// What Argon2 says of `password` against a stored PHC hash string: `None`
/// when the string does not parse as a password hash, else whether the
/// password matches it.
pub uninterp spec fn argon2_verdict(password: Seq<u8>, hash: Seq<char>) -> Option<bool>;

/// Parses `hash` with `password_hash::PasswordHash::new` and checks
/// `password` against it with `argon2::Argon2::default().verify_password`;
/// the outcome is named [`argon2_verdict`]. Both steps are deterministic.
#[verifier::external_body]
fn argon2_check(password: &[u8], hash: &str) -> (r: Option<bool>)
    ensures
        r == argon2_verdict(password@, hash@),
{
    match argon2::password_hash::PasswordHash::new(hash) {
        Ok(parsed) => Some(argon2::Argon2::default().verify_password(password, &parsed).is_ok()),
        Err(_) => None,
    }
}

/// The answer to a password check: a hash that does not parse is a server
/// fault, a mismatch is refused.
pub fn password_outcome(verdict: Option<bool>) -> (r: Result<(), ApiError>)
    ensures
        match verdict {
            Some(true) => r is Ok,
            Some(false) => r matches Err(e) && e.value() == (
                UNAUTHORIZED,
                "Invalid email or password"@,
            ),
            None => r matches Err(e) && e.value() == (
                INTERNAL_SERVER_ERROR,
                "Invalid password hash"@,
            ),
        },
{
    match verdict {
        Some(true) => Ok(()),
        Some(false) => Err(api_error(UNAUTHORIZED, "Invalid email or password")),
        None => Err(api_error(INTERNAL_SERVER_ERROR, "Invalid password hash")),
    }
}

/// Checks `password` against the stored hash.
pub fn verify_password(password: &str, password_hash: &str) -> (r: Result<(), ApiError>)
    ensures
        match argon2_verdict(encode_utf8(password@), password_hash@) {
            Some(true) => r is Ok,
            Some(false) => r matches Err(e) && e.value() == (
                UNAUTHORIZED,
                "Invalid email or password"@,
            ),
            None => r matches Err(e) && e.value() == (
                INTERNAL_SERVER_ERROR,
                "Invalid password hash"@,
            ),
        },
{
    let verdict = argon2_check(password.as_bytes(), password_hash);
    password_outcome(verdict)
}

/// The PHC string of an Argon2id (version 19) hash: it begins `$argon2id$v=19$`.
pub open spec fn is_argon2id_phc(s: Seq<char>) -> bool {
    s.len() >= 15 && s.take(15) == "$argon2id$v=19$"@
}

/// Hashes `password` with `argon2::Argon2::default()` and a fresh salt from
/// `password_hash::SaltString::generate(&mut OsRng)`, written out with
/// `PasswordHash`'s `Display`; `None` when hashing fails. The default
/// algorithm is Argon2id and the default version 19, and `Display` writes
/// `$`, the algorithm, `$v=`, the version, then the parameters, salt and
/// hash, so the string begins `$argon2id$v=19$`. Checking `password`
/// against that string (`argon2_check`) parses it back and recomputes the
/// hash with the same algorithm, version, parameters, output length and
/// salt, so it matches. Hashing fails only where `Argon2::verify_inputs`
/// refuses the inputs: a password longer than `MAX_PWD_LEN` (`0xFFFF_FFFF`
/// bytes), or a salt outside 8 to `0xFFFF_FFFF` bytes, which the generated
/// 16-byte salt never is; the default parameters, output length and
/// block count are always accepted. The salt is random, so no more is
/// stated of the string. Salt generation panics if the operating system's
/// random source fails.
#[verifier::external_body]
fn argon2_hash(password: &[u8]) -> (r: Option<String>)
    ensures
        password@.len() <= ARGON2_MAX_PASSWORD_LEN ==> r is Some,
        r matches Some(hash) ==> is_argon2id_phc(hash@),
        r matches Some(hash) ==> argon2_verdict(password@, hash@) == Some(true),
{
    let salt = argon2::password_hash::SaltString::generate(
        &mut argon2::password_hash::rand_core::OsRng,
    );
    argon2::Argon2::default().hash_password(password, &salt).ok().map(|hash| hash.to_string())
}

/// A salted Argon2id hash of `password` to store, as a PHC string that the
/// same password is later checked against successfully.
pub fn hash_password(password: &str) -> (r: Result<String, ApiError>)
    ensures
        encode_utf8(password@).len() <= ARGON2_MAX_PASSWORD_LEN ==> r is Ok,
        r matches Ok(hash) ==> is_argon2id_phc(hash@),
        r matches Ok(hash) ==> argon2_verdict(encode_utf8(password@), hash@) == Some(true),
        r matches Err(e) ==> e.value() == (INTERNAL_SERVER_ERROR, "Could not hash password"@),
{
    match argon2_hash(password.as_bytes()) {
        Some(hash) => Ok(hash),
        None => Err(api_error(INTERNAL_SERVER_ERROR, "Could not hash password")),
    }
}

/// An ASCII letter or digit.
pub open spec fn is_ascii_alphanumeric(c: char) -> bool {
    ('a' <= c <= 'z') || ('A' <= c <= 'Z') || ('0' <= c <= '9')
}

/// One byte drawn by `rand::thread_rng().sample(rand::distributions::Alphanumeric)`:
/// as its documentation says, an ASCII letter or digit. The draw is random;
/// `thread_rng` panics if the operating system's random source cannot seed it.
#[verifier::external_body]
fn random_alphanumeric() -> (r: u8)
    ensures
        is_ascii_alphanumeric(r as char),
{
    rand::thread_rng().sample(rand::distributions::Alphanumeric)
}

/// A new random session token of [`TOKEN_LEN`] ASCII letters and digits.
pub fn new_token() -> (r: String)
    ensures
        r@.len() == TOKEN_LEN,
        forall|i: int| 0 <= i < r@.len() ==> is_ascii_alphanumeric(#[trigger] r@[i]),
{
    let mut chars: Vec<char> = Vec::new();
    while chars.len() < TOKEN_LEN
        invariant
            chars@.len() <= TOKEN_LEN,
            forall|i: int| 0 <= i < chars@.len() ==> is_ascii_alphanumeric(#[trigger] chars@[i]),
        decreases TOKEN_LEN - chars@.len(),
    {
        let b = random_alphanumeric();
        chars.push(b as char);
    }
    string_from_chars(chars.as_slice())
}

/// A lowercase hexadecimal digit.
pub open spec fn is_lower_hex_digit(c: char) -> bool {
    ('0' <= c <= '9') || ('a' <= c <= 'f')
}

/// The hyphenated lowercase text of a version-4 UUID: 36 characters, hyphens
/// at 8, 13, 18 and 23, the version digit `4` at 14, a variant digit from
/// `8`, `9`, `a`, `b` at 19, and lowercase hex digits everywhere else.
pub open spec fn is_uuid_v4_text(s: Seq<char>) -> bool {
    &&& s.len() == 36
    &&& forall|i: int|
        0 <= i < 36 ==> if i == 8 || i == 13 || i == 18 || i == 23 {
            #[trigger] s[i] == '-'
        } else {
            is_lower_hex_digit(s[i])
        }
    &&& s[14] == '4'
    &&& (s[19] == '8' || s[19] == '9' || s[19] == 'a' || s[19] == 'b')
}

/// `uuid::Uuid::new_v4().to_string()`: `new_v4` masks random bits so that
/// the version nibble is 4 and the variant nibble is `10xx`; `Display`
/// writes `as_hyphenated()` in lowercase (`format_hyphenated` with
/// `upper == false`): 32 hex digits in big-endian order with hyphens at 8,
/// 13, 18 and 23. The other digits are random, so no more is stated.
#[verifier::external_body]
fn random_uuid() -> (r: String)
    ensures
        is_uuid_v4_text(r@),
{
    uuid::Uuid::new_v4().to_string()
}

// ---------------------------------------------------------------------------
// Sync documents
// ---------------------------------------------------------------------------

/// The number member `key` of the JSON document `text`, when `text` parses
/// as JSON and that member exists and is an integer that fits a `u64`.
pub uninterp spec fn json_number_member(text: Seq<char>, key: Seq<char>) -> Option<u64>;

/// Parses `text` with `serde_json::from_str` into a `serde_json::Value`,
/// looks up `key` with `Value::get` and reads it with `Value::as_u64`; the
/// result is named [`json_number_member`] of the text and the key.
#[verifier::external_body]
fn json_number_field(text: &str, key: &str) -> (r: Option<u64>)
    ensures
        r == json_number_member(text@, key@),
{
    let parsed: Result<serde_json::Value, serde_json::Error> = serde_json::from_str(text);
    match parsed {
        Ok(doc) => match doc.get(key) {
            Some(member) => member.as_u64(),
            None => None,
        },
        Err(_) => None,
    }
}

/// The JSON document `text` with its member `key` set to the number
/// `value` (when the document is an object; other documents are kept as
/// they are), written out again; `None` when `text` does not parse as JSON.
pub uninterp spec fn json_with_number(text: Seq<char>, key: Seq<char>, value: u64) -> Option<
    Seq<char>,
>;

/// Parses `text` with `serde_json::from_str` into a `serde_json::Value`,
/// inserts `key` into it with `Map::insert` when it is an object, and writes
/// it out with `serde_json::to_string`; the result is named
/// [`json_with_number`] of the text, the key and the value.
#[verifier::external_body]
fn json_with_number_field(text: &str, key: &str, value: u64) -> (r: Option<String>)
    ensures
        opt_view(r) == json_with_number(text@, key@, value),
{
    let parsed: Result<serde_json::Value, serde_json::Error> = serde_json::from_str(text);
    match parsed {
        Ok(mut doc) => {
            if let Some(object) = doc.as_object_mut() {
                object.insert(key.to_owned(), serde_json::Value::from(value));
            }
            serde_json::to_string(&doc).ok()
        },
        Err(_) => None,
    }
}

/// A stored sync document as served: the version kept beside it written
/// into it as `updated_at`.
pub fn served_document(body: &str, updated_at: i64) -> (r: Result<String, ApiError>)
    ensures
        match json_with_number(body@, "updated_at"@, updated_at as u64) {
            Some(text) => r matches Ok(s) && s@ == text,
            None => r matches Err(e) && e.value() == (
                INTERNAL_SERVER_ERROR,
                "Corrupt sync document"@,
            ),
        },
{
    match json_with_number_field(body, "updated_at", updated_at as u64) {
        Some(text) => Ok(text),
        None => Err(api_error(INTERNAL_SERVER_ERROR, "Corrupt sync document")),
    }
}

/// The version a pushed sync document carries: its `updated_at` number, or 0.
pub open spec fn pushed_version(doc: Seq<char>) -> u64 {
    match json_number_member(doc, "updated_at"@) {
        Some(v) => v,
        None => 0,
    }
}

/// A pushed sync document as stored: its version (0 when it carries none)
/// and the document with that version written into it.
pub fn stored_document(doc: &str) -> (r: Result<(String, u64), ApiError>)
    ensures
        match json_with_number(doc@, "updated_at"@, pushed_version(doc@)) {
            Some(text) => r matches Ok(stored) && stored.0@ == text && stored.1 == pushed_version(
                doc@,
            ),
            None => r matches Err(e) && e.value() == (BAD_REQUEST, "Invalid sync document"@),
        },
{
    let version = match json_number_field(doc, "updated_at") {
        Some(v) => v,
        None => 0,
    };
    match json_with_number_field(doc, "updated_at", version) {
        Some(text) => Ok((text, version)),
        None => Err(api_error(BAD_REQUEST, "Invalid sync document")),
    }
}

// ---------------------------------------------------------------------------
// Accounts and sessions
// ---------------------------------------------------------------------------

/// What a sign-up stores: a new user id, the normalised e-mail, the password
/// hash and the first session token.
pub struct NewAccount {
    pub user_id: String,
    pub email: String,
    pub password_hash: String,
    pub token: String,
}

/// Everything a sign-up computes before it writes to the database.
pub fn new_account(email: &str, password: &str) -> (r: Result<NewAccount, ApiError>)
    ensures
        match credentials_error(email@, password@, true) {
            Some(e) => r matches Err(err) && err.value() == e,
            None => match r {
                Ok(account) => account.email@ == unicode_lowercase(trim(email@))
                    && is_uuid_v4_text(account.user_id@) && is_argon2id_phc(account.password_hash@)
                    && argon2_verdict(encode_utf8(trim(password@)), account.password_hash@)
                    == Some(true) && account.token@.len() == TOKEN_LEN && forall|i: int|
                    0 <= i < account.token@.len() ==> is_ascii_alphanumeric(
                        #[trigger] account.token@[i],
                    ),
                Err(err) => err.value() == (INTERNAL_SERVER_ERROR, "Could not hash password"@)
                    && encode_utf8(trim(password@)).len() > ARGON2_MAX_PASSWORD_LEN,
            },
        },
{
    let credentials = match validate_credentials(email, password, true) {
        Ok(c) => c,
        Err(e) => return Err(e),
    };
    let user_id = random_uuid();
    let password_hash = match hash_password(credentials.password.as_str()) {
        Ok(h) => h,
        Err(e) => return Err(e),
    };
    let token = new_token();
    Ok(NewAccount { user_id, email: credentials.email, password_hash, token })
}

/// A sign-in with a stored hash: checks the (trimmed) password and issues a
/// new session token.
pub fn sign_in_token(password: &str, password_hash: &str) -> (r: Result<String, ApiError>)
    ensures
        match argon2_verdict(encode_utf8(password@), password_hash@) {
            Some(true) => r matches Ok(token) && token@.len() == TOKEN_LEN && forall|i: int|
                0 <= i < token@.len() ==> is_ascii_alphanumeric(#[trigger] token@[i]),
            Some(false) => r matches Err(e) && e.value() == (
                UNAUTHORIZED,
                "Invalid email or password"@,
            ),
            None => r matches Err(e) && e.value() == (
                INTERNAL_SERVER_ERROR,
                "Invalid password hash"@,
            ),
        },
{
    match verify_password(password, password_hash) {
        Ok(()) => Ok(new_token()),
        Err(e) => Err(e),
    }
}

} // verus!
