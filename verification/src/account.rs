//! Private account session and cloud sync types.
use vstd::prelude::*;

use vstd::utf8::{decode_utf8, encode_utf8, valid_utf8};

use crate::app::opt_view;
use crate::text::{
    chars_of, concat, decimal, decimal_string, trim, trim_str,
};

verus! {

/// Local API base URL for development (iOS Simulator → host loopback).
pub const API_BASE_URL: &'static str = "http://127.0.0.1:3000";

/// Key-value key for the persisted [`Session`].
pub const SESSION_KEY: &'static str = "session";

/// Minimum password length (in bytes of UTF-8) enforced at sign-up.
pub const MIN_PASSWORD_LEN: usize = 8;

/// Longest server message (in bytes of UTF-8) shown to the user.
pub const MAX_SERVER_MESSAGE_LEN: usize = 160;

#[derive(Clone, Copy, Debug, PartialEq, Eq, Structural)]
pub enum AccountStatus {
    SignedOut,
    SigningIn,
    SignedIn,
    Syncing,
    Error,
}

/// Which account request last ran — used so Sign In / Create Account / Sync
/// each show only their own errors.
#[derive(Clone, Copy, Debug, PartialEq, Eq, Structural)]
pub enum AccountOperation {
    Idle,
    SignIn,
    SignUp,
    Sync,
}

/// A signed-in session on the sync API.
#[derive(Clone, Debug, PartialEq, Eq)]
pub struct Session {
    pub user_id: String,
    pub token: String,
    pub email: String,
    /// When this device last finished a successful sync.
    pub last_synced_at: Option<u64>,
}

/// The value of a [`Session`].
#[verifier::ext_equal]
pub struct SessionView {
    pub user_id: Seq<char>,
    pub token: Seq<char>,
    pub email: Seq<char>,
    pub last_synced_at: Option<u64>,
}

impl View for Session {
    type V = SessionView;

    open spec fn view(&self) -> SessionView {
        SessionView {
            user_id: self.user_id@,
            token: self.token@,
            email: self.email@,
            last_synced_at: self.last_synced_at,
        }
    }
}

impl Session {
    /// A copy of this session.
    pub fn copy(&self) -> (r: Session)
        ensures
            r@ == self@,
    {
        Session {
            user_id: self.user_id.clone(),
            token: self.token.clone(),
            email: self.email.clone(),
            last_synced_at: self.last_synced_at,
        }
    }
}

/// Body of a sign-in or sign-up request.
#[derive(Clone, Debug, PartialEq, Eq)]
pub struct AuthRequest {
    pub email: String,
    pub password: String,
}

/// Body of a successful sign-in or sign-up response.
#[derive(Clone, Debug, PartialEq, Eq)]
pub struct AuthResponse {
    pub user_id: String,
    pub token: String,
}

/// Full URL of an API path.
pub fn auth_url(path: &str) -> (r: String)
    ensures
        r@ == API_BASE_URL@ + path@,
{
    concat(API_BASE_URL, path)
}

/// Lower-case mapping of `s` (what `str::to_lowercase` returns).
pub uninterp spec fn unicode_lowercase(s: Seq<char>) -> Seq<char>;

/// Calls `str::to_lowercase`; its result is named [`unicode_lowercase`] of the input.
#[verifier::external_body]
fn lowercase(s: &str) -> (r: String)
    ensures
        r@ == unicode_lowercase(s@),
{
    s.to_lowercase()
}

/// Trims and lower-cases an e-mail address.
pub fn normalize_email(email: String) -> (r: String)
    ensures
        r@ == unicode_lowercase(trim(email@)),
{
    let trimmed = trim_str(email.as_str());
    lowercase(trimmed.as_str())
}

/// Index of the first `c` in `s`, if any.
pub open spec fn first_index_of(s: Seq<char>, c: char) -> Option<int>
    decreases s.len(),
{
    if s.len() == 0 {
        None
    } else if s[0] == c {
        Some(0)
    } else {
        match first_index_of(s.drop_first(), c) {
            Some(i) => Some(i + 1),
            None => None,
        }
    }
}

/// One part of an address: not empty, no leading or trailing dot, no space.
pub open spec fn plausible_part(s: Seq<char>) -> bool {
    &&& s.len() > 0
    &&& s[0] != '.'
    &&& s.last() != '.'
    &&& !s.contains(' ')
}

/// `s` splits at its first `@` into a plausible local part and a plausible
/// domain that holds a dot.
pub open spec fn email_plausible(s: Seq<char>) -> bool {
    match first_index_of(s, '@') {
        None => false,
        Some(at) => {
            let local = s.take(at);
            let domain = s.skip(at + 1);
            plausible_part(local) && plausible_part(domain) && domain.contains('.')
        },
    }
}

proof fn lemma_first_index_of(s: Seq<char>, c: char, i: int)
    requires
        0 <= i <= s.len(),
        forall|k: int| 0 <= k < i ==> s[k] != c,
    ensures
        i < s.len() && s[i] == c ==> first_index_of(s, c) == Some(i),
        i == s.len() ==> first_index_of(s, c) is None,
    decreases i,
{
    if i > 0 {
        lemma_first_index_of(s.drop_first(), c, i - 1);
    }
}

/// An address is looked at as the text before its first `@` and the text
/// after it: it is plausible exactly when both are non-empty, neither starts
/// or ends with a dot or holds a space, and the domain holds a dot (dots
/// inside either part are fine); text without an `@` never is.
pub proof fn law_email_parts(local: Seq<char>, domain: Seq<char>, other: Seq<char>)
    requires
        !local.contains('@'),
    ensures
        email_plausible(local + seq!['@'] + domain) == {
            &&& local.len() > 0 && domain.len() > 0
            &&& local[0] != '.' && local[local.len() - 1] != '.'
            &&& domain[0] != '.' && domain[domain.len() - 1] != '.'
            &&& forall|i: int| 0 <= i < local.len() ==> local[i] != ' '
            &&& forall|i: int| 0 <= i < domain.len() ==> domain[i] != ' '
            &&& exists|i: int| 0 <= i < domain.len() && domain[i] == '.'
        },
        !other.contains('@') ==> !email_plausible(other),
{
    let s = local + seq!['@'] + domain;
    let at = local.len() as int;
    assert forall|k: int| 0 <= k < at implies s[k] != '@' by {
        assert(s[k] == local[k]);
    }
    lemma_first_index_of(s, '@', at);
    assert(s.take(at) =~= local);
    assert(s.skip(at + 1) =~= domain);
    if !other.contains('@') {
        lemma_first_index_of(other, '@', other.len() as int);
    }
}

fn contains_char(s: &Vec<char>, from: usize, to: usize, c: char) -> (r: bool)
    requires
        from <= to <= s@.len(),
    ensures
        r == s@.subrange(from as int, to as int).contains(c),
{
    let mut i = from;
    while i < to
        invariant
            from <= i <= to <= s@.len(),
            forall|k: int| from <= k < i ==> s@[k] != c,
        decreases to - i,
    {
        if s[i] == c {
            assert(s@.subrange(from as int, to as int)[i - from] == c);
            return true;
        }
        i += 1;
    }
    assert forall|k: int| 0 <= k < s@.subrange(from as int, to as int).len() implies s@.subrange(
        from as int,
        to as int,
    )[k] != c by {
        assert(s@.subrange(from as int, to as int)[k] == s@[k + from]);
    }
    false
}

fn part_plausible(s: &Vec<char>, from: usize, to: usize) -> (r: bool)
    requires
        from <= to <= s@.len(),
    ensures
        r == plausible_part(s@.subrange(from as int, to as int)),
{
    if from == to {
        return false;
    }
    if s[from] == '.' || s[to - 1] == '.' {
        return false;
    }
    !contains_char(s, from, to, ' ')
}

/// Loose sanity check of an e-mail address before it is sent to the server.
pub fn email_looks_valid(email: &str) -> (r: bool)
    ensures
        r == email_plausible(email@),
{
    let chars = chars_of(email);
    let n = chars.len();
    let mut at: usize = 0;
    while at < n && chars[at] != '@'
        invariant
            0 <= at <= n,
            n == chars@.len(),
            forall|k: int| 0 <= k < at ==> chars@[k] != '@',
        decreases n - at,
    {
        at += 1;
    }
    proof {
        lemma_first_index_of(chars@, '@', at as int);
    }
    if at == n {
        return false;
    }
    assert(chars@.take(at as int) =~= chars@.subrange(0, at as int));
    assert(chars@.skip(at + 1) =~= chars@.subrange(at + 1, n as int));
    part_plausible(&chars, 0, at) && part_plausible(&chars, at + 1, n) && contains_char(
        &chars,
        at + 1,
        n,
        '.',
    )
}

/// The message shown when the server rejects the session.
pub fn session_expired_message() -> (r: String)
    ensures
        r@ == "Session expired. Sign in again."@,
{
    "Session expired. Sign in again.".to_owned()
}

/// ASCII lower-casing of one byte.
pub open spec fn ascii_lower(b: u8) -> u8 {
    if 65 <= b <= 90 {
        (b + 32) as u8
    } else {
        b
    }
}

/// `pattern` occurs in `s`.
pub open spec fn bytes_contain(s: Seq<u8>, pattern: Seq<u8>) -> bool {
    exists|i: int| 0 <= i <= s.len() - pattern.len() && #[trigger] s.subrange(i, i + pattern.len())
        == pattern
}

/// The bytes `<html`.
pub open spec fn html_tag() -> Seq<u8> {
    seq![60u8, 104u8, 116u8, 109u8, 108u8]
}

/// The bytes `<!doctype`.
pub open spec fn doctype_tag() -> Seq<u8> {
    seq![60u8, 33u8, 100u8, 111u8, 99u8, 116u8, 121u8, 112u8, 101u8]
}

/// The first 64 bytes of a UTF-8 text when they end on a character boundary,
/// else the whole text.
pub open spec fn text_head(bytes: Seq<u8>) -> Seq<u8> {
    if bytes.len() >= 64 && vstd::utf8::is_char_boundary(bytes, 64) {
        bytes.take(64)
    } else {
        bytes
    }
}

/// The head of the text, ASCII-lower-cased, opens with `<` or holds `<html`
/// or `<!doctype`.
pub open spec fn html_like(bytes: Seq<u8>) -> bool {
    let head = text_head(bytes).map_values(|b: u8| ascii_lower(b));
    ||| (head.len() > 0 && head[0] == 60u8)
    ||| bytes_contain(head, html_tag())
    ||| bytes_contain(head, doctype_tag())
}

fn contains_bytes(s: &Vec<u8>, pattern: &Vec<u8>) -> (r: bool)
    ensures
        r == bytes_contain(s@, pattern@),
{
    if pattern.len() > s.len() {
        return false;
    }
    if pattern.len() == 0 {
        assert(s@.subrange(0, 0 + pattern@.len() as int) =~= pattern@);
        return true;
    }
    let last = s.len() - pattern.len();
    let mut i: usize = 0;
    while i <= last
        invariant
            last == s@.len() - pattern@.len(),
            0 < pattern@.len() <= s@.len(),
            0 <= i <= last + 1,
            forall|k: int| 0 <= k < i ==> #[trigger] s@.subrange(k, k + pattern@.len()) != pattern@,
        decreases last + 1 - i,
    {
        let mut j: usize = 0;
        while j < pattern.len() && s[i + j] == pattern[j]
            invariant
                0 <= j <= pattern@.len(),
                i <= last,
                last == s@.len() - pattern@.len(),
                0 < pattern@.len() <= s@.len(),
                i + pattern@.len() <= s@.len(),
                s@.len() == s.len(),
                pattern@.len() == pattern.len(),
                forall|k: int| 0 <= k < j ==> s@[i + k] == pattern@[k],
            decreases pattern@.len() - j,
        {
            j += 1;
        }
        if j == pattern.len() {
            assert(s@.subrange(i as int, i + pattern@.len()) =~= pattern@);
            return true;
        }
        assert(s@.subrange(i as int, i + pattern@.len())[j as int] != pattern@[j as int]);
        assert(i < s.len());
        i += 1;
    }
    false
}

/// Whether a response body looks like an HTML page rather than a message.
pub fn looks_like_html(text: &str) -> (r: bool)
    ensures
        r == html_like(encode_utf8(text@)),
{
    let bytes = text.as_bytes();
    let n = if bytes.len() >= 64 && text.is_char_boundary(64) {
        64
    } else {
        bytes.len()
    };
    let mut head: Vec<u8> = Vec::new();
    let mut i: usize = 0;
    while i < n
        invariant
            0 <= i <= n <= bytes@.len(),
            head@ == bytes@.take(i as int).map_values(|b: u8| ascii_lower(b)),
        decreases n - i,
    {
        let b = bytes[i];
        let lower = if 65 <= b && b <= 90 {
            b + 32
        } else {
            b
        };
        head.push(lower);
        proof {
            assert(bytes@.take(i + 1).map_values(|b: u8| ascii_lower(b)) =~= bytes@.take(
                i as int,
            ).map_values(|b: u8| ascii_lower(b)).push(ascii_lower(b)));
        }
        i += 1;
    }
    proof {
        assert(text_head(bytes@) =~= bytes@.take(n as int));
    }
    let html: Vec<u8> = vec![60u8, 104u8, 116u8, 109u8, 108u8];
    let doctype: Vec<u8> = vec![60u8, 33u8, 100u8, 111u8, 99u8, 116u8, 121u8, 112u8, 101u8];
    assert(html@ =~= html_tag());
    assert(doctype@ =~= doctype_tag());
    (head.len() > 0 && head[0] == 60u8) || contains_bytes(&head, &html) || contains_bytes(
        &head,
        &doctype,
    )
}


/// Text of the UTF-8 bytes `bytes`, when they are valid UTF-8: calls
/// `std::str::from_utf8`, which succeeds exactly on valid UTF-8 and then
/// reads the bytes as their characters.
#[verifier::external_body]
fn utf8_text(bytes: &[u8]) -> (r: Option<String>)
    ensures
        r is Some <==> valid_utf8(bytes@),
        r matches Some(t) ==> t@ == decode_utf8(bytes@),
{
    match std::str::from_utf8(bytes) {
        Ok(text) => Some(text.to_string()),
        Err(_) => None,
    }
}

/// The string member `key` of the JSON document `text`, when `text` parses
/// as JSON and that member exists and is a string.
pub uninterp spec fn json_string_member(text: Seq<char>, key: Seq<char>) -> Option<Seq<char>>;

/// Parses `text` with `serde_json::from_str` into a `serde_json::Value`,
/// looks up `key` with `Value::get` and reads it with `Value::as_str`; the
/// result is named [`json_string_member`] of the text and the key.
#[verifier::external_body]
fn json_string_field(text: &str, key: &str) -> (r: Option<String>)
    ensures
        opt_view(r) == json_string_member(text@, key@),
{
    let parsed: Result<serde_json::Value, serde_json::Error> = serde_json::from_str(text);
    match parsed {
        Ok(json) => match json.get(key) {
            Some(member) => match member.as_str() {
                Some(message) => Some(message.to_string()),
                None => None,
            },
            None => None,
        },
        Err(_) => None,
    }
}

/// The server's own message in an error body: the `"error"` string of a
/// short JSON body, when the body is UTF-8, not HTML, and both body and
/// message are at most [`MAX_SERVER_MESSAGE_LEN`] bytes.
pub open spec fn server_message(body: Option<Seq<u8>>) -> Option<Seq<char>> {
    match body {
        None => None,
        Some(bytes) => if !valid_utf8(bytes) {
            None
        } else {
            let trimmed = trim(decode_utf8(bytes));
            let trimmed_bytes = encode_utf8(trimmed);
            if html_like(trimmed_bytes) || trimmed_bytes.len() > MAX_SERVER_MESSAGE_LEN {
                None
            } else {
                match json_string_member(trimmed, "error"@) {
                    Some(message) => if message.len() > 0 && encode_utf8(message).len()
                        <= MAX_SERVER_MESSAGE_LEN {
                        Some(message)
                    } else {
                        None
                    },
                    None => None,
                }
            }
        },
    }
}

/// The message for a failed request with HTTP status `code` (none when the
/// request did not reach the server).
pub open spec fn status_message(code: Option<u16>) -> Seq<char> {
    match code {
        Some(401) => "Invalid email or password"@,
        Some(409) => "An account with this email already exists"@,
        Some(c) => "Request failed ("@ + decimal(c as nat) + ")"@,
        None => "Network error. Check your connection and try again."@,
    }
}

/// The user-facing message for a failed auth or sync request.
pub open spec fn auth_error_text(code: Option<u16>, body: Option<Seq<u8>>) -> Seq<char> {
    match server_message(body) {
        Some(message) => message,
        None => status_message(code),
    }
}

/// The user-facing message for a failed auth or sync request: the server's
/// own short message when its body carries one, else one chosen by status.
pub fn auth_error_message(code: Option<u16>, body: &Option<Vec<u8>>) -> (r: String)
    ensures
        r@ == auth_error_text(code, match body {
            Some(b) => Some(b@),
            None => None,
        }),
{
    if let Some(bytes) = body {
        if let Some(text) = utf8_text(bytes.as_slice()) {
            let trimmed = trim_str(text.as_str());
            if !looks_like_html(trimmed.as_str()) && trimmed.as_str().as_bytes().len()
                <= MAX_SERVER_MESSAGE_LEN {
                if let Some(message) = json_string_field(trimmed.as_str(), "error") {
                    if message.as_str().as_bytes().len() > 0 && message.as_str().as_bytes().len()
                        <= MAX_SERVER_MESSAGE_LEN {
                        proof {
                            lemma_encode_nonempty(message@);
                        }
                        return message;
                    }
                }
            }
        }
    }
    status_text(code)
}

proof fn lemma_encode_nonempty(s: Seq<char>)
    ensures
        (encode_utf8(s).len() > 0) == (s.len() > 0),
{
    vstd::utf8::encode_utf8_decode_utf8(s);
    if s.len() > 0 {
        if encode_utf8(s).len() == 0 {
            assert(decode_utf8(encode_utf8(s)) =~= seq![]);
        }
    } else {
        assert(encode_utf8(s) =~= seq![]);
    }
}

fn status_text(code: Option<u16>) -> (r: String)
    ensures
        r@ == status_message(code),
{
    match code {
        Some(401) => "Invalid email or password".to_owned(),
        Some(409) => "An account with this email already exists".to_owned(),
        Some(c) => {
            let head = concat("Request failed (", decimal_string(c as u64).as_str());
            concat(head.as_str(), ")")
        },
        None => "Network error. Check your connection and try again.".to_owned(),
    }
}

} // verus!
