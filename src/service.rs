//! The orchestrator: accounts, sessions and the security event log, and the
//! operations that compose the hasher, the TOTP engine and the token issuer
//! over them.

use vstd::prelude::*;
use vstd::string::*;
use crate::error::AuthError;
use crate::model::{User, Session, SecurityEvent, EventType, Severity, RegisterRequest,
    LoginRequest, UserResponse, AuthResponse, clone_opt};
use crate::password::{hash_password, verify_password, bcrypt_verdict};
use crate::totp::{verify_code, code_outcome, generate_secret, encode_secret, provisioning_uri,
    provisioning_uri_of, generate_backup_codes, base32_text, base32_decoded, is_backup_code, BACKUP_CODE_COUNT, SECRET_BYTES};
use crate::model::{TwoFactorSetupResponse, DeviceInfo, SecurityEventQuery, SecurityEventPage, PaginationInfo,
    event_type_name, severity_name};
use crate::device::{parse_device_name, parse_browser, parse_os, device_class_of, browser_of, os_of, sha256,
    sha256_of, fingerprint_input, fingerprint_from_digest};
use crate::text::hex_of;
use vstd::utf8::encode_utf8;
use crate::json::{lit_at, push_decimal, decimal, lemma_decimal};
use crate::model::AuthUser;
use crate::token::{Claims, verify_outcome, signed_outcome, sole_claims, jwt_payload_of, TokenIssuer, TokenPair, str_eq, opt_view, jwt_signed, claims_json, issued_claims,
    ACCESS_TOKEN_SECONDS, REFRESH_TOKEN_SECONDS};

verus! {

/// A usable unix time: at least one TOTP step after the epoch, and far enough
/// from the end of `i64` that a refresh token's expiry fits.
pub open spec fn valid_now(now: i64) -> bool {
    30 <= now <= i64::MAX - REFRESH_TOKEN_SECONDS
}

/// Relies on uuid's `Uuid::new_v4().to_string()`: a random identifier in its
/// 36-character hyphenated form.
#[verifier::external_body]
fn new_uuid() -> (r: String)
    ensures
        r@.len() == 36,
{
    uuid::Uuid::new_v4().to_string()
}

pub open spec fn hex_digit(c: char) -> bool {
    ('0' <= c && c <= '9') || ('a' <= c && c <= 'f') || ('A' <= c && c <= 'F')
}

pub open spec fn ascii_lower(c: char) -> char {
    if 'A' <= c && c <= 'Z' {
        ((c as u32) + 32) as char
    } else {
        c
    }
}

/// Hex digits in groups of 8, 4, 4, 4 and 12, joined by hyphens.
pub open spec fn hyphenated_uuid(s: Seq<char>) -> bool {
    s.len() == 36 && forall|i: int| 0 <= i < 36 ==> if i == 8 || i == 13 || i == 18 || i == 23 {
        #[trigger] s[i] == '-'
    } else {
        hex_digit(s[i])
    }
}

/// The texts uuid reads as a UUID: 32 hex digits; the hyphenated form; the
/// hyphenated form in braces; or `urn:uuid:` in any case before it.
pub open spec fn uuid_text(s: Seq<char>) -> bool {
    ||| s.len() == 32 && forall|i: int| 0 <= i < 32 ==> hex_digit(#[trigger] s[i])
    ||| hyphenated_uuid(s)
    ||| s.len() == 38 && s[0] == '{' && s[37] == '}' && hyphenated_uuid(s.subrange(1, 37))
    ||| s.len() == 45 && (forall|i: int| 0 <= i < 9 ==> ascii_lower(#[trigger] s[i]) == "urn:uuid:"@[i])
        && hyphenated_uuid(s.skip(9))
}

/// Relies on uuid's `Uuid::parse_str`: it accepts exactly the four shapes of
/// `uuid_text` (checked on bytes; every accepted shape is ASCII, so the same
/// on characters).
#[verifier::external_body]
fn is_uuid(text: &str) -> (r: bool)
    ensures
        r == uuid_text(text@),
{
    uuid::Uuid::parse_str(text).is_ok()
}

/// The token of an `Authorization` header of the form `Bearer <token>`.
pub open spec fn bearer_token(header: Seq<char>) -> Option<Seq<char>> {
    if header.len() >= 7 && header.subrange(0, 7) == "Bearer "@ {
        Some(header.subrange(7, header.len() as int))
    } else {
        None
    }
}

/// `id` is the id of the event at position `pos` of the log: a 36-character
/// random identifier, a hyphen, and the position in decimal.
pub open spec fn event_id_at(id: Seq<char>, pos: int) -> bool {
    id.len() >= 37 && id.skip(37) == decimal(pos as nat)
}

proof fn lemma_event_ids_differ(a: Seq<char>, b: Seq<char>, i: int, j: int)
    requires
        0 <= i,
        0 <= j,
        i != j,
        event_id_at(a, i),
        event_id_at(b, j),
    ensures
        a != b,
{
    lemma_decimal(i as nat);
    lemma_decimal(j as nat);
}

/// How a user record is looked up.
pub enum UserKey {
    Id,
    Email,
    Username,
}

pub open spec fn user_key(u: User, k: UserKey) -> Seq<char> {
    match k {
        UserKey::Id => u.id@,
        UserKey::Email => u.email@,
        UserKey::Username => u.username@,
    }
}

/// Some user has `value` under `k`.
pub open spec fn has_user(users: Seq<User>, k: UserKey, value: Seq<char>) -> bool {
    exists|i: int| 0 <= i < users.len() && #[trigger] user_key(users[i], k) == value
}

/// Some session holds refresh token `token`.
pub open spec fn token_held(sessions: Seq<Session>, token: Seq<char>) -> bool {
    exists|i: int| 0 <= i < sessions.len() && #[trigger] sessions[i].refresh_token@ == token
}

/// An active session holds refresh token `token`.
pub open spec fn token_active(sessions: Seq<Session>, token: Seq<char>) -> bool {
    exists|i: int|
        0 <= i < sessions.len() && #[trigger] sessions[i].refresh_token@ == token && sessions[i].is_active
}

/// `e` records an occurrence of kind `kind` for user `user_id`.
pub open spec fn is_event(
    e: SecurityEvent,
    user_id: Seq<char>,
    kind: EventType,
    severity: Severity,
    ip: Seq<char>,
    ua: Seq<char>,
    now: int,
) -> bool {
    &&& e.user_id@ == user_id
    &&& e.event_type == kind
    &&& e.severity == severity
    &&& e.ip_address@ == ip
    &&& e.user_agent@ == ua
    &&& e.created_at == now
}

/// `s` is a session opened at `now` for `user_id` with refresh token `token`.
pub open spec fn is_new_session(
    s: Session,
    user_id: Seq<char>,
    token: Seq<char>,
    ip: Seq<char>,
    ua: Seq<char>,
    now: int,
) -> bool {
    &&& s.user_id@ == user_id
    &&& s.refresh_token@ == token
    &&& s.ip_address@ == ip
    &&& s.user_agent@ == ua
    &&& s.is_active
    &&& s.expires_at == now + REFRESH_TOKEN_SECONDS
    &&& s.last_accessed_at == now
    &&& s.created_at == now
}

/// `access` and `refresh` are the tokens issued at `now` under `secret` to
/// user `u` for session `session_id`.
pub open spec fn is_pair_for(
    secret: Seq<char>,
    u: User,
    session_id: Seq<char>,
    now: int,
    access: Seq<char>,
    refresh: Seq<char>,
) -> bool {
    &&& jwt_signed(claims_json(issued_claims(u.id@, u.email@, u.username@, u.role@, session_id,
        now, ACCESS_TOKEN_SECONDS as int)), secret) == Some(access)
    &&& jwt_signed(claims_json(issued_claims(u.id@, u.email@, u.username@, u.role@, session_id,
        now, REFRESH_TOKEN_SECONDS as int)), secret) == Some(refresh)
    &&& sole_claims(secret, access, issued_claims(u.id@, u.email@, u.username@, u.role@, session_id, now,
        ACCESS_TOKEN_SECONDS as int))
    &&& sole_claims(secret, refresh, issued_claims(u.id@, u.email@, u.username@, u.role@, session_id, now,
        REFRESH_TOKEN_SECONDS as int))
}

/// The token signed for the given claims fields, issued at `now` to live
/// `lifetime` seconds.
pub open spec fn signed_token(
    secret: Seq<char>,
    user_id: Seq<char>,
    email: Seq<char>,
    username: Seq<char>,
    role: Seq<char>,
    session_id: Seq<char>,
    now: int,
    lifetime: int,
) -> Option<Seq<char>> {
    jwt_signed(claims_json(issued_claims(user_id, email, username, role, session_id, now, lifetime)), secret)
}

/// Issuing a pair bound to `session_id` fails: one of the two payloads
/// cannot be signed, or the refresh token is already held by a session.
pub open spec fn issue_blocked(
    sessions: Seq<Session>,
    secret: Seq<char>,
    user_id: Seq<char>,
    email: Seq<char>,
    username: Seq<char>,
    role: Seq<char>,
    session_id: Seq<char>,
    now: int,
) -> bool {
    ||| signed_token(secret, user_id, email, username, role, session_id, now, ACCESS_TOKEN_SECONDS as int) is None
    ||| match signed_token(secret, user_id, email, username, role, session_id, now, REFRESH_TOKEN_SECONDS as int) {
        None => true,
        Some(t) => token_held(sessions, t),
    }
}

/// Both tokens of a pair bound to `session_id` are signed.
pub open spec fn pair_signs(
    secret: Seq<char>,
    user_id: Seq<char>,
    email: Seq<char>,
    username: Seq<char>,
    role: Seq<char>,
    session_id: Seq<char>,
    now: int,
) -> bool {
    &&& signed_token(secret, user_id, email, username, role, session_id, now, ACCESS_TOKEN_SECONDS as int) is Some
    &&& signed_token(secret, user_id, email, username, role, session_id, now, REFRESH_TOKEN_SECONDS as int) is Some
}

/// Some session has id `id`.
pub open spec fn session_id_taken(sessions: Seq<Session>, id: Seq<char>) -> bool {
    exists|k: int| 0 <= k < sessions.len() && (#[trigger] sessions[k]).id@ == id
}

/// What a client sees of `u`.
pub open spec fn is_response_for(r: UserResponse, u: User) -> bool {
    &&& r.id == u.id
    &&& r.email == u.email
    &&& r.username == u.username
    &&& r.first_name == u.first_name
    &&& r.last_name == u.last_name
    &&& r.avatar == u.avatar
    &&& r.is_email_verified == u.is_email_verified
    &&& r.is_two_factor_enabled == u.is_two_factor_enabled
    &&& r.role == u.role
    &&& r.created_at == u.created_at
    &&& r.last_login_at == u.last_login_at
}

pub fn user_to_response(u: &User) -> (r: UserResponse)
    ensures
        is_response_for(r, *u),
{
    UserResponse {
        id: u.id.clone(),
        email: u.email.clone(),
        username: u.username.clone(),
        first_name: clone_opt(&u.first_name),
        last_name: clone_opt(&u.last_name),
        avatar: clone_opt(&u.avatar),
        is_email_verified: u.is_email_verified,
        is_two_factor_enabled: u.is_two_factor_enabled,
        role: u.role.clone(),
        created_at: u.created_at,
        last_login_at: u.last_login_at,
    }
}

/// Where a login attempt stops, before any token is issued.
pub enum LoginGate {
    /// The stored hash cannot be read.
    Unreadable,
    WrongPassword,
    /// The account has a second factor and no code came.
    CodeRequired,
    /// The stored second-factor secret cannot be used.
    SecretUnusable,
    WrongCode,
    Pass,
}

pub open spec fn login_gate(u: User, password: Seq<char>, code: Option<Seq<char>>, now: int) -> LoginGate {
    match bcrypt_verdict(password, u.password_hash@) {
        None => LoginGate::Unreadable,
        Some(false) => LoginGate::WrongPassword,
        Some(true) => if !u.is_two_factor_enabled {
            LoginGate::Pass
        } else {
            match code {
                None => LoginGate::CodeRequired,
                Some(c) => match code_outcome(opt_view(u.two_factor_secret), c, now) {
                    Err(_) => LoginGate::SecretUnusable,
                    Ok(false) => LoginGate::WrongCode,
                    Ok(true) => LoginGate::Pass,
                },
            }
        },
    }
}

/// `b` is `a` after a login at `now` from `ip`.
pub open spec fn is_logged_in(a: User, b: User, ip: Seq<char>, now: int) -> bool {
    &&& b.id == a.id
    &&& b.email == a.email
    &&& b.username == a.username
    &&& b.password_hash == a.password_hash
    &&& b.first_name == a.first_name
    &&& b.last_name == a.last_name
    &&& b.avatar == a.avatar
    &&& b.is_email_verified == a.is_email_verified
    &&& b.email_verification_token == a.email_verification_token
    &&& b.email_verification_expires_at == a.email_verification_expires_at
    &&& b.is_two_factor_enabled == a.is_two_factor_enabled
    &&& b.two_factor_secret == a.two_factor_secret
    &&& b.role == a.role
    &&& b.is_active == a.is_active
    &&& b.last_login_at == Some(now as i64)
    &&& opt_view(b.last_login_ip) == Some(ip)
    &&& b.created_at == a.created_at
    &&& b.updated_at == now
}

/// `b` is session `a` after its refresh token was rotated to `token` at `now`.
pub open spec fn is_rotated(a: Session, b: Session, token: Seq<char>, now: int) -> bool {
    &&& b.id == a.id
    &&& b.user_id == a.user_id
    &&& b.refresh_token@ == token
    &&& b.device_info == a.device_info
    &&& b.ip_address == a.ip_address
    &&& b.user_agent == a.user_agent
    &&& b.location == a.location
    &&& b.is_active == a.is_active
    &&& b.expires_at == a.expires_at
    &&& b.last_accessed_at == now
    &&& b.created_at == a.created_at
    &&& b.updated_at == now
}

/// Session `s` is the live session `session_id` of `user_id`.
pub open spec fn is_session_of(s: Session, user_id: Seq<char>, session_id: Seq<char>) -> bool {
    s.user_id@ == user_id && s.id@ == session_id && s.is_active
}

/// The live sessions of `user_id`, in their order.
pub open spec fn live_sessions_of(ss: Seq<Session>, user_id: Seq<char>) -> Seq<Session>
    decreases ss.len(),
{
    if ss.len() == 0 {
        ss
    } else {
        let rest = live_sessions_of(ss.drop_last(), user_id);
        if ss.last().user_id@ == user_id && ss.last().is_active {
            rest.push(ss.last())
        } else {
            rest
        }
    }
}

/// `d` is the device-list entry for session `s`.
pub open spec fn is_device_for(d: DeviceInfo, s: Session) -> bool {
    &&& d.device_id == s.id
    &&& d.device_name@ == device_class_of(s.user_agent@)
    &&& d.browser@ == browser_of(s.user_agent@)
    &&& d.os@ == os_of(s.user_agent@)
    &&& d.ip_address == s.ip_address
    &&& d.location == s.location
    &&& d.last_seen == s.last_accessed_at
    &&& !d.is_current_device
    &&& !d.is_trusted
}

/// Event `e` is `user_id`'s and passes the optional type and severity filters.
pub open spec fn event_matches(
    e: SecurityEvent,
    user_id: Seq<char>,
    kind: Option<Seq<char>>,
    severity: Option<Seq<char>>,
) -> bool {
    &&& e.user_id@ == user_id
    &&& (kind matches Some(k) ==> event_type_name(e.event_type) == k)
    &&& (severity matches Some(v) ==> severity_name(e.severity) == v)
}

/// `s` with `e` placed before the first event that is not later than `e`.
pub open spec fn insert_newest(s: Seq<SecurityEvent>, e: SecurityEvent) -> Seq<SecurityEvent>
    decreases s.len(),
{
    if s.len() == 0 {
        seq![e]
    } else if s[0].created_at <= e.created_at {
        seq![e] + s
    } else {
        seq![s[0]] + insert_newest(s.skip(1), e)
    }
}

/// Events in non-increasing order of `created_at`.
pub open spec fn newest_ordered(s: Seq<SecurityEvent>) -> bool {
    forall|i: int, j: int| 0 <= i < j < s.len() ==> s[i].created_at >= s[j].created_at
}

/// The matching events, newest first by `created_at`; among events of the
/// same time, the one recorded later comes first.
pub open spec fn newest_first(
    evs: Seq<SecurityEvent>,
    user_id: Seq<char>,
    kind: Option<Seq<char>>,
    severity: Option<Seq<char>>,
) -> Seq<SecurityEvent>
    decreases evs.len(),
{
    if evs.len() == 0 {
        evs
    } else {
        let rest = newest_first(evs.drop_last(), user_id, kind, severity);
        if event_matches(evs.last(), user_id, kind, severity) {
            insert_newest(rest, evs.last())
        } else {
            rest
        }
    }
}

pub open spec fn min(a: int, b: int) -> int {
    if a < b { a } else { b }
}

/// Page `page` (from 1) of `limit` items of `all`.
pub open spec fn page_of<T>(all: Seq<T>, page: int, limit: int) -> Seq<T> {
    let start = min((page - 1) * limit, all.len() as int);
    let end = min(start + limit, all.len() as int);
    all.subrange(start, end)
}

/// The number of pages of `limit` items that `total` items fill.
pub open spec fn page_count(total: int, limit: int) -> int {
    (total + limit - 1) / limit
}

/// Which of a user's sessions a revocation removes.
#[derive(Clone, Copy)]
pub enum SessionMatch {
    /// Every session of the user.
    All,
    /// The session with the given id.
    Id,
    /// The session holding the given refresh token.
    Token,
}

pub open spec fn selected(s: Session, user_id: Seq<char>, by: SessionMatch, value: Seq<char>) -> bool {
    s.user_id@ == user_id && match by {
        SessionMatch::All => true,
        SessionMatch::Id => s.id@ == value,
        SessionMatch::Token => s.refresh_token@ == value,
    }
}

/// The sessions that a revocation leaves, in their order.
pub open spec fn kept(ss: Seq<Session>, user_id: Seq<char>, by: SessionMatch, value: Seq<char>) -> Seq<Session>
    decreases ss.len(),
{
    if ss.len() == 0 {
        ss
    } else {
        let rest = kept(ss.drop_last(), user_id, by, value);
        if selected(ss.last(), user_id, by, value) {
            rest
        } else {
            rest.push(ss.last())
        }
    }
}

/// The authentication subsystem's state: accounts, live sessions and the
/// security event log, with the token issuer that holds the signing secret.
pub struct AuthService {
    tokens: TokenIssuer,
    users: Vec<User>,
    sessions: Vec<Session>,
    events: Vec<SecurityEvent>,
}

impl AuthService {
    pub closed spec fn secret(&self) -> Seq<char> {
        self.tokens.secret()
    }

    pub closed spec fn users(&self) -> Seq<User> {
        self.users@
    }

    pub closed spec fn sessions(&self) -> Seq<Session> {
        self.sessions@
    }

    pub closed spec fn events(&self) -> Seq<SecurityEvent> {
        self.events@
    }

    /// User ids, emails and usernames are each unique; session ids and
    /// refresh tokens are each unique.
    pub closed spec fn wf(&self) -> bool {
        &&& forall|i: int, j: int|
            0 <= i < j < self.users@.len() ==> self.users@[i].id@ != self.users@[j].id@
                && self.users@[i].email@ != self.users@[j].email@
                && self.users@[i].username@ != self.users@[j].username@
        &&& forall|i: int, j: int|
            0 <= i < j < self.sessions@.len() ==> self.sessions@[i].id@ != self.sessions@[j].id@
                && self.sessions@[i].refresh_token@ != self.sessions@[j].refresh_token@
        &&& forall|i: int| 0 <= i < self.events@.len() ==> event_id_at(#[trigger] self.events@[i].id@, i)
    }

    /// An empty service signing with `jwt_secret`.
    pub fn new(jwt_secret: String) -> (r: Self)
        ensures
            r.wf(),
            r.secret() == jwt_secret@,
            r.users().len() == 0,
            r.sessions().len() == 0,
            r.events().len() == 0,
    {
        AuthService { tokens: TokenIssuer::new(jwt_secret), users: Vec::new(), sessions: Vec::new(), events: Vec::new() }
    }

    fn find_user(&self, key: UserKey, value: &str) -> (r: Option<usize>)
        ensures
            r matches Some(i) ==> i < self.users@.len() && user_key(self.users@[i as int], key) == value@,
            r is None ==> !has_user(self.users@, key, value@),
    {
        let mut i: usize = 0;
        while i < self.users.len()
            invariant
                i <= self.users@.len(),
                forall|k: int| 0 <= k < i ==> user_key(#[trigger] self.users@[k], key) != value@,
            decreases self.users@.len() - i,
        {
            let u = &self.users[i];
            let field = match key {
                UserKey::Id => u.id.as_str(),
                UserKey::Email => u.email.as_str(),
                UserKey::Username => u.username.as_str(),
            };
            if str_eq(field, value) {
                return Some(i);
            }
            i = i + 1;
        }
        None
    }

    fn find_token(&self, token: &str) -> (r: Option<usize>)
        ensures
            r matches Some(i) ==> i < self.sessions@.len() && self.sessions@[i as int].refresh_token@ == token@,
            r is None ==> !token_held(self.sessions@, token@),
    {
        let mut i: usize = 0;
        while i < self.sessions.len()
            invariant
                i <= self.sessions@.len(),
                forall|k: int| 0 <= k < i ==> (#[trigger] self.sessions@[k]).refresh_token@ != token@,
            decreases self.sessions@.len() - i,
        {
            if str_eq(self.sessions[i].refresh_token.as_str(), token) {
                return Some(i);
            }
            i = i + 1;
        }
        None
    }

    fn session_id_used(&self, id: &str) -> (r: bool)
        ensures
            r == exists|k: int| 0 <= k < self.sessions@.len() && (#[trigger] self.sessions@[k]).id@ == id@,
    {
        let mut i: usize = 0;
        while i < self.sessions.len()
            invariant
                i <= self.sessions@.len(),
                forall|k: int| 0 <= k < i ==> (#[trigger] self.sessions@[k]).id@ != id@,
            decreases self.sessions@.len() - i,
        {
            if str_eq(self.sessions[i].id.as_str(), id) {
                return true;
            }
            i = i + 1;
        }
        false
    }

    /// Appends one event to the log. Appending cannot fail, so an audit
    /// write never blocks the operation that triggered it.
    fn record(
        &mut self,
        user_id: &str,
        kind: EventType,
        description: String,
        ip: &str,
        ua: &str,
        severity: Severity,
        now: i64,
    )
        requires
            old(self).wf(),
        ensures
            final(self).wf(),
            forall|k: int| 0 <= k < old(self).events@.len() ==> (#[trigger] old(self).events@[k]).id@
                != final(self).events@.last().id@,
            final(self).tokens == old(self).tokens,
            final(self).users == old(self).users,
            final(self).sessions == old(self).sessions,
            final(self).events@.len() == old(self).events@.len() + 1,
            final(self).events@.drop_last() == old(self).events@,
            is_event(final(self).events@.last(), user_id@, kind, severity, ip@, ua@, now as int),
            final(self).events@.last().description == description,
    {
        let mut id = new_uuid();
        id.append("-");
        let position = self.events.len();
        push_decimal(&mut id, position as u64);
        proof {
            reveal_strlit("-");
            assert(id@.skip(37) =~= decimal(position as nat));
            assert forall|k: int| 0 <= k < old(self).events@.len() implies (#[trigger] old(self).events@[k]).id@
                != id@ by {
                lemma_event_ids_differ(old(self).events@[k].id@, id@, k, position as int);
            }
        }
        let e = SecurityEvent {
            id,
            user_id: user_id.to_owned(),
            event_type: kind,
            description,
            ip_address: ip.to_owned(),
            user_agent: ua.to_owned(),
            location: None,
            severity,
            metadata: None,
            created_at: now,
        };
        self.events.push(e);
        assert(self.events@.drop_last() =~= old(self).events@);
        assert forall|i: int| 0 <= i < self.events@.len() implies event_id_at(#[trigger] self.events@[i].id@, i) by {
            if i < old(self).events@.len() {
                assert(self.events@[i] == old(self).events@[i]);
            }
        }
    }

    /// Opens a session holding `token` under a given id.
    fn open_session(&mut self, id: String, user_id: &str, token: String, ip: &str, ua: &str, now: i64)
        requires
            old(self).wf(),
            valid_now(now),
            forall|k: int| 0 <= k < old(self).sessions@.len() ==> (#[trigger] old(self).sessions@[k]).id@ != id@,
            !token_held(old(self).sessions@, token@),
        ensures
            final(self).wf(),
            final(self).tokens == old(self).tokens,
            final(self).users == old(self).users,
            final(self).events == old(self).events,
            final(self).sessions@ == old(self).sessions@.push(final(self).sessions@.last()),
            final(self).sessions@.last().id@ == id@,
            is_new_session(final(self).sessions@.last(), user_id@, token@, ip@, ua@, now as int),
    {
        let s = Session {
            id,
            user_id: user_id.to_owned(),
            refresh_token: token,
            device_info: None,
            ip_address: ip.to_owned(),
            user_agent: ua.to_owned(),
            location: None,
            is_active: true,
            expires_at: now + REFRESH_TOKEN_SECONDS,
            last_accessed_at: now,
            created_at: now,
            updated_at: now,
        };
        let ghost old_sessions = self.sessions@;
        self.sessions.push(s);
        proof {
            assert forall|i: int, j: int| 0 <= i < j < self.sessions@.len() implies
                self.sessions@[i].id@ != self.sessions@[j].id@
                && self.sessions@[i].refresh_token@ != self.sessions@[j].refresh_token@ by {
                if j == old_sessions.len() {
                    assert(old_sessions[i] == self.sessions@[i]);
                }
            }
        }
    }

    fn add_user(&mut self, u: User)
        requires
            old(self).wf(),
            !has_user(old(self).users@, UserKey::Id, u.id@),
            !has_user(old(self).users@, UserKey::Email, u.email@),
            !has_user(old(self).users@, UserKey::Username, u.username@),
        ensures
            final(self).wf(),
            final(self).tokens == old(self).tokens,
            final(self).sessions == old(self).sessions,
            final(self).events == old(self).events,
            final(self).users@ == old(self).users@.push(u),
    {
        let ghost old_users = self.users@;
        self.users.push(u);
        proof {
            assert forall|i: int, j: int| 0 <= i < j < self.users@.len() implies
                self.users@[i].id@ != self.users@[j].id@
                && self.users@[i].email@ != self.users@[j].email@
                && self.users@[i].username@ != self.users@[j].username@ by {
                if j == old_users.len() {
                    assert(old_users[i] == self.users@[i]);
                    assert(user_key(old_users[i], UserKey::Id) == old_users[i].id@);
                    assert(user_key(old_users[i], UserKey::Email) == old_users[i].email@);
                    assert(user_key(old_users[i], UserKey::Username) == old_users[i].username@);
                }
            }
        }
    }

    /// Registers an account: the email is checked first, then the username,
    /// before anything is written. The password is then hashed with a fresh
    /// salt, ids are drawn, and `open_account` does the rest. On success the
    /// account, a `register` event and a session for the returned refresh
    /// token are added together; on any failure nothing changes.
    pub fn register(
        &mut self,
        request: RegisterRequest,
        ip_address: String,
        user_agent: String,
        now: i64,
    ) -> (r: Result<AuthResponse, AuthError>)
        requires
            old(self).wf(),
            valid_now(now),
        ensures
            final(self).wf(),
            final(self).secret() == old(self).secret(),
            has_user(old(self).users(), UserKey::Email, request.email@) ==> r == Err::<AuthResponse, AuthError>(
                AuthError::EmailTaken),
            !has_user(old(self).users(), UserKey::Email, request.email@) && has_user(old(self).users(),
                UserKey::Username, request.username@) ==> r == Err::<AuthResponse, AuthError>(AuthError::UsernameTaken),
            !has_user(old(self).users(), UserKey::Email, request.email@) && !has_user(old(self).users(),
                UserKey::Username, request.username@) ==> (r is Ok || r == Err::<AuthResponse, AuthError>(
                AuthError::Internal)),
            r is Err ==> final(self).users() == old(self).users() && final(self).sessions() == old(
                self).sessions() && final(self).events() == old(self).events(),
            r matches Ok(resp) ==> {
                let u = final(self).users().last();
                let s = final(self).sessions().last();
                &&& final(self).users() == old(self).users().push(u)
                &&& u.email@ == request.email@
                &&& u.username@ == request.username@
                &&& u.first_name == request.first_name
                &&& u.last_name == request.last_name
                &&& u.role@ == "user"@
                &&& u.is_active && !u.is_email_verified && !u.is_two_factor_enabled
                &&& u.two_factor_secret is None
                &&& u.created_at == now
                &&& !has_user(old(self).users(), UserKey::Id, u.id@)
                &&& !token_held(old(self).sessions(), resp.refresh_token@)
                &&& resp.access_token@.len() > 0 && resp.refresh_token@.len() > 0
                &&& bcrypt_verdict(request.password@, u.password_hash@) == Some(true)
                &&& u.password_hash@.len() == 60
                &&& !(request.password@.len() == 60 && request.password@[0] == '$') ==> u.password_hash@
                    != request.password@
                &&& has_user(final(self).users(), UserKey::Email, request.email@)
                &&& u.password_hash@[0] == '$'
                &&& final(self).sessions() == old(self).sessions().push(s)
                &&& is_new_session(s, u.id@, resp.refresh_token@, ip_address@, user_agent@, now as int)
                &&& final(self).events() == old(self).events().push(final(self).events().last())
                &&& is_event(final(self).events().last(), u.id@, EventType::Register, Severity::Low,
                    ip_address@, user_agent@, now as int)
                &&& is_pair_for(final(self).secret(), u, s.id@, now as int, resp.access_token@,
                    resp.refresh_token@)
                &&& is_response_for(resp.user, u)
                &&& resp.expires_in == ACCESS_TOKEN_SECONDS
            },
    {
        if self.find_user(UserKey::Email, request.email.as_str()).is_some() {
            return Err(AuthError::EmailTaken);
        }
        if self.find_user(UserKey::Username, request.username.as_str()).is_some() {
            return Err(AuthError::UsernameTaken);
        }
        let ghost password = request.password@;
        let password_hash = hash_password(request.password.as_str())?;
        let user_id = new_uuid();
        let session_id = new_uuid();
        let r = self.open_account(request, password_hash, user_id, session_id, ip_address, user_agent, now);
        proof {
            if r is Ok {
                let u = self.users().last();
                assert(u.password_hash@[0] == '$');
            }
        }
        r
    }

    /// The part of registration after the random draws: given the password
    /// hash, the new user's id and the session id, opens the account.
    /// `Internal` comes exactly where the user id or the session id is already
    /// in use, or the pair cannot be issued (a payload cannot be signed, or the
    /// refresh token is already held).
    pub fn open_account(
        &mut self,
        request: RegisterRequest,
        password_hash: String,
        user_id: String,
        session_id: String,
        ip_address: String,
        user_agent: String,
        now: i64,
    ) -> (r: Result<AuthResponse, AuthError>)
        requires
            old(self).wf(),
            valid_now(now),
        ensures
            final(self).wf(),
            final(self).secret() == old(self).secret(),
            has_user(old(self).users(), UserKey::Email, request.email@) ==> r == Err::<AuthResponse, AuthError>(
                AuthError::EmailTaken),
            !has_user(old(self).users(), UserKey::Email, request.email@) && has_user(old(self).users(),
                UserKey::Username, request.username@) ==> r == Err::<AuthResponse, AuthError>(AuthError::UsernameTaken),
            !has_user(old(self).users(), UserKey::Email, request.email@) && !has_user(old(self).users(),
                UserKey::Username, request.username@) ==> (r == Err::<AuthResponse, AuthError>(AuthError::Internal)
                <==> (has_user(old(self).users(), UserKey::Id, user_id@) || session_id_taken(old(self).sessions(),
                session_id@) || issue_blocked(old(self).sessions(), old(self).secret(), user_id@, request.email@,
                request.username@, "user"@, session_id@, now as int))),
            !has_user(old(self).users(), UserKey::Email, request.email@) && !has_user(old(self).users(),
                UserKey::Username, request.username@) && !has_user(old(self).users(), UserKey::Id, user_id@)
                && !session_id_taken(old(self).sessions(), session_id@) ==> pair_signs(old(self).secret(), user_id@,
                request.email@, request.username@, "user"@, session_id@, now as int),
            !has_user(old(self).users(), UserKey::Email, request.email@) && !has_user(old(self).users(),
                UserKey::Username, request.username@) ==> (r is Ok || r == Err::<AuthResponse, AuthError>(
                AuthError::Internal)),
            r is Err ==> final(self).users() == old(self).users() && final(self).sessions() == old(
                self).sessions() && final(self).events() == old(self).events(),
            r matches Ok(resp) ==> {
                let u = final(self).users().last();
                let s = final(self).sessions().last();
                &&& final(self).users() == old(self).users().push(u)
                &&& u.id@ == user_id@
                &&& !has_user(old(self).users(), UserKey::Id, u.id@)
                &&& u.email@ == request.email@
                &&& u.username@ == request.username@
                &&& u.first_name == request.first_name
                &&& u.last_name == request.last_name
                &&& u.role@ == "user"@
                &&& u.is_active && !u.is_email_verified && !u.is_two_factor_enabled
                &&& u.two_factor_secret is None
                &&& u.created_at == now
                &&& u.password_hash == password_hash
                &&& has_user(final(self).users(), UserKey::Email, request.email@)
                &&& final(self).sessions() == old(self).sessions().push(s)
                &&& s.id@ == session_id@
                &&& !token_held(old(self).sessions(), resp.refresh_token@)
                &&& is_new_session(s, u.id@, resp.refresh_token@, ip_address@, user_agent@, now as int)
                &&& final(self).events() == old(self).events().push(final(self).events().last())
                &&& is_event(final(self).events().last(), u.id@, EventType::Register, Severity::Low,
                    ip_address@, user_agent@, now as int)
                &&& is_pair_for(final(self).secret(), u, s.id@, now as int, resp.access_token@,
                    resp.refresh_token@)
                &&& resp.access_token@.len() > 0 && resp.refresh_token@.len() > 0
                &&& is_response_for(resp.user, u)
                &&& resp.expires_in == ACCESS_TOKEN_SECONDS
            },
    {
        if self.find_user(UserKey::Email, request.email.as_str()).is_some() {
            return Err(AuthError::EmailTaken);
        }
        if self.find_user(UserKey::Username, request.username.as_str()).is_some() {
            return Err(AuthError::UsernameTaken);
        }
        if self.find_user(UserKey::Id, user_id.as_str()).is_some() {
            return Err(AuthError::Internal);
        }
        if self.session_id_used(session_id.as_str()) {
            return Err(AuthError::Internal);
        }
        proof { reveal_strlit("user"); }
        let pair = match self.tokens.issue_pair(user_id.as_str(), request.email.as_str(),
            request.username.as_str(), "user", session_id.as_str(), now) {
            Ok(p) => p,
            Err(e) => return Err(e),
        };
        if self.find_token(pair.refresh_token.as_str()).is_some() {
            return Err(AuthError::Internal);
        }
        let TokenPair { access_token, refresh_token } = pair;
        let user = User {
            id: user_id,
            email: request.email,
            username: request.username,
            password_hash,
            first_name: request.first_name,
            last_name: request.last_name,
            avatar: None,
            is_email_verified: false,
            email_verification_token: None,
            email_verification_expires_at: None,
            is_two_factor_enabled: false,
            two_factor_secret: None,
            role: "user".to_owned(),
            is_active: true,
            last_login_at: None,
            last_login_ip: None,
            created_at: now,
            updated_at: now,
        };
        let response_user = user_to_response(&user);
        let id_copy = user.id.clone();
        self.add_user(user);
        proof {
            let last = self.users@.len() - 1;
            assert(user_key(self.users@[last], UserKey::Email) == request.email@);
        }
        self.record(id_copy.as_str(), EventType::Register, "user registered".to_owned(),
            ip_address.as_str(), user_agent.as_str(), Severity::Low, now);
        let token_copy = refresh_token.clone();
        self.open_session(session_id, id_copy.as_str(), token_copy, ip_address.as_str(),
            user_agent.as_str(), now);
        Ok(AuthResponse { user: response_user, access_token, refresh_token, expires_in: ACCESS_TOKEN_SECONDS })
    }

    /// Nothing but the event log changed between `a` and `b`.
    pub open spec fn only_events_changed(a: AuthService, b: AuthService) -> bool {
        &&& b.secret() == a.secret()
        &&& b.users() == a.users()
        &&& b.sessions() == a.sessions()
    }

    /// Nothing changed between `a` and `b`.
    pub open spec fn unchanged(a: AuthService, b: AuthService) -> bool {
        &&& Self::only_events_changed(a, b)
        &&& b.events() == a.events()
    }

    /// The outcome of a login of user `i` that passed its checks: an internal
    /// failure that changed nothing, or the updated account, one `login` event
    /// and exactly one new session for the returned refresh token.
    pub open spec fn login_done(
        a: AuthService,
        b: AuthService,
        i: int,
        r: Result<AuthResponse, AuthError>,
        ip_address: Seq<char>,
        user_agent: Seq<char>,
        now: int,
    ) -> bool {
        let u = a.users()[i];
        match r {
            Err(e) => e == AuthError::Internal && Self::unchanged(a, b),
            Ok(resp) => {
                let v = b.users()[i];
                let s = b.sessions().last();
                &&& b.secret() == a.secret()
                &&& b.users().len() == a.users().len()
                &&& (forall|j: int| 0 <= j < a.users().len() && j != i ==> #[trigger] b.users()[j] == a.users()[j])
                &&& is_logged_in(u, v, ip_address, now)
                &&& b.sessions() == a.sessions().push(s)
                &&& is_new_session(s, u.id@, resp.refresh_token@, ip_address, user_agent, now)
                &&& b.events() == a.events().push(b.events().last())
                &&& is_event(b.events().last(), u.id@, EventType::Login, Severity::Low, ip_address, user_agent, now)
                &&& is_pair_for(b.secret(), u, s.id@, now, resp.access_token@, resp.refresh_token@)
                &&& resp.access_token@.len() > 0 && resp.refresh_token@.len() > 0
                &&& !token_held(a.sessions(), resp.refresh_token@)
                &&& is_response_for(resp.user, v)
                &&& resp.expires_in == ACCESS_TOKEN_SECONDS
            },
        }
    }

    /// `login_done`, with the drawn session id `session_id`: `Internal` comes
    /// exactly where that id is in use or the pair cannot be issued.
    pub open spec fn login_done_with(
        a: AuthService,
        b: AuthService,
        i: int,
        session_id: Seq<char>,
        r: Result<AuthResponse, AuthError>,
        ip_address: Seq<char>,
        user_agent: Seq<char>,
        now: int,
    ) -> bool {
        let u = a.users()[i];
        &&& Self::login_done(a, b, i, r, ip_address, user_agent, now)
        &&& (r == Err::<AuthResponse, AuthError>(AuthError::Internal) <==> (session_id_taken(a.sessions(), session_id)
            || issue_blocked(a.sessions(), a.secret(), u.id@, u.email@, u.username@, u.role@, session_id, now)))
        &&& (!session_id_taken(a.sessions(), session_id) ==> pair_signs(a.secret(), u.id@, u.email@, u.username@,
            u.role@, session_id, now))
        &&& (r is Ok ==> b.sessions().last().id@ == session_id)
    }

    /// Logs in with email and password, and with a current TOTP code where the
    /// account has a second factor. A wrong password records `login_failed`, a
    /// wrong code `login_failed_2fa`. On success the account's last login is
    /// updated, a `login` event recorded and exactly one session opened for the
    /// returned refresh token.
    pub fn login(
        &mut self,
        request: LoginRequest,
        ip_address: String,
        user_agent: String,
        now: i64,
    ) -> (r: Result<AuthResponse, AuthError>)
        requires
            old(self).wf(),
            valid_now(now),
        ensures
            final(self).wf(),
            final(self).secret() == old(self).secret(),
            !has_user(old(self).users(), UserKey::Email, request.email@) ==> r == Err::<AuthResponse, AuthError>(
                AuthError::InvalidCredentials) && Self::unchanged(*old(self), *final(self)),
            forall|i: int| 0 <= i < old(self).users().len() && #[trigger] old(self).users()[i].email@
                == request.email@ ==> {
                let u = old(self).users()[i];
                match login_gate(u, request.password@, opt_view(request.two_factor_code), now as int) {
                    LoginGate::Unreadable => r == Err::<AuthResponse, AuthError>(AuthError::Internal)
                        && Self::unchanged(*old(self), *final(self)),
                    LoginGate::WrongPassword => r == Err::<AuthResponse, AuthError>(AuthError::InvalidCredentials)
                        && Self::only_events_changed(*old(self), *final(self))
                        && final(self).events() == old(self).events().push(final(self).events().last())
                        && is_event(final(self).events().last(), u.id@, EventType::LoginFailed, Severity::Medium,
                            ip_address@, user_agent@, now as int),
                    LoginGate::CodeRequired => r == Err::<AuthResponse, AuthError>(AuthError::TwoFactorRequired)
                        && Self::unchanged(*old(self), *final(self)),
                    LoginGate::SecretUnusable => r == Err::<AuthResponse, AuthError>(AuthError::Internal)
                        && Self::unchanged(*old(self), *final(self)),
                    LoginGate::WrongCode => r == Err::<AuthResponse, AuthError>(AuthError::InvalidTwoFactorCode)
                        && Self::only_events_changed(*old(self), *final(self))
                        && final(self).events() == old(self).events().push(final(self).events().last())
                        && is_event(final(self).events().last(), u.id@, EventType::LoginFailed2fa,
                            Severity::Medium, ip_address@, user_agent@, now as int),
                    LoginGate::Pass => Self::login_done(*old(self), *final(self), i, r, ip_address@,
                        user_agent@, now as int),
                }
            },
    {
        let session_id = new_uuid();
        self.login_with(request, session_id, ip_address, user_agent, now)
    }

    /// The login, given the drawn session id for the new session; `Internal`
    /// comes exactly where that id is in use or the pair cannot be issued.
    pub fn login_with(
        &mut self,
        request: LoginRequest,
        session_id: String,
        ip_address: String,
        user_agent: String,
        now: i64,
    ) -> (r: Result<AuthResponse, AuthError>)
        requires
            old(self).wf(),
            valid_now(now),
        ensures
            final(self).wf(),
            final(self).secret() == old(self).secret(),
            !has_user(old(self).users(), UserKey::Email, request.email@) ==> r == Err::<AuthResponse, AuthError>(
                AuthError::InvalidCredentials) && Self::unchanged(*old(self), *final(self)),
            forall|i: int| 0 <= i < old(self).users().len() && #[trigger] old(self).users()[i].email@
                == request.email@ ==> {
                let u = old(self).users()[i];
                match login_gate(u, request.password@, opt_view(request.two_factor_code), now as int) {
                    LoginGate::Unreadable => r == Err::<AuthResponse, AuthError>(AuthError::Internal)
                        && Self::unchanged(*old(self), *final(self)),
                    LoginGate::WrongPassword => r == Err::<AuthResponse, AuthError>(AuthError::InvalidCredentials)
                        && Self::only_events_changed(*old(self), *final(self))
                        && final(self).events() == old(self).events().push(final(self).events().last())
                        && is_event(final(self).events().last(), u.id@, EventType::LoginFailed, Severity::Medium,
                            ip_address@, user_agent@, now as int),
                    LoginGate::CodeRequired => r == Err::<AuthResponse, AuthError>(AuthError::TwoFactorRequired)
                        && Self::unchanged(*old(self), *final(self)),
                    LoginGate::SecretUnusable => r == Err::<AuthResponse, AuthError>(AuthError::Internal)
                        && Self::unchanged(*old(self), *final(self)),
                    LoginGate::WrongCode => r == Err::<AuthResponse, AuthError>(AuthError::InvalidTwoFactorCode)
                        && Self::only_events_changed(*old(self), *final(self))
                        && final(self).events() == old(self).events().push(final(self).events().last())
                        && is_event(final(self).events().last(), u.id@, EventType::LoginFailed2fa,
                            Severity::Medium, ip_address@, user_agent@, now as int),
                    LoginGate::Pass => Self::login_done_with(*old(self), *final(self), i, session_id@, r,
                        ip_address@, user_agent@, now as int),
                }
            },
    {
        let i = match self.find_user(UserKey::Email, request.email.as_str()) {
            None => {
                proof {
                    assert forall|j: int| 0 <= j < self.users@.len() implies #[trigger] self.users@[j].email@
                        != request.email@ by {
                        assert(user_key(self.users@[j], UserKey::Email) == self.users@[j].email@);
                    }
                }
                return Err(AuthError::InvalidCredentials);
            },
            Some(i) => i,
        };
        proof {
            assert forall|j: int| 0 <= j < self.users@.len() && #[trigger] self.users@[j].email@
                == request.email@ implies j == i by {
                if j != i {
                    assert(user_key(self.users@[i as int], UserKey::Email) == self.users@[i as int].email@);
                }
            }
        }
        let password_ok = verify_password(request.password.as_str(), self.users[i].password_hash.as_str())?;
        if !password_ok {
            let uid = self.users[i].id.clone();
            self.record(uid.as_str(), EventType::LoginFailed, "wrong password".to_owned(),
                ip_address.as_str(), user_agent.as_str(), Severity::Medium, now);
            return Err(AuthError::InvalidCredentials);
        }
        if self.users[i].is_two_factor_enabled {
            match &request.two_factor_code {
                None => return Err(AuthError::TwoFactorRequired),
                Some(code) => {
                    let good = match verify_code(&self.users[i].two_factor_secret, code.as_str(), now as u64) {
                        Ok(v) => v,
                        Err(e) => return Err(e),
                    };
                    if !good {
                        let uid = self.users[i].id.clone();
                        self.record(uid.as_str(), EventType::LoginFailed2fa,
                            "wrong two-factor code".to_owned(), ip_address.as_str(), user_agent.as_str(),
                            Severity::Medium, now);
                        return Err(AuthError::InvalidTwoFactorCode);
                    }
                },
            }
        }
        self.finish_login(i, session_id, ip_address, user_agent, now)
    }

    fn finish_login(&mut self, i: usize, session_id: String, ip_address: String, user_agent: String, now: i64) -> (r: Result<
        AuthResponse,
        AuthError,
    >)
        requires
            old(self).wf(),
            valid_now(now),
            i < old(self).users@.len(),
        ensures
            final(self).wf(),
            Self::login_done_with(*old(self), *final(self), i as int, session_id@, r, ip_address@, user_agent@,
                now as int),
    {
        if self.session_id_used(session_id.as_str()) {
            return Err(AuthError::Internal);
        }
        let pair = {
            let u = &self.users[i];
            match self.tokens.issue_pair(u.id.as_str(), u.email.as_str(), u.username.as_str(), u.role.as_str(),
                session_id.as_str(), now) {
                Ok(p) => p,
                Err(e) => return Err(e),
            }
        };
        if self.find_token(pair.refresh_token.as_str()).is_some() {
            return Err(AuthError::Internal);
        }
        let TokenPair { access_token, refresh_token } = pair;
        let ghost old_users = self.users@;
        self.users[i].last_login_at = Some(now);
        self.users[i].last_login_ip = Some(ip_address.clone());
        self.users[i].updated_at = now;
        proof {
            assert forall|a: int, b: int| 0 <= a < b < self.users@.len() implies
                self.users@[a].id@ != self.users@[b].id@
                && self.users@[a].email@ != self.users@[b].email@
                && self.users@[a].username@ != self.users@[b].username@ by {
                assert(old_users[a].id@ != old_users[b].id@);
            }
        }
        let uid = self.users[i].id.clone();
        self.record(uid.as_str(), EventType::Login, "user logged in".to_owned(), ip_address.as_str(),
            user_agent.as_str(), Severity::Low, now);
        let token_copy = refresh_token.clone();
        self.open_session(session_id, uid.as_str(), token_copy, ip_address.as_str(), user_agent.as_str(), now);
        let response_user = user_to_response(&self.users[i]);
        assert(is_logged_in(old(self).users@[i as int], self.users@[i as int], ip_address@, now as int));
        assert(forall|j: int| 0 <= j < old(self).users@.len() && j != i ==> #[trigger] self.users@[j] == old(self).users@[j]);
        assert(self.sessions@ == old(self).sessions@.push(self.sessions@.last()));
        assert(self.events@ == old(self).events@.push(self.events@.last()));
        Ok(AuthResponse { user: response_user, access_token, refresh_token, expires_in: ACCESS_TOKEN_SECONDS })
    }

    /// Deletes the sessions of `user_id` that `by` and `value` select.
    fn remove_sessions(&mut self, user_id: &str, by: SessionMatch, value: &str)
        requires
            old(self).wf(),
        ensures
            final(self).wf(),
            final(self).tokens == old(self).tokens,
            final(self).users == old(self).users,
            final(self).events == old(self).events,
            final(self).sessions@ == kept(old(self).sessions@, user_id@, by, value@),
            forall|a: int| 0 <= a < final(self).sessions@.len() ==> exists|j: int| 0 <= j < old(self).sessions@.len()
                && #[trigger] final(self).sessions@[a] == old(self).sessions@[j]
                && !selected(old(self).sessions@[j], user_id@, by, value@),
    {
        let mut rest: Vec<Session> = Vec::new();
        std::mem::swap(&mut self.sessions, &mut rest);
        let ghost orig = rest@;
        let total = rest.len();
        let mut k: usize = 0;
        while rest.len() > 0
            invariant
                k <= orig.len(),
                orig.len() == total,
                rest@ == orig.skip(k as int),
                self.sessions@ == kept(orig.take(k as int), user_id@, by, value@),
                self.tokens == old(self).tokens,
                self.users == old(self).users,
                self.events == old(self).events,
                orig == old(self).sessions@,
                forall|a: int| 0 <= a < self.sessions@.len() ==> exists|j: int| 0 <= j < k
                    && #[trigger] self.sessions@[a] == orig[j] && !selected(orig[j], user_id@, by, value@),
                forall|a: int, b: int| 0 <= a < b < self.sessions@.len() ==> self.sessions@[a].id@
                    != self.sessions@[b].id@ && self.sessions@[a].refresh_token@ != self.sessions@[b].refresh_token@,
                forall|i: int, j: int| 0 <= i < j < orig.len() ==> orig[i].id@ != orig[j].id@
                    && orig[i].refresh_token@ != orig[j].refresh_token@,
            decreases rest@.len(),
        {
            assert(rest@.len() == orig.len() - k);
            let s = rest.remove(0);
            assert(s == orig[k as int]);
            assert(orig.take(k + 1).drop_last() =~= orig.take(k as int));
            assert(rest@ =~= orig.skip(k + 1));
            let (same_user, chosen) = {
                let same_user = str_eq(s.user_id.as_str(), user_id);
                let chosen = match by {
                    SessionMatch::All => true,
                    SessionMatch::Id => str_eq(s.id.as_str(), value),
                    SessionMatch::Token => str_eq(s.refresh_token.as_str(), value),
                };
                (same_user, chosen)
            };
            if !(same_user && chosen) {
                let ghost before = self.sessions@;
                self.sessions.push(s);
                proof {
                    assert forall|a: int| 0 <= a < self.sessions@.len() implies exists|j: int| 0 <= j < k + 1
                        && #[trigger] self.sessions@[a] == orig[j] && !selected(orig[j], user_id@, by, value@) by {
                        if a == before.len() {
                            assert(self.sessions@[a] == orig[k as int]);
                        } else {
                            assert(self.sessions@[a] == before[a]);
                        }
                    }
                    assert forall|a: int, b: int| 0 <= a < b < self.sessions@.len() implies self.sessions@[a].id@
                        != self.sessions@[b].id@ && self.sessions@[a].refresh_token@ != self.sessions@[b].refresh_token@ by {
                        if b == before.len() {
                            assert(self.sessions@[a] == before[a]);
                            let j = choose|j: int| 0 <= j < k && #[trigger] before[a] == orig[j]
                                && !selected(orig[j], user_id@, by, value@);
                        }
                    }
                }
            }
            k = k + 1;
        }
        assert(orig.take(k as int) =~= orig);
    }

    /// Deletes the caller's session holding `refresh_token` and records a
    /// `logout` event. The access token stays valid until it expires.
    pub fn logout(&mut self, user_id: String, refresh_token: String, now: i64)
        requires
            old(self).wf(),
        ensures
            final(self).wf(),
            final(self).secret() == old(self).secret(),
            final(self).users() == old(self).users(),
            final(self).sessions() == kept(old(self).sessions(), user_id@, SessionMatch::Token, refresh_token@),
            final(self).events() == old(self).events().push(final(self).events().last()),
            is_event(final(self).events().last(), user_id@, EventType::Logout, Severity::Low, "system"@,
                "system"@, now as int),
    {
        self.remove_sessions(user_id.as_str(), SessionMatch::Token, refresh_token.as_str());
        proof { reveal_strlit("system"); }
        self.record(user_id.as_str(), EventType::Logout, "user logged out".to_owned(), "system", "system",
            Severity::Low, now);
    }

    /// Deletes the caller's session `device_id` and records `device_revoked`.
    pub fn revoke_device_access(&mut self, user_id: String, device_id: &str, now: i64)
        requires
            old(self).wf(),
        ensures
            final(self).wf(),
            final(self).secret() == old(self).secret(),
            final(self).users() == old(self).users(),
            final(self).sessions() == kept(old(self).sessions(), user_id@, SessionMatch::Id, device_id@),
            final(self).events() == old(self).events().push(final(self).events().last()),
            is_event(final(self).events().last(), user_id@, EventType::DeviceRevoked, Severity::Low, "system"@,
                "system"@, now as int),
            final(self).events().last().description@ == "device access revoked: "@ + device_id@,
    {
        self.remove_sessions(user_id.as_str(), SessionMatch::Id, device_id);
        let mut description = "device access revoked: ".to_owned();
        description.append(device_id);
        proof { reveal_strlit("system"); }
        self.record(user_id.as_str(), EventType::DeviceRevoked, description, "system", "system",
            Severity::Low, now);
    }

    /// Deletes every session of the caller and records `logout_all_devices`.
    pub fn logout_all_devices(&mut self, user_id: String, now: i64)
        requires
            old(self).wf(),
        ensures
            final(self).wf(),
            final(self).secret() == old(self).secret(),
            final(self).users() == old(self).users(),
            final(self).sessions() == kept(old(self).sessions(), user_id@, SessionMatch::All, Seq::empty()),
            forall|a: int| 0 <= a < final(self).sessions().len() ==> (#[trigger] final(self).sessions()[a]).user_id@
                != user_id@ && exists|j: int| 0 <= j < old(self).sessions().len()
                    && final(self).sessions()[a] == old(self).sessions()[j],
            final(self).events() == old(self).events().push(final(self).events().last()),
            is_event(final(self).events().last(), user_id@, EventType::LogoutAllDevices, Severity::Low,
                "system"@, "system"@, now as int),
    {
        self.remove_sessions(user_id.as_str(), SessionMatch::All, "");
        proof { reveal_strlit("system"); reveal_strlit(""); }
        assert(""@ =~= Seq::<char>::empty());
        self.record(user_id.as_str(), EventType::LogoutAllDevices, "user logged out of all devices".to_owned(),
            "system", "system", Severity::Low, now);
        proof {
            assert forall|a: int| 0 <= a < self.sessions().len() implies (#[trigger] self.sessions()[a]).user_id@
                != user_id@ && exists|j: int| 0 <= j < old(self).sessions().len()
                    && self.sessions()[a] == old(self).sessions()[j] by {
                let j = choose|j: int| 0 <= j < old(self).sessions@.len() && #[trigger] self.sessions@[a]
                    == old(self).sessions@[j] && !selected(old(self).sessions@[j], user_id@, SessionMatch::All, ""@);
                assert(self.sessions()[a] == old(self).sessions()[j]);
            }
        }
    }

    /// Exchanges a refresh token for a new pair. The session that holds it is
    /// rotated in place: it keeps its row and now holds the new refresh token,
    /// which no session held before, so the old token never works again.
    pub fn refresh_token(&mut self, refresh_token: String, now: i64) -> (r: Result<(String, String), AuthError>)
        requires
            old(self).wf(),
            valid_now(now),
        ensures
            final(self).wf(),
            final(self).secret() == old(self).secret(),
            final(self).users() == old(self).users(),
            final(self).events() == old(self).events(),
            !token_active(old(self).sessions(), refresh_token@) ==> r == Err::<(String, String), AuthError>(
                AuthError::InvalidToken),
            r is Err ==> final(self).sessions() == old(self).sessions(),
            forall|k: int| 0 <= k < old(self).sessions().len() && #[trigger] old(self).sessions()[k].refresh_token@
                == refresh_token@ && old(self).sessions()[k].is_active ==> {
                let s = old(self).sessions()[k];
                if s.expires_at < now {
                    r == Err::<(String, String), AuthError>(AuthError::Expired)
                } else if !has_user(old(self).users(), UserKey::Id, s.user_id@) {
                    r == Err::<(String, String), AuthError>(AuthError::UserNotFound)
                } else {
                    &&& (r is Ok || r == Err::<(String, String), AuthError>(AuthError::Internal))
                    &&& r matches Ok(p) ==> {
                        &&& final(self).sessions().len() == old(self).sessions().len()
                        &&& (forall|j: int| 0 <= j < old(self).sessions().len() && j != k
                            ==> #[trigger] final(self).sessions()[j] == old(self).sessions()[j])
                        &&& is_rotated(s, final(self).sessions()[k], p.1@, now as int)
                        &&& !token_held(old(self).sessions(), p.1@)
                        &&& p.1@ != refresh_token@
                        &&& p.0@.len() > 0 && p.1@.len() > 0
                        &&& forall|i: int| 0 <= i < old(self).users().len() && #[trigger] old(self).users()[i].id@
                            == s.user_id@ ==> exists|sid: Seq<char>| is_pair_for(final(self).secret(),
                                old(self).users()[i], sid, now as int, p.0@, p.1@)
                    }
                }
            },
    {
        let pair_id = new_uuid();
        self.refresh_with(refresh_token, pair_id, now)
    }

    /// The refresh, given the drawn id that binds the new pair; `Internal`
    /// comes exactly where the pair cannot be issued (a payload cannot be
    /// signed, or the new refresh token is already held, the presented one
    /// included).
    pub fn refresh_with(&mut self, refresh_token: String, pair_id: String, now: i64) -> (r: Result<(String, String), AuthError>)
        requires
            old(self).wf(),
            valid_now(now),
        ensures
            final(self).wf(),
            final(self).secret() == old(self).secret(),
            final(self).users() == old(self).users(),
            final(self).events() == old(self).events(),
            !token_active(old(self).sessions(), refresh_token@) ==> r == Err::<(String, String), AuthError>(
                AuthError::InvalidToken),
            r is Err ==> final(self).sessions() == old(self).sessions(),
            forall|k: int| 0 <= k < old(self).sessions().len() && #[trigger] old(self).sessions()[k].refresh_token@
                == refresh_token@ && old(self).sessions()[k].is_active ==> {
                let s = old(self).sessions()[k];
                if s.expires_at < now {
                    r == Err::<(String, String), AuthError>(AuthError::Expired)
                } else if !has_user(old(self).users(), UserKey::Id, s.user_id@) {
                    r == Err::<(String, String), AuthError>(AuthError::UserNotFound)
                } else {
                    &&& (r is Ok || r == Err::<(String, String), AuthError>(AuthError::Internal))
                    &&& forall|i: int| 0 <= i < old(self).users().len() && #[trigger] old(self).users()[i].id@
                        == s.user_id@ ==> (r == Err::<(String, String), AuthError>(AuthError::Internal)
                        <==> issue_blocked(old(self).sessions(), old(self).secret(), old(self).users()[i].id@,
                        old(self).users()[i].email@, old(self).users()[i].username@, old(self).users()[i].role@,
                        pair_id@, now as int))
                    &&& forall|i: int| 0 <= i < old(self).users().len() && #[trigger] old(self).users()[i].id@
                        == s.user_id@ ==> pair_signs(old(self).secret(), old(self).users()[i].id@,
                        old(self).users()[i].email@, old(self).users()[i].username@, old(self).users()[i].role@,
                        pair_id@, now as int)
                    &&& r matches Ok(p) ==> {
                        &&& final(self).sessions().len() == old(self).sessions().len()
                        &&& (forall|j: int| 0 <= j < old(self).sessions().len() && j != k
                            ==> #[trigger] final(self).sessions()[j] == old(self).sessions()[j])
                        &&& is_rotated(s, final(self).sessions()[k], p.1@, now as int)
                        &&& !token_held(old(self).sessions(), p.1@)
                        &&& p.1@ != refresh_token@
                        &&& p.0@.len() > 0 && p.1@.len() > 0
                        &&& forall|i: int| 0 <= i < old(self).users().len() && #[trigger] old(self).users()[i].id@
                            == s.user_id@ ==> is_pair_for(final(self).secret(), old(self).users()[i], pair_id@,
                                now as int, p.0@, p.1@)
                    }
                }
            },
    {
        let k = match self.find_token(refresh_token.as_str()) {
            Some(k) => k,
            None => return Err(AuthError::InvalidToken),
        };
        proof {
            assert forall|j: int| 0 <= j < self.sessions@.len() && #[trigger] self.sessions@[j].refresh_token@
                == refresh_token@ implies j == k by {}
        }
        if !self.sessions[k].is_active {
            return Err(AuthError::InvalidToken);
        }
        if self.sessions[k].expires_at < now {
            return Err(AuthError::Expired);
        }
        let i = match self.find_user(UserKey::Id, self.sessions[k].user_id.as_str()) {
            Some(i) => i,
            None => return Err(AuthError::UserNotFound),
        };
        proof {
            assert forall|j: int| 0 <= j < self.users@.len() && #[trigger] self.users@[j].id@
                == self.sessions@[k as int].user_id@ implies j == i by {
                if j != i {
                    assert(user_key(self.users@[i as int], UserKey::Id) == self.users@[i as int].id@);
                }
            }
        }
        let pair = {
            let u = &self.users[i];
            match self.tokens.issue_pair(u.id.as_str(), u.email.as_str(), u.username.as_str(), u.role.as_str(),
                pair_id.as_str(), now) {
                Ok(p) => p,
                Err(e) => return Err(e),
            }
        };
        if self.find_token(pair.refresh_token.as_str()).is_some() {
            return Err(AuthError::Internal);
        }
        let ghost old_sessions = self.sessions@;
        self.sessions[k].refresh_token = pair.refresh_token.clone();
        self.sessions[k].last_accessed_at = now;
        self.sessions[k].updated_at = now;
        proof {
            assert forall|a: int, b: int| 0 <= a < b < self.sessions@.len() implies
                self.sessions@[a].id@ != self.sessions@[b].id@
                && self.sessions@[a].refresh_token@ != self.sessions@[b].refresh_token@ by {
                assert(old_sessions[a].id@ != old_sessions[b].id@);
                if a == k {
                    assert(old_sessions[b].refresh_token@ != pair.refresh_token@);
                }
                if b == k {
                    assert(old_sessions[a].refresh_token@ != pair.refresh_token@);
                }
            }
            assert(old_sessions[k as int].refresh_token@ == refresh_token@);
            assert(is_pair_for(self.secret(), self.users@[i as int], pair_id@, now as int, pair.access_token@,
                pair.refresh_token@));
        }
        let result = (pair.access_token, pair.refresh_token);
        proof {
            assert(is_pair_for(self.secret(), old(self).users()[i as int], pair_id@, now as int, result.0@,
                result.1@));
        }
        Ok(result)
    }

    fn find_session(&self, user_id: &str, session_id: &str) -> (r: Option<usize>)
        ensures
            r matches Some(k) ==> k < self.sessions@.len() && is_session_of(self.sessions@[k as int], user_id@,
                session_id@),
            r is None ==> forall|j: int| 0 <= j < self.sessions@.len() ==> !is_session_of(
                #[trigger] self.sessions@[j], user_id@, session_id@),
    {
        let mut k: usize = 0;
        while k < self.sessions.len()
            invariant
                k <= self.sessions@.len(),
                forall|j: int| 0 <= j < k ==> !is_session_of(#[trigger] self.sessions@[j], user_id@, session_id@),
            decreases self.sessions@.len() - k,
        {
            let s = &self.sessions[k];
            if str_eq(s.user_id.as_str(), user_id) && str_eq(s.id.as_str(), session_id) && s.is_active {
                return Some(k);
            }
            k = k + 1;
        }
        None
    }

    /// Compares a request's IP address and user agent with those its session
    /// recorded. A changed IP address records a high-severity `suspicious_ip`
    /// event and rejects; a changed user agent records a medium-severity
    /// `suspicious_user_agent` event and still accepts. An unknown session is
    /// rejected.
    pub fn verify_session_security(
        &mut self,
        user_id: &str,
        session_id: &str,
        ip_address: &str,
        user_agent: &str,
        now: i64,
    ) -> (r: bool)
        requires
            old(self).wf(),
        ensures
            final(self).wf(),
            Self::only_events_changed(*old(self), *final(self)),
            (forall|k: int| 0 <= k < old(self).sessions().len() ==> !is_session_of(
                #[trigger] old(self).sessions()[k], user_id@, session_id@)) ==> !r && final(self).events()
                == old(self).events(),
            forall|k: int| 0 <= k < old(self).sessions().len() && is_session_of(
                #[trigger] old(self).sessions()[k], user_id@, session_id@) ==> {
                let s = old(self).sessions()[k];
                if s.ip_address@ != ip_address@ {
                    &&& !r
                    &&& final(self).events() == old(self).events().push(final(self).events().last())
                    &&& is_event(final(self).events().last(), user_id@, EventType::SuspiciousIp,
                        Severity::High, ip_address@, user_agent@, now as int)
                    &&& final(self).events().last().description@ == "session IP address changed: "@
                        + s.ip_address@ + " -> "@ + ip_address@
                } else if s.user_agent@ != user_agent@ {
                    &&& r
                    &&& final(self).events() == old(self).events().push(final(self).events().last())
                    &&& is_event(final(self).events().last(), user_id@, EventType::SuspiciousUserAgent,
                        Severity::Medium, ip_address@, user_agent@, now as int)
                } else {
                    r && final(self).events() == old(self).events()
                }
            },
    {
        let k = match self.find_session(user_id, session_id) {
            None => return false,
            Some(k) => k,
        };
        proof {
            assert forall|j: int| 0 <= j < self.sessions@.len() && is_session_of(#[trigger] self.sessions@[j],
                user_id@, session_id@) implies j == k by {
                if j != k {
                    if j < k {
                        assert(self.sessions@[j].id@ != self.sessions@[k as int].id@);
                    } else {
                        assert(self.sessions@[k as int].id@ != self.sessions@[j].id@);
                    }
                }
            }
        }
        if !str_eq(self.sessions[k].ip_address.as_str(), ip_address) {
            let mut description = "session IP address changed: ".to_owned();
            description.append(self.sessions[k].ip_address.as_str());
            description.append(" -> ");
            description.append(ip_address);
            self.record(user_id, EventType::SuspiciousIp, description, ip_address, user_agent, Severity::High, now);
            return false;
        }
        if !str_eq(self.sessions[k].user_agent.as_str(), user_agent) {
            self.record(user_id, EventType::SuspiciousUserAgent, "session user agent changed".to_owned(),
                ip_address, user_agent, Severity::Medium, now);
        }
        true
    }

    /// Begins second-factor enrolment: stores a fresh random secret (not yet
    /// enabled) and returns it in base32, its provisioning URI and eight
    /// backup codes.
    pub fn setup_two_factor(&mut self, user_id: &str) -> (r: Result<TwoFactorSetupResponse, AuthError>)
        requires
            old(self).wf(),
        ensures
            final(self).wf(),
            final(self).secret() == old(self).secret(),
            final(self).sessions() == old(self).sessions(),
            final(self).events() == old(self).events(),
            !has_user(old(self).users(), UserKey::Id, user_id@) ==> r == Err::<TwoFactorSetupResponse, AuthError>(
                AuthError::UserNotFound) && final(self).users() == old(self).users(),
            has_user(old(self).users(), UserKey::Id, user_id@) ==> r is Ok,
            r matches Ok(resp) ==> exists|i: int| 0 <= i < old(self).users().len()
                && #[trigger] old(self).users()[i].id@ == user_id@ && {
                let u = old(self).users()[i];
                let v = final(self).users()[i];
                &&& final(self).users().len() == old(self).users().len()
                &&& (forall|j: int| 0 <= j < old(self).users().len() && j != i
                    ==> #[trigger] final(self).users()[j] == old(self).users()[j])
                &&& opt_view(v.two_factor_secret) == Some(resp.secret_key@)
                &&& v.is_two_factor_enabled == u.is_two_factor_enabled
                &&& v.id == u.id && v.email == u.email && v.username == u.username
                &&& v.password_hash == u.password_hash
                &&& (exists|raw: Seq<u8>| raw.len() == SECRET_BYTES && resp.secret_key@ == base32_text(raw)
                    && base32_decoded(resp.secret_key@) == Some(raw))
                &&& forall|code: Seq<char>, time: int| #[trigger] code_outcome(opt_view(v.two_factor_secret), code, time)
                    is Ok
                &&& resp.qr_code_url@ == provisioning_uri_of("QuantConsole"@, u.email@, resp.secret_key@)
                &&& resp.backup_codes@.len() == BACKUP_CODE_COUNT
                &&& forall|c: int| 0 <= c < resp.backup_codes@.len() ==> is_backup_code(
                    #[trigger] resp.backup_codes@[c]@)
            },
    {
        let i = match self.find_user(UserKey::Id, user_id) {
            Some(i) => i,
            None => return Err(AuthError::UserNotFound),
        };
        let raw = generate_secret();
        let secret_key = encode_secret(raw.as_slice());
        proof { reveal_strlit("QuantConsole"); }
        let qr_code_url = provisioning_uri("QuantConsole", self.users[i].email.as_str(), secret_key.as_str());
        let ghost old_users = self.users@;
        self.users[i].two_factor_secret = Some(secret_key.clone());
        proof {
            assert forall|a: int, b: int| 0 <= a < b < self.users@.len() implies
                self.users@[a].id@ != self.users@[b].id@
                && self.users@[a].email@ != self.users@[b].email@
                && self.users@[a].username@ != self.users@[b].username@ by {
                assert(old_users[a].id@ != old_users[b].id@);
            }
            assert(old_users[i as int].id@ == user_id@);
        }
        let backup_codes = generate_backup_codes();
        let resp = TwoFactorSetupResponse { qr_code_url, secret_key, backup_codes };
        proof {
            assert(user_key(old(self).users()[i as int], UserKey::Id) == user_id@);
            assert(old(self).users()[i as int].id@ == user_id@);
            assert(resp.secret_key@ == base32_text(raw@));
            assert(base32_decoded(resp.secret_key@) == Some(raw@));
            assert(raw@.len() == SECRET_BYTES);
        }
        Ok(resp)
    }

    /// Confirms enrolment: where `code` is current for the stored secret, the
    /// second factor is enabled and eight fresh backup codes returned.
    pub fn verify_and_enable_two_factor(&mut self, user_id: &str, code: &str, now: i64) -> (r: Result<
        Vec<String>,
        AuthError,
    >)
        requires
            old(self).wf(),
            valid_now(now),
        ensures
            final(self).wf(),
            final(self).secret() == old(self).secret(),
            final(self).sessions() == old(self).sessions(),
            final(self).events() == old(self).events(),
            r is Err ==> final(self).users() == old(self).users(),
            !has_user(old(self).users(), UserKey::Id, user_id@) ==> r == Err::<Vec<String>, AuthError>(
                AuthError::UserNotFound),
            forall|i: int| 0 <= i < old(self).users().len() && #[trigger] old(self).users()[i].id@ == user_id@ ==> {
                let u = old(self).users()[i];
                match code_outcome(opt_view(u.two_factor_secret), code@, now as int) {
                    Err(e) => r == Err::<Vec<String>, AuthError>(e),
                    Ok(false) => r == Err::<Vec<String>, AuthError>(AuthError::InvalidCode),
                    Ok(true) => r matches Ok(codes) && {
                        let v = final(self).users()[i];
                        &&& final(self).users().len() == old(self).users().len()
                        &&& (forall|j: int| 0 <= j < old(self).users().len() && j != i
                            ==> #[trigger] final(self).users()[j] == old(self).users()[j])
                        &&& v.is_two_factor_enabled
                        &&& v.two_factor_secret == u.two_factor_secret
                        &&& v.id == u.id && v.email == u.email && v.username == u.username
                        &&& v.password_hash == u.password_hash
                        &&& codes@.len() == BACKUP_CODE_COUNT
                        &&& forall|c: int| 0 <= c < codes@.len() ==> is_backup_code(#[trigger] codes@[c]@)
                    },
                }
            },
    {
        let i = match self.find_user(UserKey::Id, user_id) {
            Some(i) => i,
            None => {
                proof {
                    assert forall|j: int| 0 <= j < self.users@.len() implies #[trigger] self.users@[j].id@
                        != user_id@ by {
                        assert(user_key(self.users@[j], UserKey::Id) == self.users@[j].id@);
                    }
                }
                return Err(AuthError::UserNotFound);
            },
        };
        proof {
            assert forall|j: int| 0 <= j < self.users@.len() && #[trigger] self.users@[j].id@ == user_id@
                implies j == i by {
                if j != i {
                    assert(user_key(self.users@[i as int], UserKey::Id) == self.users@[i as int].id@);
                }
            }
        }
        let good = verify_code(&self.users[i].two_factor_secret, code, now as u64)?;
        if !good {
            return Err(AuthError::InvalidCode);
        }
        let ghost old_users = self.users@;
        self.users[i].is_two_factor_enabled = true;
        proof {
            assert forall|a: int, b: int| 0 <= a < b < self.users@.len() implies
                self.users@[a].id@ != self.users@[b].id@
                && self.users@[a].email@ != self.users@[b].email@
                && self.users@[a].username@ != self.users@[b].username@ by {
                assert(old_users[a].id@ != old_users[b].id@);
            }
        }
        Ok(generate_backup_codes())
    }

    /// The caller's live sessions as a device list, in session order.
    pub fn get_active_devices(&self, user_id: &str) -> (r: Vec<DeviceInfo>)
        ensures
            r@.len() == live_sessions_of(self.sessions(), user_id@).len(),
            forall|a: int| 0 <= a < r@.len() ==> is_device_for(#[trigger] r@[a], live_sessions_of(
                self.sessions(), user_id@)[a]),
    {
        let mut out: Vec<DeviceInfo> = Vec::new();
        let mut k: usize = 0;
        while k < self.sessions.len()
            invariant
                k <= self.sessions@.len(),
                out@.len() == live_sessions_of(self.sessions@.take(k as int), user_id@).len(),
                forall|a: int| 0 <= a < out@.len() ==> is_device_for(#[trigger] out@[a], live_sessions_of(
                    self.sessions@.take(k as int), user_id@)[a]),
            decreases self.sessions@.len() - k,
        {
            let s = &self.sessions[k];
            assert(self.sessions@.take(k + 1).drop_last() =~= self.sessions@.take(k as int));
            if str_eq(s.user_id.as_str(), user_id) && s.is_active {
                let d = DeviceInfo {
                    device_id: s.id.clone(),
                    device_name: parse_device_name(s.user_agent.as_str()),
                    browser: parse_browser(s.user_agent.as_str()),
                    os: parse_os(s.user_agent.as_str()),
                    ip_address: s.ip_address.clone(),
                    location: clone_opt(&s.location),
                    last_seen: s.last_accessed_at,
                    is_current_device: false,
                    is_trusted: false,
                };
                out.push(d);
            }
            k = k + 1;
        }
        assert(self.sessions@.take(k as int) =~= self.sessions@);
        out
    }

    /// One page of the caller's security events, newest first, filtered by
    /// type and severity where asked. Pages count from 1; page 1 and 20 per
    /// page where not given. A page or page size of zero is refused.
    pub fn get_security_events(&self, user_id: &str, query: &SecurityEventQuery) -> (r: Result<
        SecurityEventPage,
        AuthError,
    >)
        ensures
            query.page == Some(0u64) || query.limit == Some(0u64) ==> r == Err::<SecurityEventPage, AuthError>(
                AuthError::InvalidQuery),
            !(query.page == Some(0u64) || query.limit == Some(0u64)) ==> (r matches Ok(p) && {
                let page = match query.page { Some(v) => v, None => 1 };
                let limit = match query.limit { Some(v) => v, None => 20 };
                let all = newest_first(self.events(), user_id@, opt_view(query.event_type), opt_view(
                    query.severity));
                &&& p.events@ == page_of(all, page as int, limit as int)
                &&& newest_ordered(p.events@)
                &&& p.pagination.page == page
                &&& p.pagination.per_page == limit
                &&& p.pagination.total == all.len()
                &&& p.pagination.total_pages == page_count(all.len() as int, limit as int)
            }),
    {
        let page: u64 = match query.page { Some(v) => v, None => 1 };
        let limit: u64 = match query.limit { Some(v) => v, None => 20 };
        if page == 0 || limit == 0 {
            return Err(AuthError::InvalidQuery);
        }
        let ghost kind = opt_view(query.event_type);
        let ghost severity = opt_view(query.severity);
        let mut all: Vec<SecurityEvent> = Vec::new();
        let mut k: usize = 0;
        while k < self.events.len()
            invariant
                k <= self.events@.len(),
                all@ == newest_first(self.events@.take(k as int), user_id@, kind, severity),
                kind == opt_view(query.event_type),
                severity == opt_view(query.severity),
            decreases self.events@.len() - k,
        {
            let e = &self.events[k];
            assert(self.events@.take(k + 1).drop_last() =~= self.events@.take(k as int));
            let mut ok = str_eq(e.user_id.as_str(), user_id);
            match &query.event_type {
                Some(t) => {
                    if !str_eq(e.event_type.as_str(), t.as_str()) {
                        ok = false;
                    }
                },
                None => {},
            }
            match &query.severity {
                Some(v) => {
                    if !str_eq(e.severity.as_str(), v.as_str()) {
                        ok = false;
                    }
                },
                None => {},
            }
            if ok {
                let ghost before = all@;
                let mut j: usize = 0;
                while j < all.len() && all[j].created_at > e.created_at
                    invariant
                        j <= all@.len(),
                        all@ == before,
                        forall|t: int| 0 <= t < j ==> (#[trigger] all@[t]).created_at > e.created_at,
                    decreases all@.len() - j,
                {
                    j = j + 1;
                }
                all.insert(j, e.copy());
                proof {
                    lemma_insert_at(before, self.events@[k as int], j as int);
                    assert(all@ =~= before.take(j as int) + seq![self.events@[k as int]] + before.skip(j as int));
                }
            }
            k = k + 1;
        }
        assert(self.events@.take(k as int) =~= self.events@);
        let total: usize = all.len();
        assert((page as int - 1) * (limit as int) <= u64::MAX as int * u64::MAX as int) by (nonlinear_arith)
            requires
                1 <= page <= u64::MAX,
                1 <= limit <= u64::MAX;
        let wide_start: u128 = (page as u128 - 1) * (limit as u128);
        let start: usize = if wide_start < total as u128 { wide_start as usize } else { total };
        let wide_end: u128 = start as u128 + limit as u128;
        let end: usize = if wide_end < total as u128 { wide_end as usize } else { total };
        let mut events: Vec<SecurityEvent> = Vec::new();
        let mut a: usize = start;
        while a < end
            invariant
                start <= a <= end,
                end <= all@.len(),
                events@ == all@.subrange(start as int, a as int),
            decreases end - a,
        {
            events.push(all[a].copy());
            assert(events@ =~= all@.subrange(start as int, a + 1));
            a = a + 1;
        }
        let num: u128 = total as u128 + limit as u128 - 1;
        let q: u128 = num / (limit as u128);
        proof { lemma_page_count_bound(total as int, limit as int); }
        let total_pages: u64 = q as u64;
        proof {
            lemma_events_newest_first(self.events@, user_id@, kind, severity);
            assert forall|x: int, y: int| 0 <= x < y < events@.len() implies events@[x].created_at
                >= events@[y].created_at by {
                assert(events@[x] == all@[start + x] && events@[y] == all@[start + y]);
            }
        }
        Ok(SecurityEventPage {
            events,
            pagination: PaginationInfo { page, per_page: limit, total: total as u64, total_pages },
        })
    }

    /// The claims of an access or refresh token, checked for signature,
    /// issuer, audience and expiry at `now`.
    pub fn verify_token(&self, token: &str, now: i64) -> (r: Result<Claims, AuthError>)
        ensures
            verify_outcome(jwt_payload_of(token@, self.secret()), now as int, r),
            signed_outcome(self.secret(), token@, now as int, r),
    {
        self.tokens.verify(token, now)
    }

    /// The caller named by an `Authorization: Bearer <access token>` header:
    /// the token must verify at `now` and its subject must be a UUID.
    pub fn extract_user_from_token(&self, authorization: Option<&str>, now: i64) -> (r: Result<AuthUser, AuthError>)
        ensures
            match authorization {
                None => r == Err::<AuthUser, AuthError>(AuthError::InvalidToken),
                Some(h) => match bearer_token(h@) {
                    None => r == Err::<AuthUser, AuthError>(AuthError::InvalidToken),
                    Some(t) => exists|v: Result<Claims, AuthError>| #[trigger] verify_outcome(jwt_payload_of(t,
                        self.secret()), now as int, v) && match v {
                        Ok(c) => if uuid_text(c.sub@) {
                            r matches Ok(u) && u.id == c.sub
                        } else {
                            r == Err::<AuthUser, AuthError>(AuthError::InvalidToken)
                        },
                        Err(e) => r == Err::<AuthUser, AuthError>(e),
                    },
                },
            },
    {
        let header = match authorization {
            None => return Err(AuthError::InvalidToken),
            Some(h) => h,
        };
        proof { reveal_strlit("Bearer "); }
        let n = header.unicode_len();
        if !lit_at(header, 0, "Bearer ") {
            return Err(AuthError::InvalidToken);
        }
        let token = header.substring_char(7, n);
        let verdict = self.verify_token(token, now);
        let claims = match verdict {
            Ok(c) => c,
            Err(e) => return Err(e),
        };
        if !is_uuid(claims.sub.as_str()) {
            return Err(AuthError::InvalidToken);
        }
        Ok(AuthUser { id: claims.sub })
    }

    /// A stable 32-character identifier for a (user agent, IP address) pair:
    /// the first half of the SHA-256 digest of `"{user_agent}:{ip_address}"`,
    /// in hex.
    pub fn generate_device_fingerprint(user_agent: &str, ip_address: &str) -> (r: String)
        ensures
            r@ == hex_of(sha256_of(encode_utf8(fingerprint_input(user_agent@, ip_address@))).take(16)),
            r@.len() == 32,
    {
        let mut text = user_agent.to_owned();
        text.append(":");
        text.append(ip_address);
        assert(text@ == fingerprint_input(user_agent@, ip_address@));
        let digest = sha256(text.as_str().as_bytes());
        fingerprint_from_digest(digest.as_slice())
    }

    /// The account registered with `email`.
    pub fn user_by_email(&self, email: &str) -> (r: Option<&User>)
        ensures
            r matches Some(u) ==> u.email@ == email@ && exists|i: int| 0 <= i < self.users().len()
                && #[trigger] self.users()[i] == *u,
            r is None ==> !has_user(self.users(), UserKey::Email, email@),
    {
        match self.find_user(UserKey::Email, email) {
            Some(i) => {
                assert(self.users()[i as int] == self.users@[i as int]);
                Some(&self.users[i])
            },
            None => None,
        }
    }

    /// The number of live sessions, of all users.
    pub fn session_count(&self) -> (r: usize)
        ensures
            r == self.sessions().len(),
    {
        self.sessions.len()
    }

    /// The number of recorded security events, of all users.
    pub fn event_count(&self) -> (r: usize)
        ensures
            r == self.events().len(),
    {
        self.events.len()
    }
}

proof fn lemma_insert_at(s: Seq<SecurityEvent>, e: SecurityEvent, j: int)
    requires
        0 <= j <= s.len(),
        forall|t: int| 0 <= t < j ==> (#[trigger] s[t]).created_at > e.created_at,
        j < s.len() ==> s[j].created_at <= e.created_at,
    ensures
        insert_newest(s, e) == s.take(j) + seq![e] + s.skip(j),
    decreases j,
{
    if j == 0 {
        assert(s.take(0) + seq![e] + s.skip(0) =~= seq![e] + s);
    } else {
        let t = s.skip(1);
        assert forall|x: int| 0 <= x < j - 1 implies (#[trigger] t[x]).created_at > e.created_at by {
            assert(t[x] == s[x + 1]);
        }
        if j < s.len() {
            assert(t[j - 1] == s[j]);
        }
        lemma_insert_at(t, e, j - 1);
        assert(s.take(j) + seq![e] + s.skip(j) =~= seq![s[0]] + (t.take(j - 1) + seq![e] + t.skip(j - 1)));
    }
}

proof fn lemma_insert_ordered(s: Seq<SecurityEvent>, e: SecurityEvent)
    requires
        newest_ordered(s),
    ensures
        newest_ordered(insert_newest(s, e)),
        insert_newest(s, e).len() == s.len() + 1,
        forall|x: int| 0 <= x < insert_newest(s, e).len() ==> #[trigger] insert_newest(s, e)[x] == e || s.contains(
            insert_newest(s, e)[x]),
    decreases s.len(),
{
    if s.len() > 0 && s[0].created_at > e.created_at {
        let t = s.skip(1);
        assert forall|i: int, j: int| 0 <= i < j < t.len() implies t[i].created_at >= t[j].created_at by {
            assert(t[i] == s[i + 1] && t[j] == s[j + 1]);
        }
        lemma_insert_ordered(t, e);
        let r = insert_newest(t, e);
        assert forall|x: int| 0 <= x < r.len() implies (#[trigger] r[x]).created_at <= s[0].created_at by {
            if r[x] != e {
                let y = choose|y: int| 0 <= y < t.len() && t[y] == r[x];
                assert(t[y] == s[y + 1]);
            }
        }
        let full = seq![s[0]] + r;
        assert forall|i: int, j: int| 0 <= i < j < full.len() implies full[i].created_at >= full[j].created_at by {
            if i > 0 {
                assert(full[i] == r[i - 1] && full[j] == r[j - 1]);
            } else {
                assert(full[j] == r[j - 1]);
            }
        }
        assert forall|x: int| 0 <= x < full.len() implies #[trigger] full[x] == e || s.contains(full[x]) by {
            if x == 0 {
                assert(s[0] == full[0]);
            } else {
                assert(full[x] == r[x - 1]);
                if r[x - 1] != e {
                    let y = choose|y: int| 0 <= y < t.len() && t[y] == r[x - 1];
                    assert(s[y + 1] == t[y]);
                }
            }
        }
    } else {
        let full = seq![e] + s;
        assert forall|i: int, j: int| 0 <= i < j < full.len() implies full[i].created_at >= full[j].created_at by {
            if i > 0 {
                assert(full[i] == s[i - 1] && full[j] == s[j - 1]);
            } else {
                assert(full[j] == s[j - 1]);
                assert(s[j - 1].created_at <= s[0].created_at);
            }
        }
        assert forall|x: int| 0 <= x < full.len() implies #[trigger] full[x] == e || s.contains(full[x]) by {
            if x > 0 {
                assert(full[x] == s[x - 1]);
            }
        }
    }
}

/// The security events listed for a query are newest first by `created_at`.
pub proof fn lemma_events_newest_first(
    evs: Seq<SecurityEvent>,
    user_id: Seq<char>,
    kind: Option<Seq<char>>,
    severity: Option<Seq<char>>,
)
    ensures
        newest_ordered(newest_first(evs, user_id, kind, severity)),
    decreases evs.len(),
{
    if evs.len() > 0 {
        lemma_events_newest_first(evs.drop_last(), user_id, kind, severity);
        if event_matches(evs.last(), user_id, kind, severity) {
            lemma_insert_ordered(newest_first(evs.drop_last(), user_id, kind, severity), evs.last());
        }
    }
}

proof fn lemma_page_count_bound(t: int, l: int)
    requires
        t >= 0,
        l >= 1,
    ensures
        (t + l - 1) / l <= t,
{
    if t == 0 {
        assert((l - 1) / l == 0) by (nonlinear_arith)
            requires
                l >= 1;
    } else {
        assert(t + l - 1 <= t * l) by (nonlinear_arith)
            requires
                t >= 1,
                l >= 1;
        assert((t + l - 1) / l <= t) by (nonlinear_arith)
            requires
                t + l - 1 <= t * l,
                l >= 1,
                t >= 1;
    }
}

/// The security event log never holds two events with the same id.
pub proof fn lemma_event_ids_unique(s: AuthService, i: int, j: int)
    requires
        s.wf(),
        0 <= i < j < s.events().len(),
    ensures
        s.events()[i].id != s.events()[j].id,
{
    lemma_event_ids_differ(s.events@[i].id@, s.events@[j].id@, i, j);
}

/// Pairs bound to different session ids differ: neither their access tokens
/// nor their refresh tokens coincide, and no access token is a refresh token
/// (within one pair either).
pub proof fn lemma_pairs_differ(
    secret: Seq<char>,
    u1: User,
    sid1: Seq<char>,
    t1: int,
    access1: Seq<char>,
    refresh1: Seq<char>,
    u2: User,
    sid2: Seq<char>,
    t2: int,
    access2: Seq<char>,
    refresh2: Seq<char>,
)
    requires
        is_pair_for(secret, u1, sid1, t1, access1, refresh1),
        is_pair_for(secret, u2, sid2, t2, access2, refresh2),
        sid1 != sid2,
    ensures
        access1 != access2,
        refresh1 != refresh2,
        access1 != refresh2,
        access2 != refresh1,
        access1 != refresh1,
{
    let r1 = issued_claims(u1.id@, u1.email@, u1.username@, u1.role@, sid1, t1, REFRESH_TOKEN_SECONDS as int);
    assert(jwt_signed(claims_json(r1), secret) == Some(refresh1));
    let a2 = issued_claims(u2.id@, u2.email@, u2.username@, u2.role@, sid2, t2, ACCESS_TOKEN_SECONDS as int);
    let r2 = issued_claims(u2.id@, u2.email@, u2.username@, u2.role@, sid2, t2, REFRESH_TOKEN_SECONDS as int);
    assert(jwt_signed(claims_json(a2), secret) == Some(access2));
    assert(jwt_signed(claims_json(r2), secret) == Some(refresh2));
}

/// Once a registration with `email` has succeeded, the email is taken: a
/// second registration with it, whatever its username, fails with
/// `EmailTaken`.
pub proof fn lemma_registered_email_is_taken(before: Seq<User>, after: Seq<User>, email: Seq<char>)
    requires
        after == before.push(after.last()),
        after.last().email@ == email,
    ensures
        has_user(after, UserKey::Email, email),
{
    assert(user_key(after[after.len() - 1], UserKey::Email) == email);
}

/// Refresh-token rotation leaves the old token stale: once session `k`'s
/// token has been replaced in place by a different one, no session holds the
/// old token, so refreshing with it fails with `InvalidToken`.
pub proof fn lemma_rotated_token_is_stale(a: AuthService, b: AuthService, k: int, token: Seq<char>)
    requires
        a.wf(),
        0 <= k < a.sessions().len(),
        a.sessions()[k].refresh_token@ == token,
        b.sessions().len() == a.sessions().len(),
        forall|j: int| 0 <= j < a.sessions().len() && j != k ==> #[trigger] b.sessions()[j] == a.sessions()[j],
        b.sessions()[k].refresh_token@ != token,
    ensures
        !token_held(b.sessions(), token),
        !token_active(b.sessions(), token),
{
    assert forall|j: int| 0 <= j < b.sessions().len() implies (#[trigger] b.sessions()[j]).refresh_token@ != token by {
        if j != k {
            assert(b.sessions()[j] == a.sessions()[j]);
            if j < k {
                assert(a.sessions@[j].refresh_token@ != a.sessions@[k].refresh_token@);
            } else {
                assert(a.sessions@[k].refresh_token@ != a.sessions@[j].refresh_token@);
            }
        }
    }
}

/// After all of a user's sessions are revoked, no refresh token that only
/// that user's sessions ever held (no session of another user holds it)
/// refreshes: each such refresh fails with `InvalidToken`.
pub proof fn lemma_revoked_user_cannot_refresh(a: AuthService, b: AuthService, user_id: Seq<char>, token: Seq<char>)
    requires
        forall|x: int| 0 <= x < b.sessions().len() ==> (#[trigger] b.sessions()[x]).user_id@ != user_id
            && exists|j: int| 0 <= j < a.sessions().len() && b.sessions()[x] == a.sessions()[j],
        forall|j: int| 0 <= j < a.sessions().len() && (#[trigger] a.sessions()[j]).refresh_token@ == token
            ==> a.sessions()[j].user_id@ == user_id,
    ensures
        !token_held(b.sessions(), token),
        !token_active(b.sessions(), token),
{
    assert forall|x: int| 0 <= x < b.sessions().len() implies (#[trigger] b.sessions()[x]).refresh_token@ != token by {
        let j = choose|j: int| 0 <= j < a.sessions().len() && b.sessions()[x] == a.sessions()[j];
        assert(b.sessions()[x] == a.sessions()[j]);
    }
}

} // verus!
