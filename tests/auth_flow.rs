use quant_auth::error::AuthError;
use quant_auth::model::{EventType, LoginRequest, RegisterRequest, SecurityEventQuery, Severity};
use quant_auth::service::AuthService;

const T0: i64 = 1_700_000_000;

fn service() -> AuthService {
    AuthService::new("test-secret".to_string())
}

fn reg(email: &str, password: &str, username: &str) -> RegisterRequest {
    RegisterRequest {
        email: email.to_string(),
        password: password.to_string(),
        username: username.to_string(),
        first_name: None,
        last_name: None,
    }
}

fn login_req(email: &str, password: &str, code: Option<&str>) -> LoginRequest {
    LoginRequest {
        email: email.to_string(),
        password: password.to_string(),
        remember_me: None,
        two_factor_code: code.map(|c| c.to_string()),
    }
}

fn all_events() -> SecurityEventQuery {
    SecurityEventQuery { page: Some(1), limit: Some(100), event_type: None, severity: None }
}

fn current_code(secret_key: &str, now: i64) -> String {
    let raw = base32::decode(base32::Alphabet::RFC4648 { padding: true }, secret_key).unwrap();
    totp_rs::TOTP::new(totp_rs::Algorithm::SHA1, 6, 1, 30, raw).unwrap().generate(now as u64)
}

fn wrong_code(code: &str) -> String {
    code.chars().map(|c| if c == '9' { '0' } else { ((c as u8) + 1) as char }).collect()
}

#[test]
fn register_then_login_returns_tokens() {
    let mut s = service();
    let r = s.register(reg("a@x.com", "pw", "alice"), "1.1.1.1".into(), "UA".into(), T0).unwrap();
    assert_eq!(r.expires_in, 3600);
    assert_eq!(r.user.email, "a@x.com");
    assert_eq!(r.user.username, "alice");
    assert_eq!(r.user.role, "user");
    assert_eq!(r.user.id.len(), 36);
    let l = s.login(login_req("a@x.com", "pw", None), "1.1.1.1".into(), "UA".into(), T0 + 5).unwrap();
    assert!(!l.access_token.is_empty());
    assert!(!l.refresh_token.is_empty());
    assert_eq!(l.expires_in, 3600);
    assert_eq!(l.user.last_login_at, Some(T0 + 5));
}

#[test]
fn registration_stores_a_verifying_hash() {
    let mut s = service();
    s.register(reg("b@x.com", "secret password", "bob"), "ip".into(), "ua".into(), T0).unwrap();
    let u = s.user_by_email("b@x.com").unwrap();
    assert!(!u.password_hash.is_empty());
    assert_ne!(u.password_hash, "secret password");
    assert_eq!(u.password_hash.len(), 60);
    assert_eq!(quant_auth::password::verify_password("secret password", &u.password_hash), Ok(true));
    assert_eq!(quant_auth::password::verify_password("other", &u.password_hash), Ok(false));
}

#[test]
fn duplicate_email_is_rejected_whatever_the_username() {
    let mut s = service();
    s.register(reg("a@x.com", "pw", "alice"), "ip".into(), "ua".into(), T0).unwrap();
    let second = s.register(reg("a@x.com", "pw2", "someone_else"), "ip".into(), "ua".into(), T0);
    assert_eq!(second.err(), Some(AuthError::EmailTaken));
    let third = s.register(reg("c@x.com", "pw2", "alice"), "ip".into(), "ua".into(), T0);
    assert_eq!(third.err(), Some(AuthError::UsernameTaken));
}

#[test]
fn login_creates_exactly_one_session() {
    let mut s = service();
    s.register(reg("a@x.com", "pw", "alice"), "ip".into(), "ua".into(), T0).unwrap();
    let before = s.session_count();
    s.login(login_req("a@x.com", "pw", None), "ip".into(), "ua".into(), T0 + 1).unwrap();
    assert_eq!(s.session_count(), before + 1);
}

#[test]
fn wrong_password_records_login_failed_and_no_session() {
    let mut s = service();
    let r = s.register(reg("a@x.com", "pw", "alice"), "ip".into(), "ua".into(), T0).unwrap();
    let sessions = s.session_count();
    let events = s.event_count();
    let e = s.login(login_req("a@x.com", "nope", None), "ip".into(), "ua".into(), T0 + 1);
    assert_eq!(e.err(), Some(AuthError::InvalidCredentials));
    assert_eq!(s.session_count(), sessions);
    assert_eq!(s.event_count(), events + 1);
    let page = s.get_security_events(&r.user.id, &all_events()).unwrap();
    assert_eq!(page.events[0].event_type, EventType::LoginFailed);
    assert_eq!(page.events[0].severity, Severity::Medium);
}

#[test]
fn unknown_email_is_invalid_credentials() {
    let mut s = service();
    let e = s.login(login_req("nobody@x.com", "pw", None), "ip".into(), "ua".into(), T0);
    assert_eq!(e.err(), Some(AuthError::InvalidCredentials));
    assert_eq!(AuthError::InvalidCredentials.message(), "invalid email or password");
}

#[test]
fn token_lifetimes() {
    let mut s = service();
    let r = s.register(reg("a@x.com", "pw", "alice"), "ip".into(), "ua".into(), T0).unwrap();
    let claims = s.verify_token(&r.access_token, T0 + 3600).unwrap();
    assert_eq!(claims.sub, r.user.id);
    assert_eq!(claims.exp, T0 + 3600);
    assert_eq!(claims.iss, "QuantConsole");
    assert_eq!(claims.aud, "QuantConsole-Client");
    assert_eq!(s.verify_token(&r.access_token, T0 + 3601).err(), Some(AuthError::Expired));
    assert!(s.verify_token(&r.refresh_token, T0 + 3601).is_ok());
    assert!(s.verify_token(&r.refresh_token, T0 + 604800).is_ok());
    assert_eq!(s.verify_token(&r.refresh_token, T0 + 604801).err(), Some(AuthError::Expired));
}

#[test]
fn tampered_or_foreign_tokens_fail() {
    let mut s = service();
    let r = s.register(reg("a@x.com", "pw", "alice"), "ip".into(), "ua".into(), T0).unwrap();
    let mut bad = r.access_token.clone();
    bad.push('x');
    assert_eq!(s.verify_token(&bad, T0).err(), Some(AuthError::InvalidToken));
    let other = AuthService::new("another-secret".to_string());
    assert_eq!(other.verify_token(&r.access_token, T0).err(), Some(AuthError::InvalidToken));
    assert_eq!(s.verify_token("not a token", T0).err(), Some(AuthError::InvalidToken));
}

#[test]
fn refresh_rotates_and_stale_token_fails() {
    let mut s = service();
    let r = s.register(reg("a@x.com", "pw", "alice"), "ip".into(), "ua".into(), T0).unwrap();
    let sessions = s.session_count();
    let pair = s.refresh_token(r.refresh_token.clone(), T0 + 10).unwrap();
    assert_ne!(pair.1, r.refresh_token);
    assert_eq!(s.session_count(), sessions);
    assert_eq!(s.refresh_token(r.refresh_token.clone(), T0 + 11).err(), Some(AuthError::InvalidToken));
    assert!(s.refresh_token(pair.1.clone(), T0 + 12).is_ok());
}

#[test]
fn refresh_same_second_still_rotates() {
    let mut s = service();
    let r = s.register(reg("a@x.com", "pw", "alice"), "ip".into(), "ua".into(), T0).unwrap();
    let pair = s.refresh_token(r.refresh_token.clone(), T0).unwrap();
    assert_ne!(pair.1, r.refresh_token);
}

#[test]
fn expired_session_cannot_refresh() {
    let mut s = service();
    let r = s.register(reg("a@x.com", "pw", "alice"), "ip".into(), "ua".into(), T0).unwrap();
    assert_eq!(s.refresh_token(r.refresh_token.clone(), T0 + 604801).err(), Some(AuthError::Expired));
}

#[test]
fn logout_all_devices_blocks_every_refresh() {
    let mut s = service();
    let r = s.register(reg("a@x.com", "pw", "alice"), "ip".into(), "ua".into(), T0).unwrap();
    let l = s.login(login_req("a@x.com", "pw", None), "ip".into(), "ua".into(), T0 + 1).unwrap();
    let rotated = s.refresh_token(l.refresh_token.clone(), T0 + 2).unwrap();
    s.logout_all_devices(r.user.id.clone(), T0 + 3);
    assert_eq!(s.session_count(), 0);
    for t in [&r.refresh_token, &l.refresh_token, &rotated.1] {
        assert_eq!(s.refresh_token(t.clone(), T0 + 4).err(), Some(AuthError::InvalidToken));
    }
    let page = s.get_security_events(&r.user.id, &all_events()).unwrap();
    assert_eq!(page.events[0].event_type, EventType::LogoutAllDevices);
}

#[test]
fn logout_removes_only_that_session() {
    let mut s = service();
    let r = s.register(reg("a@x.com", "pw", "alice"), "ip".into(), "ua".into(), T0).unwrap();
    let l = s.login(login_req("a@x.com", "pw", None), "ip".into(), "ua".into(), T0 + 1).unwrap();
    assert_eq!(s.session_count(), 2);
    s.logout(r.user.id.clone(), l.refresh_token.clone(), T0 + 2);
    assert_eq!(s.session_count(), 1);
    assert_eq!(s.refresh_token(l.refresh_token.clone(), T0 + 3).err(), Some(AuthError::InvalidToken));
    assert!(s.refresh_token(r.refresh_token.clone(), T0 + 3).is_ok());
}

#[test]
fn two_factor_required_after_enrolment() {
    let mut s = service();
    let r = s.register(reg("a@x.com", "pw", "alice"), "ip".into(), "ua".into(), T0).unwrap();
    let setup = s.setup_two_factor(&r.user.id).unwrap();
    assert_eq!(setup.backup_codes.len(), 8);
    assert_eq!(
        setup.qr_code_url,
        format!("otpauth://totp/QuantConsole:a@x.com?secret={}&issuer=QuantConsole", setup.secret_key)
    );
    // enrolment is not active until confirmed
    assert!(s.login(login_req("a@x.com", "pw", None), "ip".into(), "ua".into(), T0 + 1).is_ok());
    let code = current_code(&setup.secret_key, T0 + 2);
    let backup = s.verify_and_enable_two_factor(&r.user.id, &code, T0 + 2).unwrap();
    assert_eq!(backup.len(), 8);
    let e = s.login(login_req("a@x.com", "pw", None), "ip".into(), "ua".into(), T0 + 3);
    assert_eq!(e.err(), Some(AuthError::TwoFactorRequired));
    let code = current_code(&setup.secret_key, T0 + 4);
    let before = s.session_count();
    assert!(s.login(login_req("a@x.com", "pw", Some(&code)), "ip".into(), "ua".into(), T0 + 4).is_ok());
    assert_eq!(s.session_count(), before + 1);
}

#[test]
fn wrong_two_factor_code_is_rejected() {
    let mut s = service();
    let r = s.register(reg("a@x.com", "pw", "alice"), "ip".into(), "ua".into(), T0).unwrap();
    let setup = s.setup_two_factor(&r.user.id).unwrap();
    let code = current_code(&setup.secret_key, T0);
    assert_eq!(s.verify_and_enable_two_factor(&r.user.id, &wrong_code(&code), T0).err(), Some(AuthError::InvalidCode));
    s.verify_and_enable_two_factor(&r.user.id, &code, T0).unwrap();
    let good = current_code(&setup.secret_key, T0 + 100);
    let events = s.event_count();
    let e = s.login(login_req("a@x.com", "pw", Some(&wrong_code(&good))), "ip".into(), "ua".into(), T0 + 100);
    assert_eq!(e.err(), Some(AuthError::InvalidTwoFactorCode));
    assert_eq!(s.event_count(), events + 1);
    let page = s.get_security_events(&r.user.id, &all_events()).unwrap();
    assert_eq!(page.events[0].event_type, EventType::LoginFailed2fa);
}

#[test]
fn two_factor_for_unknown_user() {
    let mut s = service();
    assert_eq!(s.setup_two_factor("missing").err(), Some(AuthError::UserNotFound));
    assert_eq!(s.verify_and_enable_two_factor("missing", "123456", T0).err(), Some(AuthError::UserNotFound));
}

#[test]
fn confirm_without_setup_is_invalid_code() {
    let mut s = service();
    let r = s.register(reg("a@x.com", "pw", "alice"), "ip".into(), "ua".into(), T0).unwrap();
    assert_eq!(s.verify_and_enable_two_factor(&r.user.id, "123456", T0).err(), Some(AuthError::InvalidCode));
}

#[test]
fn ip_change_is_rejected_with_high_severity_event() {
    let mut s = service();
    let r = s.register(reg("a@x.com", "pw", "alice"), "1.2.3.4".into(), "UA".into(), T0).unwrap();
    let devices = s.get_active_devices(&r.user.id);
    assert_eq!(devices.len(), 1);
    let sid = devices[0].device_id.clone();
    assert!(!s.verify_session_security(&r.user.id, &sid, "9.9.9.9", "UA", T0 + 1));
    let page = s.get_security_events(&r.user.id, &all_events()).unwrap();
    assert_eq!(page.events[0].event_type, EventType::SuspiciousIp);
    assert_eq!(page.events[0].severity, Severity::High);
    assert_eq!(page.events[0].description, "session IP address changed: 1.2.3.4 -> 9.9.9.9");
}

#[test]
fn user_agent_change_is_accepted_with_medium_event() {
    let mut s = service();
    let r = s.register(reg("a@x.com", "pw", "alice"), "1.2.3.4".into(), "UA".into(), T0).unwrap();
    let sid = s.get_active_devices(&r.user.id)[0].device_id.clone();
    let events = s.event_count();
    assert!(s.verify_session_security(&r.user.id, &sid, "1.2.3.4", "UA", T0 + 1));
    assert_eq!(s.event_count(), events);
    assert!(s.verify_session_security(&r.user.id, &sid, "1.2.3.4", "Other", T0 + 1));
    let page = s.get_security_events(&r.user.id, &all_events()).unwrap();
    assert_eq!(page.events[0].event_type, EventType::SuspiciousUserAgent);
    assert_eq!(page.events[0].severity, Severity::Medium);
    assert!(!s.verify_session_security(&r.user.id, "unknown", "1.2.3.4", "UA", T0 + 1));
}

#[test]
fn revoke_device_removes_its_session() {
    let mut s = service();
    let r = s.register(reg("a@x.com", "pw", "alice"), "ip".into(), "Mozilla Windows Chrome".into(), T0).unwrap();
    s.login(login_req("a@x.com", "pw", None), "ip2".into(), "iPhone Mobile Safari".into(), T0 + 1).unwrap();
    let devices = s.get_active_devices(&r.user.id);
    assert_eq!(devices.len(), 2);
    assert_eq!(devices[0].browser, "Chrome");
    assert_eq!(devices[0].os, "Windows");
    assert_eq!(devices[0].device_name, "Desktop");
    assert_eq!(devices[1].device_name, "Mobile device");
    assert_eq!(devices[1].browser, "Safari");
    s.revoke_device_access(r.user.id.clone(), &devices[0].device_id, T0 + 2);
    let left = s.get_active_devices(&r.user.id);
    assert_eq!(left.len(), 1);
    assert_eq!(left[0].device_id, devices[1].device_id);
    let page = s.get_security_events(&r.user.id, &all_events()).unwrap();
    assert_eq!(page.events[0].event_type, EventType::DeviceRevoked);
    assert_eq!(page.events[0].description, format!("device access revoked: {}", devices[0].device_id));
}

#[test]
fn security_events_paginate_newest_first() {
    let mut s = service();
    let r = s.register(reg("a@x.com", "pw", "alice"), "ip".into(), "ua".into(), T0).unwrap();
    for k in 0..4 {
        let _ = s.login(login_req("a@x.com", "bad", None), "ip".into(), "ua".into(), T0 + 1 + k);
    }
    let q = SecurityEventQuery { page: Some(1), limit: Some(2), event_type: None, severity: None };
    let first_page = s.get_security_events(&r.user.id, &q).unwrap();
    assert_eq!(first_page.pagination.total, 5);
    assert_eq!(first_page.pagination.total_pages, 3);
    assert_eq!(first_page.events.len(), 2);
    assert_eq!(first_page.events[0].created_at, T0 + 4);
    let third_query = SecurityEventQuery { page: Some(3), limit: Some(2), event_type: None, severity: None };
    let third_page = s.get_security_events(&r.user.id, &third_query).unwrap();
    assert_eq!(third_page.events.len(), 1);
    assert_eq!(third_page.events[0].event_type, EventType::Register);
    let far_query = SecurityEventQuery { page: Some(9), limit: Some(2), event_type: None, severity: None };
    assert!(s.get_security_events(&r.user.id, &far_query).unwrap().events.is_empty());
    let typed = SecurityEventQuery { page: None, limit: None, event_type: Some("register".into()), severity: None };
    let typed_page = s.get_security_events(&r.user.id, &typed).unwrap();
    assert_eq!(typed_page.pagination.total, 1);
    assert_eq!(typed_page.pagination.page, 1);
    assert_eq!(typed_page.pagination.per_page, 20);
    let sev = SecurityEventQuery { page: None, limit: None, event_type: None, severity: Some("medium".into()) };
    assert_eq!(s.get_security_events(&r.user.id, &sev).unwrap().pagination.total, 4);
    assert!(s.get_security_events("someone else", &all_events()).unwrap().events.is_empty());
}

#[test]
fn zero_page_or_limit_is_refused() {
    let s = service();
    let q = SecurityEventQuery { page: Some(0), limit: None, event_type: None, severity: None };
    assert_eq!(s.get_security_events("u", &q).err(), Some(AuthError::InvalidQuery));
    let q = SecurityEventQuery { page: None, limit: Some(0), event_type: None, severity: None };
    assert_eq!(s.get_security_events("u", &q).err(), Some(AuthError::InvalidQuery));
}

#[test]
fn bearer_header_identifies_caller() {
    let mut s = service();
    let r = s.register(reg("a@x.com", "pw", "alice"), "ip".into(), "ua".into(), T0).unwrap();
    let header = format!("Bearer {}", r.access_token);
    let user = s.extract_user_from_token(Some(&header), T0 + 1).unwrap();
    assert_eq!(user.id, r.user.id);
    assert_eq!(s.extract_user_from_token(None, T0).err(), Some(AuthError::InvalidToken));
    assert_eq!(s.extract_user_from_token(Some(&r.access_token), T0).err(), Some(AuthError::InvalidToken));
    assert_eq!(s.extract_user_from_token(Some(&header), T0 + 7200).err(), Some(AuthError::Expired));
}

#[test]
fn open_account_reports_used_ids_as_internal() {
    let mut s = service();
    let r = s.register(reg("a@x.com", "pw", "alice"), "ip".into(), "ua".into(), T0).unwrap();
    let hash = quant_auth::password::hash_password("pw2").unwrap();
    let sid = s.get_active_devices(&r.user.id)[0].device_id.clone();
    let e = s.open_account(reg("b@x.com", "pw2", "bob"), hash.clone(), r.user.id.clone(), "fresh-session".into(), "ip".into(), "ua".into(), T0);
    assert_eq!(e.err(), Some(AuthError::Internal));
    let e = s.open_account(reg("b@x.com", "pw2", "bob"), hash.clone(), "fresh-user".into(), sid, "ip".into(), "ua".into(), T0);
    assert_eq!(e.err(), Some(AuthError::Internal));
    let ok = s.open_account(reg("b@x.com", "pw2", "bob"), hash.clone(), "fresh-user".into(), "fresh-session".into(), "ip".into(), "ua".into(), T0).unwrap();
    assert_eq!(ok.user.id, "fresh-user");
    assert_eq!(s.get_active_devices("fresh-user")[0].device_id, "fresh-session");
    let e = s.open_account(reg("b@x.com", "pw2", "carol"), hash, "u3".into(), "s3".into(), "ip".into(), "ua".into(), T0);
    assert_eq!(e.err(), Some(AuthError::EmailTaken));
}

#[test]
fn login_with_used_session_id_is_internal() {
    let mut s = service();
    let r = s.register(reg("a@x.com", "pw", "alice"), "ip".into(), "ua".into(), T0).unwrap();
    let sid = s.get_active_devices(&r.user.id)[0].device_id.clone();
    let events = s.event_count();
    let e = s.login_with(login_req("a@x.com", "pw", None), sid, "ip".into(), "ua".into(), T0 + 1);
    assert_eq!(e.err(), Some(AuthError::Internal));
    assert_eq!(s.event_count(), events);
    assert_eq!(s.session_count(), 1);
    let ok = s.login_with(login_req("a@x.com", "pw", None), "second".into(), "ip".into(), "ua".into(), T0 + 1).unwrap();
    assert_eq!(s.verify_token(&ok.access_token, T0 + 1).unwrap().session_id, "second");
}

#[test]
fn refresh_with_repeated_pair_id_is_internal() {
    let mut s = service();
    let r = s.register(reg("a@x.com", "pw", "alice"), "ip".into(), "ua".into(), T0).unwrap();
    let (_, t2) = s.refresh_with(r.refresh_token.clone(), "pair-1".into(), T0 + 5).unwrap();
    assert_eq!(s.verify_token(&t2, T0 + 5).unwrap().session_id, "pair-1");
    // the same pair id at the same second signs the very token the session already holds
    let e = s.refresh_with(t2.clone(), "pair-1".into(), T0 + 5);
    assert_eq!(e.err(), Some(AuthError::Internal));
    assert!(s.refresh_with(t2, "pair-2".into(), T0 + 5).is_ok());
}

#[test]
fn event_ids_are_unique_and_positioned() {
    let mut s = service();
    let r = s.register(reg("a@x.com", "pw", "alice"), "ip".into(), "ua".into(), T0).unwrap();
    let _ = s.login(login_req("a@x.com", "bad", None), "ip".into(), "ua".into(), T0 + 1);
    let page = s.get_security_events(&r.user.id, &all_events()).unwrap();
    assert_eq!(page.events.len(), 2);
    assert!(page.events[0].id.ends_with("-1"));
    assert!(page.events[1].id.ends_with("-0"));
    assert_ne!(page.events[0].id, page.events[1].id);
    assert_eq!(page.events[0].id.len(), 38);
}

#[test]
fn events_sort_by_time_not_by_log_position() {
    let mut s = service();
    let r = s.register(reg("a@x.com", "pw", "alice"), "ip".into(), "ua".into(), T0 + 100).unwrap();
    let _ = s.login(login_req("a@x.com", "bad", None), "ip".into(), "ua".into(), T0 + 50);
    let _ = s.login(login_req("a@x.com", "bad", None), "ip".into(), "ua".into(), T0 + 100);
    let page = s.get_security_events(&r.user.id, &all_events()).unwrap();
    let times: Vec<i64> = page.events.iter().map(|e| e.created_at).collect();
    assert_eq!(times, vec![T0 + 100, T0 + 100, T0 + 50]);
    assert_eq!(page.events[0].event_type, EventType::LoginFailed);
    assert_eq!(page.events[1].event_type, EventType::Register);
}
