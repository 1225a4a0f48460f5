use quant_auth::device::{fingerprint_from_digest, parse_browser, parse_device_name, parse_os};
use quant_auth::service::AuthService;
use quant_auth::error::AuthError;
use quant_auth::model::{EventType, Severity};
use quant_auth::response::{ApiError, ApiResponse, ErrorCode};
use quant_auth::text::contains;
use quant_auth::token::{new_claims, Claims, TokenIssuer};
use quant_auth::totp::{backup_code, encode_secret, generate_backup_codes, generate_secret, provisioning_uri, verify_code};

#[test]
fn error_code_names() {
    assert_eq!(ErrorCode::ValidationError.as_str(), "VALIDATION_ERROR");
    assert_eq!(ErrorCode::AuthenticationError.as_str(), "AUTHENTICATION_ERROR");
    assert_eq!(ErrorCode::AuthorizationError.as_str(), "AUTHORIZATION_ERROR");
    assert_eq!(ErrorCode::NotFoundError.as_str(), "NOT_FOUND_ERROR");
    assert_eq!(ErrorCode::ConflictError.as_str(), "CONFLICT_ERROR");
    assert_eq!(ErrorCode::InternalError.as_str(), "INTERNAL_ERROR");
}

#[test]
fn auth_error_classes() {
    assert_eq!(AuthError::EmailTaken.code(), ErrorCode::ConflictError);
    assert_eq!(AuthError::UsernameTaken.code(), ErrorCode::ConflictError);
    assert_eq!(AuthError::InvalidCredentials.code(), ErrorCode::AuthenticationError);
    assert_eq!(AuthError::TwoFactorRequired.code(), ErrorCode::AuthenticationError);
    assert_eq!(AuthError::UserNotFound.code(), ErrorCode::NotFoundError);
    assert_eq!(AuthError::InvalidQuery.code(), ErrorCode::ValidationError);
    assert_eq!(AuthError::Internal.code(), ErrorCode::InternalError);
}

#[test]
fn response_envelopes() {
    let ok = ApiResponse::success(7u32);
    assert!(ok.success);
    assert_eq!(ok.data, Some(7));
    assert!(ok.message.is_none() && ok.errors.is_none());
    assert!(!ok.timestamp.is_empty());
    let err = ApiResponse::<()>::error(ErrorCode::ConflictError, "taken");
    assert!(!err.success);
    assert_eq!(err.message.as_deref(), Some("taken"));
    let es = err.errors.unwrap();
    assert_eq!(es.len(), 1);
    assert_eq!(es[0].code, "CONFLICT_ERROR");
    assert_eq!(es[0].message, "taken");
    let v = ApiResponse::<()>::validation_error(vec![ApiError { field: Some("email".into()), code: "X".into(), message: "m".into() }]);
    assert!(!v.success);
    assert_eq!(v.errors.unwrap()[0].field.as_deref(), Some("email"));
}

#[test]
fn event_and_severity_names() {
    assert_eq!(EventType::LoginFailed2fa.as_str(), "login_failed_2fa");
    assert_eq!(EventType::SuspiciousUserAgent.as_str(), "suspicious_user_agent");
    assert_eq!(EventType::LogoutAllDevices.as_str(), "logout_all_devices");
    assert_eq!(Severity::High.as_str(), "high");
}

#[test]
fn substring_search() {
    assert!(contains("Mozilla/5.0 (Windows NT)", "Windows"));
    assert!(contains("abc", ""));
    assert!(!contains("ab", "abc"));
    assert!(!contains("Mac", "Macintosh"));
}

#[test]
fn user_agent_classification() {
    assert_eq!(parse_device_name("Mozilla (iPhone) Mobile"), "Mobile device");
    assert_eq!(parse_device_name("Tablet thing"), "Tablet");
    assert_eq!(parse_device_name("curl"), "Desktop");
    assert_eq!(parse_browser("Chrome Safari"), "Chrome");
    assert_eq!(parse_browser("Firefox"), "Firefox");
    assert_eq!(parse_browser("Edge"), "Edge");
    assert_eq!(parse_browser("curl"), "Unknown");
    assert_eq!(parse_os("Macintosh"), "macOS");
    assert_eq!(parse_os("Linux; Android"), "Linux");
    assert_eq!(parse_os("Android"), "Android");
    assert_eq!(parse_os("iOS"), "iOS");
    assert_eq!(parse_os(""), "Unknown");
}

#[test]
fn device_fingerprint_is_sha256_prefix() {
    let f = AuthService::generate_device_fingerprint("Mozilla/5.0", "1.2.3.4");
    assert_eq!(f, "e4619246135de52cded403fa5d962a7e");
    assert_eq!(f.len(), 32);
    assert_ne!(f, AuthService::generate_device_fingerprint("Mozilla/5.0", "1.2.3.5"));
    let digest: Vec<u8> = (0u8..32).collect();
    assert_eq!(fingerprint_from_digest(&digest), "000102030405060708090a0b0c0d0e0f");
}

#[test]
fn base32_secret_encoding() {
    assert_eq!(encode_secret(b"foobar"), "MZXW6YTBOI======");
    assert_eq!(generate_secret().len(), 32);
}

#[test]
fn backup_codes_shape() {
    assert_eq!(backup_code(7, 1234), "0007-1234");
    assert_eq!(backup_code(0, 0), "0000-0000");
    let codes = generate_backup_codes();
    assert_eq!(codes.len(), 8);
    for c in &codes {
        let b = c.as_bytes();
        assert_eq!(b.len(), 9);
        assert_eq!(b[4], b'-');
        assert!(b.iter().enumerate().all(|(i, x)| i == 4 || x.is_ascii_digit()));
    }
}

#[test]
fn provisioning_uri_layout() {
    assert_eq!(
        provisioning_uri("QuantConsole", "a@x.com", "ABC"),
        "otpauth://totp/QuantConsole:a@x.com?secret=ABC&issuer=QuantConsole"
    );
}

#[test]
fn totp_code_checks() {
    let raw = vec![7u8; 20];
    let key = encode_secret(&raw);
    let t: u64 = 1_700_000_000;
    let code = totp_rs::TOTP::new(totp_rs::Algorithm::SHA1, 6, 1, 30, raw.clone()).unwrap().generate(t);
    assert_eq!(verify_code(&Some(key.clone()), &code, t), Ok(true));
    assert_eq!(verify_code(&Some(key.clone()), &code, t + 30), Ok(true));
    assert_eq!(verify_code(&Some(key.clone()), &code, t + 300), Ok(false));
    assert_eq!(verify_code(&None, &code, t), Ok(false));
    assert_eq!(verify_code(&Some("not base32!".into()), &code, t), Err(AuthError::Internal));
    assert_eq!(verify_code(&Some(encode_secret(&[1u8; 8])), &code, t), Err(AuthError::Internal));
}

#[test]
fn claims_json_round_trip() {
    let mut c = new_claims("u\"1", "a@x.com", "al\\ice", "user", "s\n1", 100, 3600);
    c.ip_address = Some("1.2.3.4".into());
    let text = c.to_json();
    assert_eq!(
        text,
        "{\"sub\":\"u\\\"1\",\"email\":\"a@x.com\",\"username\":\"al\\\\ice\",\"role\":\"user\",\"session_id\":\"s\\u000a1\",\"device_id\":null,\"ip_address\":\"1.2.3.4\",\"exp\":3700,\"iat\":100,\"iss\":\"QuantConsole\",\"aud\":\"QuantConsole-Client\"}"
    );
    let back = Claims::from_json(&text).unwrap();
    assert_eq!(back.sub, "u\"1");
    assert_eq!(back.username, "al\\ice");
    assert_eq!(back.session_id, "s\n1");
    assert_eq!(back.exp, 3700);
    assert!(back.device_id.is_none());
    assert!(Claims::from_json("{\"sub\":1}").is_none());
    let neg = new_claims("a", "b", "c", "d", "e", -50, 10);
    assert_eq!(Claims::from_json(&neg.to_json()).unwrap().iat, -50);
}

#[test]
fn claims_check_issuer_audience_expiry() {
    let c = new_claims("u", "e", "n", "user", "s", 1000, 3600);
    assert_eq!(c.check(4600), Ok(()));
    assert_eq!(c.check(4601), Err(AuthError::Expired));
    let mut other = new_claims("u", "e", "n", "user", "s", 1000, 3600);
    other.aud = "someone".into();
    assert_eq!(other.check(1000), Err(AuthError::InvalidToken));
}

#[test]
fn issued_tokens_are_signed_claims() {
    let issuer = TokenIssuer::new("k".into());
    let pair = issuer.issue_pair("u", "e@x", "name", "user", "sid", 1000).unwrap();
    assert_eq!(pair.access_token.split('.').count(), 3);
    let a = issuer.verify(&pair.access_token, 1000).unwrap();
    assert_eq!(a.exp, 4600);
    assert_eq!(a.session_id, "sid");
    let r = issuer.verify(&pair.refresh_token, 1000).unwrap();
    assert_eq!(r.exp, 1000 + 604800);
    assert_ne!(pair.access_token, pair.refresh_token);
}

#[test]
fn password_hash_round_trip() {
    let h = quant_auth::password::hash_password("hunter2").unwrap();
    assert!(h.starts_with("$2b$12$"));
    assert_eq!(quant_auth::password::verify_password("hunter2", &h), Ok(true));
    assert_eq!(quant_auth::password::verify_password("hunter3", &h), Ok(false));
    assert_eq!(quant_auth::password::verify_password("hunter2", "garbage"), Err(AuthError::Internal));
}
