//! The records the subsystem keeps, and the shapes of its requests and responses.
//! Times are unix seconds.

use vstd::prelude::*;

verus! {

/// An account.
#[derive(Debug)]
pub struct User {
    pub id: String,
    pub email: String,
    pub username: String,
    pub password_hash: String,
    pub first_name: Option<String>,
    pub last_name: Option<String>,
    pub avatar: Option<String>,
    pub is_email_verified: bool,
    pub email_verification_token: Option<String>,
    pub email_verification_expires_at: Option<i64>,
    pub is_two_factor_enabled: bool,
    /// The base32 second-factor secret, once enrolment has begun.
    pub two_factor_secret: Option<String>,
    pub role: String,
    pub is_active: bool,
    pub last_login_at: Option<i64>,
    pub last_login_ip: Option<String>,
    pub created_at: i64,
    pub updated_at: i64,
}

/// One live refresh token and the device that holds it.
#[derive(Debug)]
pub struct Session {
    pub id: String,
    pub user_id: String,
    pub refresh_token: String,
    pub device_info: Option<String>,
    pub ip_address: String,
    pub user_agent: String,
    pub location: Option<String>,
    pub is_active: bool,
    pub expires_at: i64,
    pub last_accessed_at: i64,
    pub created_at: i64,
    pub updated_at: i64,
}

/// The kinds of security event.
#[derive(Debug, Clone, Copy, PartialEq, Eq, Structural)]
pub enum EventType {
    Register,
    Login,
    LoginFailed,
    LoginFailed2fa,
    SuspiciousIp,
    SuspiciousUserAgent,
    DeviceRevoked,
    Logout,
    LogoutAllDevices,
}

pub open spec fn event_type_name(t: EventType) -> Seq<char> {
    match t {
        EventType::Register => "register"@,
        EventType::Login => "login"@,
        EventType::LoginFailed => "login_failed"@,
        EventType::LoginFailed2fa => "login_failed_2fa"@,
        EventType::SuspiciousIp => "suspicious_ip"@,
        EventType::SuspiciousUserAgent => "suspicious_user_agent"@,
        EventType::DeviceRevoked => "device_revoked"@,
        EventType::Logout => "logout"@,
        EventType::LogoutAllDevices => "logout_all_devices"@,
    }
}

impl EventType {
    pub fn as_str(&self) -> (r: &'static str)
        ensures
            r@ == event_type_name(*self),
    {
        match self {
            EventType::Register => "register",
            EventType::Login => "login",
            EventType::LoginFailed => "login_failed",
            EventType::LoginFailed2fa => "login_failed_2fa",
            EventType::SuspiciousIp => "suspicious_ip",
            EventType::SuspiciousUserAgent => "suspicious_user_agent",
            EventType::DeviceRevoked => "device_revoked",
            EventType::Logout => "logout",
            EventType::LogoutAllDevices => "logout_all_devices",
        }
    }
}

/// How much a security event matters.
#[derive(Debug, Clone, Copy, PartialEq, Eq, Structural)]
pub enum Severity {
    Low,
    Medium,
    High,
}

pub open spec fn severity_name(s: Severity) -> Seq<char> {
    match s {
        Severity::Low => "low"@,
        Severity::Medium => "medium"@,
        Severity::High => "high"@,
    }
}

impl Severity {
    pub fn as_str(&self) -> (r: &'static str)
        ensures
            r@ == severity_name(*self),
    {
        match self {
            Severity::Low => "low",
            Severity::Medium => "medium",
            Severity::High => "high",
        }
    }
}

/// An immutable audit record.
#[derive(Debug)]
pub struct SecurityEvent {
    pub id: String,
    pub user_id: String,
    pub event_type: EventType,
    pub description: String,
    pub ip_address: String,
    pub user_agent: String,
    pub location: Option<String>,
    pub severity: Severity,
    pub metadata: Option<String>,
    pub created_at: i64,
}

impl SecurityEvent {
    /// An identical copy.
    pub fn copy(&self) -> (r: SecurityEvent)
        ensures
            r == *self,
    {
        SecurityEvent {
            id: self.id.clone(),
            user_id: self.user_id.clone(),
            event_type: self.event_type,
            description: self.description.clone(),
            ip_address: self.ip_address.clone(),
            user_agent: self.user_agent.clone(),
            location: clone_opt(&self.location),
            severity: self.severity,
            metadata: clone_opt(&self.metadata),
            created_at: self.created_at,
        }
    }
}

#[derive(Debug)]
pub struct RegisterRequest {
    pub email: String,
    pub password: String,
    pub username: String,
    pub first_name: Option<String>,
    pub last_name: Option<String>,
}

#[derive(Debug)]
pub struct LoginRequest {
    pub email: String,
    pub password: String,
    pub remember_me: Option<bool>,
    pub two_factor_code: Option<String>,
}

/// What a client may see of an account: never the password hash or the
/// second-factor secret.
#[derive(Debug)]
pub struct UserResponse {
    pub id: String,
    pub email: String,
    pub username: String,
    pub first_name: Option<String>,
    pub last_name: Option<String>,
    pub avatar: Option<String>,
    pub is_email_verified: bool,
    pub is_two_factor_enabled: bool,
    pub role: String,
    pub created_at: i64,
    pub last_login_at: Option<i64>,
}

#[derive(Debug)]
pub struct AuthResponse {
    pub user: UserResponse,
    pub access_token: String,
    pub refresh_token: String,
    /// Seconds until the access token expires.
    pub expires_in: i64,
}

#[derive(Debug)]
pub struct TwoFactorSetupResponse {
    pub qr_code_url: String,
    pub secret_key: String,
    pub backup_codes: Vec<String>,
}

/// One entry of the device list, derived from a session.
#[derive(Debug)]
pub struct DeviceInfo {
    pub device_id: String,
    pub device_name: String,
    pub browser: String,
    pub os: String,
    pub ip_address: String,
    pub location: Option<String>,
    pub last_seen: i64,
    pub is_current_device: bool,
    pub is_trusted: bool,
}

/// Filters and paging for the security event list; pages count from 1.
#[derive(Debug)]
pub struct SecurityEventQuery {
    pub page: Option<u64>,
    pub limit: Option<u64>,
    pub event_type: Option<String>,
    pub severity: Option<String>,
}

#[derive(Debug)]
pub struct PaginationInfo {
    pub page: u64,
    pub per_page: u64,
    pub total: u64,
    pub total_pages: u64,
}

#[derive(Debug)]
pub struct SecurityEventPage {
    pub events: Vec<SecurityEvent>,
    pub pagination: PaginationInfo,
}

/// The caller that a bearer access token identifies.
#[derive(Debug)]
pub struct AuthUser {
    pub id: String,
}

/// A copy of an optional text.
pub fn clone_opt(o: &Option<String>) -> (r: Option<String>)
    ensures
        r == *o,
{
    match o {
        Some(s) => Some(s.clone()),
        None => None,
    }
}

} // verus!
