//! The envelope in which every operation's outcome is handed to a client.

use vstd::prelude::*;

verus! {

/// The coarse error classes reported to a client.
#[derive(Debug, Clone, Copy, PartialEq, Eq, Structural)]
pub enum ErrorCode {
    ValidationError,
    AuthenticationError,
    AuthorizationError,
    NotFoundError,
    ConflictError,
    InternalError,
}

/// The wire name of each error class.
pub open spec fn error_code_name(c: ErrorCode) -> Seq<char> {
    match c {
        ErrorCode::ValidationError => "VALIDATION_ERROR"@,
        ErrorCode::AuthenticationError => "AUTHENTICATION_ERROR"@,
        ErrorCode::AuthorizationError => "AUTHORIZATION_ERROR"@,
        ErrorCode::NotFoundError => "NOT_FOUND_ERROR"@,
        ErrorCode::ConflictError => "CONFLICT_ERROR"@,
        ErrorCode::InternalError => "INTERNAL_ERROR"@,
    }
}

impl ErrorCode {
    pub fn as_str(&self) -> (r: &'static str)
        ensures
            r@ == error_code_name(*self),
    {
        match self {
            ErrorCode::ValidationError => "VALIDATION_ERROR",
            ErrorCode::AuthenticationError => "AUTHENTICATION_ERROR",
            ErrorCode::AuthorizationError => "AUTHORIZATION_ERROR",
            ErrorCode::NotFoundError => "NOT_FOUND_ERROR",
            ErrorCode::ConflictError => "CONFLICT_ERROR",
            ErrorCode::InternalError => "INTERNAL_ERROR",
        }
    }
}

/// One error entry of a response.
#[derive(Debug)]
pub struct ApiError {
    pub field: Option<String>,
    pub code: String,
    pub message: String,
}

/// The response envelope.
#[derive(Debug)]
pub struct ApiResponse<T> {
    pub success: bool,
    pub data: Option<T>,
    pub message: Option<String>,
    pub errors: Option<Vec<ApiError>>,
    pub timestamp: String,
}

/// Relies on chrono's `Utc::now` and `to_rfc3339`: the current time as text.
/// Nothing is promised of the value, which depends on the clock.
#[verifier::external_body]
fn now_rfc3339() -> (r: String) {
    chrono::Utc::now().to_rfc3339()
}

impl<T> ApiResponse<T> {
    /// A successful response carrying `data`.
    pub fn success(data: T) -> (r: Self)
        ensures
            r.success,
            r.data == Some(data),
            r.message is None,
            r.errors is None,
    {
        ApiResponse { success: true, data: Some(data), message: None, errors: None, timestamp: now_rfc3339() }
    }

    /// A failed response with one error entry of class `code`.
    pub fn error(code: ErrorCode, message: &str) -> (r: ApiResponse<()>)
        ensures
            !r.success,
            r.data is None,
            r.message matches Some(m) && m@ == message@,
            r.errors matches Some(es) && es@.len() == 1 && es@[0].field is None
                && es@[0].code@ == error_code_name(code) && es@[0].message@ == message@,
    {
        let entry = ApiError {
            field: None,
            code: code.as_str().to_owned(),
            message: message.to_owned(),
        };
        ApiResponse {
            success: false,
            data: None,
            message: Some(message.to_owned()),
            errors: Some(vec![entry]),
            timestamp: now_rfc3339(),
        }
    }

    /// A failed response listing field-level validation errors.
    pub fn validation_error(errors: Vec<ApiError>) -> (r: ApiResponse<()>)
        ensures
            !r.success,
            r.data is None,
            r.message matches Some(m) && m@ == "validation failed"@,
            r.errors == Some(errors),
    {
        ApiResponse {
            success: false,
            data: None,
            message: Some("validation failed".to_owned()),
            errors: Some(errors),
            timestamp: now_rfc3339(),
        }
    }
}

} // verus!
