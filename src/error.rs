//! The failures of the authentication operations.

use vstd::prelude::*;
use crate::response::ErrorCode;

verus! {

/// Why an authentication operation failed.
#[derive(Debug, Clone, Copy, PartialEq, Eq, Structural)]
pub enum AuthError {
    /// The email address belongs to an existing account.
    EmailTaken,
    /// The username belongs to an existing account.
    UsernameTaken,
    /// No account has this email, or the password is wrong.
    InvalidCredentials,
    /// The account has a second factor and no code was given.
    TwoFactorRequired,
    /// The second-factor code given at login is wrong.
    InvalidTwoFactorCode,
    /// The refresh or access token is unknown, revoked, stale or forged.
    InvalidToken,
    /// The token or its session has expired.
    Expired,
    /// The account does not exist.
    UserNotFound,
    /// The code given to confirm second-factor enrolment is wrong.
    InvalidCode,
    /// A page number or page size of zero.
    InvalidQuery,
    /// A hashing, encoding or randomness failure; never a verdict on the caller.
    Internal,
}

/// The class under which each failure is reported.
pub open spec fn error_class(e: AuthError) -> ErrorCode {
    match e {
        AuthError::EmailTaken | AuthError::UsernameTaken => ErrorCode::ConflictError,
        AuthError::InvalidCredentials | AuthError::TwoFactorRequired
        | AuthError::InvalidTwoFactorCode | AuthError::InvalidToken | AuthError::Expired
        | AuthError::InvalidCode => ErrorCode::AuthenticationError,
        AuthError::UserNotFound => ErrorCode::NotFoundError,
        AuthError::InvalidQuery => ErrorCode::ValidationError,
        AuthError::Internal => ErrorCode::InternalError,
    }
}

impl AuthError {
    pub fn code(&self) -> (r: ErrorCode)
        ensures
            r == error_class(*self),
    {
        match self {
            AuthError::EmailTaken | AuthError::UsernameTaken => ErrorCode::ConflictError,
            AuthError::InvalidCredentials | AuthError::TwoFactorRequired
            | AuthError::InvalidTwoFactorCode | AuthError::InvalidToken | AuthError::Expired
            | AuthError::InvalidCode => ErrorCode::AuthenticationError,
            AuthError::UserNotFound => ErrorCode::NotFoundError,
            AuthError::InvalidQuery => ErrorCode::ValidationError,
            AuthError::Internal => ErrorCode::InternalError,
        }
    }

    /// The message shown to a client. Both halves of a failed credential
    /// check share one message, so that it does not tell which half failed.
    pub fn message(&self) -> (r: &'static str)
        ensures
            (*self == AuthError::InvalidCredentials) ==> r@ == "invalid email or password"@,
    {
        match self {
            AuthError::EmailTaken => "email already registered",
            AuthError::UsernameTaken => "username already taken",
            AuthError::InvalidCredentials => "invalid email or password",
            AuthError::TwoFactorRequired => "two-factor code required",
            AuthError::InvalidTwoFactorCode => "invalid two-factor code",
            AuthError::InvalidToken => "invalid token",
            AuthError::Expired => "token expired",
            AuthError::UserNotFound => "user not found",
            AuthError::InvalidCode => "invalid verification code",
            AuthError::InvalidQuery => "page and limit must be at least 1",
            AuthError::Internal => "internal error",
        }
    }
}

} // verus!
