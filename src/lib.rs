//! Authentication and session security: credential checks, token issuing and
//! rotation, TOTP second factor, per-device sessions and a security event log.

pub mod error;
pub mod json;
pub mod model;
pub mod password;
pub mod response;
pub mod service;
pub mod text;
pub mod token;
pub mod totp;
pub mod device;
