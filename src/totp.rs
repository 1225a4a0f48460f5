//! Time-based one-time passwords: enrolment secrets, code checks and backup codes.

use vstd::prelude::*;
use vstd::string::*;
use crate::error::AuthError;
use crate::text::{four_digits, push_four_digits};
use rand::Rng;
use vstd::arithmetic::power2::pow2;

verus! {

/// Number of random bytes in an enrolment secret.
pub const SECRET_BYTES: usize = 32;

/// Number of backup codes handed out at once.
pub const BACKUP_CODE_COUNT: usize = 8;

/// The RFC 4648 base32 digit for `v` in 0..32.
pub open spec fn base32_digit(v: int) -> char {
    if v < 26 {
        (('A' as u32) + v as u32) as char
    } else {
        (('2' as u32) + (v - 26) as u32) as char
    }
}

/// One group of up to five bytes: the 40 bits (zero-filled) read five at a
/// time, most significant first; the digits that carry no input bit are
/// replaced by `=`.
pub open spec fn base32_group(b: Seq<u8>) -> Seq<char> {
    let byte = |i: int| if i < b.len() { b[i] as int } else { 0int };
    let n = byte(0) * 0x1_0000_0000 + byte(1) * 0x100_0000 + byte(2) * 0x1_0000 + byte(3) * 0x100 + byte(4);
    let keep = (b.len() * 8 + 4) / 5;
    Seq::new(8, |i: int| if i < keep { base32_digit((n / pow2((35 - 5 * i) as nat) as int) % 32) } else { '=' })
}

/// The padded RFC 4648 base32 text of a byte string, group by group.
pub open spec fn base32_text(data: Seq<u8>) -> Seq<char>
    decreases data.len(),
{
    if data.len() == 0 {
        Seq::empty()
    } else if data.len() <= 5 {
        base32_group(data)
    } else {
        base32_group(data.take(5)) + base32_text(data.skip(5))
    }
}

/// What padded RFC 4648 base32 decoding gives for a text; `None` where it is
/// not base32.
pub uninterp spec fn base32_decoded(text: Seq<char>) -> Option<Seq<u8>>;

/// Digits in a TOTP code.
pub const TOTP_DIGITS: usize = 6;

/// Steps of tolerance either side of the current one.
pub const TOTP_SKEW: u8 = 1;

/// Length of a TOTP step, in seconds.
pub const TOTP_STEP: u64 = 30;

/// Whether the SHA-1 TOTP check with `digits` digits, steps of `step`
/// seconds and `skew` steps of tolerance either way accepts `code` for
/// `secret` at unix time `time`.
pub uninterp spec fn totp_accepts(secret: Seq<u8>, code: Seq<char>, time: int, digits: int, skew: int, step: int) -> bool;

/// Relies on `base32::encode` with the padded RFC 4648 alphabet: each group
/// of five bytes becomes eight digits, a short last group keeps the digits
/// that carry input bits and is padded with `=`; `base32::decode` with the
/// same alphabet gives the bytes back.
#[verifier::external_body]
fn base32_encode(data: &[u8]) -> (r: String)
    ensures
        r@ == base32_text(data@),
        base32_decoded(r@) == Some(data@),
{
    base32::encode(base32::Alphabet::RFC4648 { padding: true }, data)
}

/// Relies on `base32::decode` with the padded RFC 4648 alphabet: the result
/// depends on the text alone.
#[verifier::external_body]
fn base32_decode(text: &str) -> (r: Option<Vec<u8>>)
    ensures
        r matches Some(v) ==> base32_decoded(text@) == Some(v@),
        r is None ==> base32_decoded(text@) is None,
{
    base32::decode(base32::Alphabet::RFC4648 { padding: true }, text)
}

/// Relies on totp-rs: `TOTP::new(Algorithm::SHA1, digits, skew, step, secret)`
/// refuses exactly the digit counts outside 6 to 8 and the secrets shorter
/// than 16 bytes (here `None`), and `TOTP::check(code, time)` depends on its
/// arguments alone. `check` subtracts `skew` from `time / step` and multiplies
/// each of the `2 * skew + 1` candidate steps by `step` in `u64`, hence the
/// bounds on `time` and `step`.
#[verifier::external_body]
fn totp_check(secret: &[u8], code: &str, time: u64, digits: usize, skew: u8, step: u64) -> (r: Option<bool>)
    requires
        6 <= digits <= 8,
        1 <= step <= 3600,
        skew as u64 * step <= time <= i64::MAX as u64,
    ensures
        r == (if secret@.len() >= 16 {
            Some(totp_accepts(secret@, code@, time as int, digits as int, skew as int, step as int))
        } else {
            None::<bool>
        }),
{
    let totp = totp_rs::TOTP::new(totp_rs::Algorithm::SHA1, digits, skew, step, secret.to_vec()).ok()?;
    Some(totp.check(code, time))
}

/// Relies on rand's `thread_rng().gen::<u8>()`: any byte.
#[verifier::external_body]
fn random_byte() -> (r: u8) {
    rand::thread_rng().gen::<u8>()
}

/// Relies on rand's `thread_rng().gen_range(0..bound)`: some value below
/// `bound`; the range must not be empty.
#[verifier::external_body]
fn random_below(bound: u32) -> (r: u32)
    requires
        bound > 0,
    ensures
        r < bound,
{
    rand::thread_rng().gen_range(0..bound)
}

/// A fresh random enrolment secret.
pub fn generate_secret() -> (r: Vec<u8>)
    ensures
        r@.len() == SECRET_BYTES,
{
    let mut secret: Vec<u8> = Vec::new();
    let mut i: usize = 0;
    while i < SECRET_BYTES
        invariant
            i <= SECRET_BYTES,
            secret@.len() == i,
        decreases SECRET_BYTES - i,
    {
        secret.push(random_byte());
        i = i + 1;
    }
    secret
}

/// The display form of a secret.
pub fn encode_secret(secret: &[u8]) -> (r: String)
    ensures
        r@ == base32_text(secret@),
        base32_decoded(r@) == Some(secret@),
{
    base32_encode(secret)
}

/// The provisioning URI from which an authenticator app enrols.
pub open spec fn provisioning_uri_of(issuer: Seq<char>, account: Seq<char>, secret: Seq<char>) -> Seq<char> {
    "otpauth://totp/"@ + issuer + ":"@ + account + "?secret="@ + secret + "&issuer="@ + issuer
}

pub fn provisioning_uri(issuer: &str, account: &str, secret: &str) -> (r: String)
    ensures
        r@ == provisioning_uri_of(issuer@, account@, secret@),
{
    let mut uri = "otpauth://totp/".to_owned();
    uri.append(issuer);
    uri.append(":");
    uri.append(account);
    uri.append("?secret=");
    uri.append(secret);
    uri.append("&issuer=");
    uri.append(issuer);
    uri
}

/// The outcome of checking a second-factor code against an account's stored
/// (base32) secret at time `time`.
pub open spec fn code_outcome(stored: Option<Seq<char>>, code: Seq<char>, time: int) -> Result<bool, AuthError> {
    match stored {
        None => Ok(false),
        Some(text) => match base32_decoded(text) {
            None => Err(AuthError::Internal),
            Some(secret) => if secret.len() >= 16 {
                Ok(totp_accepts(secret, code, time, TOTP_DIGITS as int, TOTP_SKEW as int, TOTP_STEP as int))
            } else {
                Err(AuthError::Internal)
            },
        },
    }
}

/// Checks a code against an account's stored secret. An account with no
/// secret accepts no code; a stored secret that cannot be used is an internal
/// failure.
pub fn verify_code(stored: &Option<String>, code: &str, time: u64) -> (r: Result<bool, AuthError>)
    requires
        30 <= time <= i64::MAX as u64,
    ensures
        r == code_outcome(
            match stored { Some(s) => Some(s@), None => None },
            code@,
            time as int,
        ),
{
    match stored {
        None => Ok(false),
        Some(text) => match base32_decode(text.as_str()) {
            None => Err(AuthError::Internal),
            Some(secret) => match totp_check(secret.as_slice(), code, time, TOTP_DIGITS, TOTP_SKEW, TOTP_STEP) {
                Some(v) => Ok(v),
                None => Err(AuthError::Internal),
            },
        },
    }
}

/// A backup code: two groups of four decimal digits joined by a hyphen.
pub open spec fn backup_code_of(a: int, b: int) -> Seq<char> {
    four_digits(a) + "-"@ + four_digits(b)
}

pub open spec fn is_backup_code(c: Seq<char>) -> bool {
    exists|a: int, b: int| 0 <= a < 10000 && 0 <= b < 10000 && c == #[trigger] backup_code_of(a, b)
}

pub fn backup_code(a: u32, b: u32) -> (r: String)
    requires
        a < 10000,
        b < 10000,
    ensures
        r@ == backup_code_of(a as int, b as int),
{
    let mut code = String::new();
    push_four_digits(&mut code, a);
    code.append("-");
    push_four_digits(&mut code, b);
    assert(code@ =~= backup_code_of(a as int, b as int));
    code
}

/// Eight fresh random backup codes.
pub fn generate_backup_codes() -> (r: Vec<String>)
    ensures
        r@.len() == BACKUP_CODE_COUNT,
        forall|i: int| 0 <= i < r@.len() ==> is_backup_code(#[trigger] r@[i]@),
{
    let mut codes: Vec<String> = Vec::new();
    let mut i: usize = 0;
    while i < BACKUP_CODE_COUNT
        invariant
            i <= BACKUP_CODE_COUNT,
            codes@.len() == i,
            forall|k: int| 0 <= k < i ==> is_backup_code(#[trigger] codes@[k]@),
        decreases BACKUP_CODE_COUNT - i,
    {
        let a = random_below(10000);
        let b = random_below(10000);
        let c = backup_code(a, b);
        assert(is_backup_code(c@)) by {
            assert(c@ == backup_code_of(a as int, b as int));
        }
        codes.push(c);
        i = i + 1;
    }
    codes
}

} // verus!
