//! Presentation heuristics over a session's user-agent string, and the device
//! fingerprint. None of this takes part in a security decision.

use vstd::prelude::*;
use vstd::string::*;
use crate::text::{contains, occurs_in, hex_of, hex_prefix};
use sha2::Digest;

verus! {

/// The coarse class of device named by a user agent.
pub open spec fn device_class_of(ua: Seq<char>) -> Seq<char> {
    if occurs_in(ua, "Mobile"@) {
        "Mobile device"@
    } else if occurs_in(ua, "Tablet"@) {
        "Tablet"@
    } else {
        "Desktop"@
    }
}

/// The browser named by a user agent; the first rule that matches wins.
pub open spec fn browser_of(ua: Seq<char>) -> Seq<char> {
    if occurs_in(ua, "Chrome"@) {
        "Chrome"@
    } else if occurs_in(ua, "Firefox"@) {
        "Firefox"@
    } else if occurs_in(ua, "Safari"@) {
        "Safari"@
    } else if occurs_in(ua, "Edge"@) {
        "Edge"@
    } else {
        "Unknown"@
    }
}

/// The operating system named by a user agent; the first rule that matches wins.
pub open spec fn os_of(ua: Seq<char>) -> Seq<char> {
    if occurs_in(ua, "Windows"@) {
        "Windows"@
    } else if occurs_in(ua, "Mac"@) {
        "macOS"@
    } else if occurs_in(ua, "Linux"@) {
        "Linux"@
    } else if occurs_in(ua, "Android"@) {
        "Android"@
    } else if occurs_in(ua, "iOS"@) {
        "iOS"@
    } else {
        "Unknown"@
    }
}

pub fn parse_device_name(user_agent: &str) -> (r: String)
    ensures
        r@ == device_class_of(user_agent@),
{
    if contains(user_agent, "Mobile") {
        "Mobile device".to_owned()
    } else if contains(user_agent, "Tablet") {
        "Tablet".to_owned()
    } else {
        "Desktop".to_owned()
    }
}

pub fn parse_browser(user_agent: &str) -> (r: String)
    ensures
        r@ == browser_of(user_agent@),
{
    if contains(user_agent, "Chrome") {
        "Chrome".to_owned()
    } else if contains(user_agent, "Firefox") {
        "Firefox".to_owned()
    } else if contains(user_agent, "Safari") {
        "Safari".to_owned()
    } else if contains(user_agent, "Edge") {
        "Edge".to_owned()
    } else {
        "Unknown".to_owned()
    }
}

pub fn parse_os(user_agent: &str) -> (r: String)
    ensures
        r@ == os_of(user_agent@),
{
    if contains(user_agent, "Windows") {
        "Windows".to_owned()
    } else if contains(user_agent, "Mac") {
        "macOS".to_owned()
    } else if contains(user_agent, "Linux") {
        "Linux".to_owned()
    } else if contains(user_agent, "Android") {
        "Android".to_owned()
    } else if contains(user_agent, "iOS") {
        "iOS".to_owned()
    } else {
        "Unknown".to_owned()
    }
}

/// The SHA-256 digest of a byte string.
pub uninterp spec fn sha256_of(data: Seq<u8>) -> Seq<u8>;

/// Relies on sha2's `Sha256::digest`: the 32-byte digest of `data`, which
/// depends on `data` alone.
#[verifier::external_body]
pub(crate) fn sha256(data: &[u8]) -> (r: Vec<u8>)
    ensures
        r@ == sha256_of(data@),
        r@.len() == 32,
{
    sha2::Sha256::digest(data).to_vec()
}

/// The text hashed for a device fingerprint: user agent, a colon, the IP address.
pub open spec fn fingerprint_input(user_agent: Seq<char>, ip_address: Seq<char>) -> Seq<char> {
    user_agent + ":"@ + ip_address
}

/// The fingerprint of a digest: its first 16 bytes in lower-case hexadecimal.
pub fn fingerprint_from_digest(digest: &[u8]) -> (r: String)
    requires
        digest@.len() >= 16,
    ensures
        r@ == hex_of(digest@.take(16)),
        r@.len() == 32,
{
    let r = hex_prefix(digest, 16);
    proof { lemma_hex_len(digest@.take(16)); }
    r
}

proof fn lemma_hex_len(b: Seq<u8>)
    ensures
        hex_of(b).len() == 2 * b.len(),
    decreases b.len(),
{
    if b.len() > 0 {
        lemma_hex_len(b.drop_last());
    }
}

} // verus!
