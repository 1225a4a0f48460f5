//! The token issuer: signed access/refresh token pairs and their checks.

use vstd::prelude::*;
use vstd::string::*;
use crate::error::AuthError;
use crate::json::{json_string, json_opt_string, json_int, push_json_string,
    push_json_opt_string, push_json_int, lit_at, read_string, read_opt_string, read_int, holds_at,
    is_digit, opt_text, escape, lemma_json_string_unique, lemma_json_int_unique};

verus! {

/// Lifetime of an access token, in seconds.
pub const ACCESS_TOKEN_SECONDS: i64 = 3600;

/// Lifetime of a refresh token and of its session, in seconds.
pub const REFRESH_TOKEN_SECONDS: i64 = 604800;

/// The payload of a token.
#[derive(Debug)]
pub struct Claims {
    /// The user id.
    pub sub: String,
    pub email: String,
    pub username: String,
    pub role: String,
    /// The id that binds the pair to its session.
    pub session_id: String,
    pub device_id: Option<String>,
    pub ip_address: Option<String>,
    /// Expiry, unix seconds.
    pub exp: i64,
    /// Issue time, unix seconds.
    pub iat: i64,
    pub iss: String,
    pub aud: String,
}

/// Claims as values.
pub struct ClaimsView {
    pub sub: Seq<char>,
    pub email: Seq<char>,
    pub username: Seq<char>,
    pub role: Seq<char>,
    pub session_id: Seq<char>,
    pub device_id: Option<Seq<char>>,
    pub ip_address: Option<Seq<char>>,
    pub exp: int,
    pub iat: int,
    pub iss: Seq<char>,
    pub aud: Seq<char>,
}

pub open spec fn opt_view(s: Option<String>) -> Option<Seq<char>> {
    match s {
        Some(t) => Some(t@),
        None => None,
    }
}

impl View for Claims {
    type V = ClaimsView;

    open spec fn view(&self) -> ClaimsView {
        ClaimsView {
            sub: self.sub@,
            email: self.email@,
            username: self.username@,
            role: self.role@,
            session_id: self.session_id@,
            device_id: opt_view(self.device_id),
            ip_address: opt_view(self.ip_address),
            exp: self.exp as int,
            iat: self.iat as int,
            iss: self.iss@,
            aud: self.aud@,
        }
    }
}

/// The issuer every token names.
pub open spec fn token_issuer() -> Seq<char> {
    "QuantConsole"@
}

/// The audience every token names.
pub open spec fn token_audience() -> Seq<char> {
    "QuantConsole-Client"@
}

/// The claims of a token issued at `now` that lives `lifetime` seconds.
pub open spec fn issued_claims(
    sub: Seq<char>,
    email: Seq<char>,
    username: Seq<char>,
    role: Seq<char>,
    session_id: Seq<char>,
    now: int,
    lifetime: int,
) -> ClaimsView {
    ClaimsView {
        sub,
        email,
        username,
        role,
        session_id,
        device_id: None,
        ip_address: None,
        exp: now + lifetime,
        iat: now,
        iss: token_issuer(),
        aud: token_audience(),
    }
}

/// The JSON text of a token's claims, fields in declaration order.
pub open spec fn claims_json(c: ClaimsView) -> Seq<char> {
    "{\"sub\":"@ + json_string(c.sub) + ",\"email\":"@ + json_string(c.email)
        + ",\"username\":"@ + json_string(c.username) + ",\"role\":"@ + json_string(c.role)
        + ",\"session_id\":"@ + json_string(c.session_id) + ",\"device_id\":"@
        + json_opt_string(c.device_id) + ",\"ip_address\":"@ + json_opt_string(c.ip_address)
        + ",\"exp\":"@ + json_int(c.exp) + ",\"iat\":"@ + json_int(c.iat) + ",\"iss\":"@
        + json_string(c.iss) + ",\"aud\":"@ + json_string(c.aud) + "}"@
}

/// The verdict on a token's claims at unix time `now`: issuer and audience
/// must be this service's, and the token must not have expired.
pub open spec fn claims_verdict(c: ClaimsView, now: int) -> Result<(), AuthError> {
    if c.iss != token_issuer() || c.aud != token_audience() {
        Err(AuthError::InvalidToken)
    } else if c.exp < now {
        Err(AuthError::Expired)
    } else {
        Ok(())
    }
}

/// What HS256 signing with the default header gives for a JSON payload and a
/// secret; `None` where the payload is not JSON.
pub uninterp spec fn jwt_signed(payload: Seq<char>, secret: Seq<char>) -> Option<Seq<char>>;

/// The payload of `token` where its HS256 signature under `secret` is good.
pub uninterp spec fn jwt_payload_of(token: Seq<char>, secret: Seq<char>) -> Option<Seq<char>>;

/// Relies on `jsonwebtoken::encode` with `Header::default()` (HS256) over the
/// payload taken verbatim (`serde_json::value::RawValue::from_string`), for
/// payloads that are claims text: valid JSON with no surrounding blanks, so
/// `from_string` neither refuses nor trims it, and HMAC signing with a key
/// from `EncodingKey::from_secret` matches the header's algorithm and cannot
/// fail. The token depends on payload and secret alone and is never empty
/// (header, payload and signature joined by dots). It carries the payload
/// verbatim in base64url, so no other claims text signs to the same token.
#[verifier::external_body]
fn jwt_sign(payload: &str, secret: &str) -> (r: Option<String>)
    requires
        exists|c0: ClaimsView| #[trigger] claims_json(c0) == payload@,
    ensures
        r is Some,
        r matches Some(t) ==> jwt_signed(payload@, secret@) == Some(t@),
        r is None ==> jwt_signed(payload@, secret@) is None,
        r matches Some(t) ==> t@.len() > 0,
        r matches Some(t) ==> forall|c: ClaimsView| #[trigger] jwt_signed(claims_json(c), secret@) == Some(t@) ==> claims_json(c) == payload@,
{
    let raw = serde_json::value::RawValue::from_string(payload.to_string()).ok()?;
    let key = jsonwebtoken::EncodingKey::from_secret(secret.as_bytes());
    jsonwebtoken::encode(&jsonwebtoken::Header::default(), &raw, &key).ok()
}

/// Relies on `jsonwebtoken::decode` with HS256, the signature checked and no
/// claim checked (no required claims, no expiry, no audience): the payload
/// text, where the signature is good; the result depends on token and secret
/// alone. A token that `encode` made under the same secret from claims text
/// decodes to that text: the header is the default HS256 one, the signature
/// is recomputed the same way, and the payload, a JSON object with distinct
/// keys and no surrounding blanks, is written and read back verbatim.
#[verifier::external_body]
fn jwt_payload(token: &str, secret: &str) -> (r: Option<String>)
    ensures
        r matches Some(p) ==> jwt_payload_of(token@, secret@) == Some(p@),
        r is None ==> jwt_payload_of(token@, secret@) is None,
        forall|c: ClaimsView| #[trigger] jwt_signed(claims_json(c), secret@) == Some(token@) ==> opt_text(r) == Some(claims_json(c)),
{
    let mut validation = jsonwebtoken::Validation::new(jsonwebtoken::Algorithm::HS256);
    validation.required_spec_claims.clear();
    validation.validate_exp = false;
    validation.validate_aud = false;
    let key = jsonwebtoken::DecodingKey::from_secret(secret.as_bytes());
    let data = jsonwebtoken::decode::<Box<serde_json::value::RawValue>>(token, &key, &validation).ok()?;
    Some(data.claims.get().to_string())
}

impl Claims {
    /// The JSON text of these claims.
    pub fn to_json(&self) -> (r: String)
        ensures
            r@ == claims_json(self@),
    {
        let mut out = "{\"sub\":".to_owned();
        push_json_string(&mut out, self.sub.as_str());
        out.append(",\"email\":");
        push_json_string(&mut out, self.email.as_str());
        out.append(",\"username\":");
        push_json_string(&mut out, self.username.as_str());
        out.append(",\"role\":");
        push_json_string(&mut out, self.role.as_str());
        out.append(",\"session_id\":");
        push_json_string(&mut out, self.session_id.as_str());
        out.append(",\"device_id\":");
        push_json_opt_string(&mut out, &self.device_id);
        out.append(",\"ip_address\":");
        push_json_opt_string(&mut out, &self.ip_address);
        out.append(",\"exp\":");
        push_json_int(&mut out, self.exp);
        out.append(",\"iat\":");
        push_json_int(&mut out, self.iat);
        out.append(",\"iss\":");
        push_json_string(&mut out, self.iss.as_str());
        out.append(",\"aud\":");
        push_json_string(&mut out, self.aud.as_str());
        out.append("}");
        out
    }

    /// Checks issuer, audience and expiry at unix time `now`.
    pub fn check(&self, now: i64) -> (r: Result<(), AuthError>)
        ensures
            r == claims_verdict(self@, now as int),
    {
        let iss_ok = str_eq(self.iss.as_str(), "QuantConsole");
        let aud_ok = str_eq(self.aud.as_str(), "QuantConsole-Client");
        if !iss_ok || !aud_ok {
            Err(AuthError::InvalidToken)
        } else if self.exp < now {
            Err(AuthError::Expired)
        } else {
            Ok(())
        }
    }
}

/// The position just past `lit`, where `text` holds it at `pos`.
fn expect_lit(text: &str, pos: usize, lit: &str) -> (r: Option<usize>)
    ensures
        r matches Some(p) ==> p <= text@.len(),
        holds_at(text@, pos as int, lit@) ==> r == Some((pos + lit@.len()) as usize),
{
    let _n = text.unicode_len();
    if lit_at(text, pos, lit) {
        Some(pos + lit.unicode_len())
    } else {
        None
    }
}

/// Claims whose times fit the `i64` fields of `Claims`.
pub open spec fn claims_in_range(c: ClaimsView) -> bool {
    i64::MIN <= c.exp <= i64::MAX && i64::MIN <= c.iat <= i64::MAX
}

/// `text` begins with `x`.
pub open spec fn prefix_holds(text: Seq<char>, x: Seq<char>) -> bool {
    x.len() <= text.len() && text.subrange(0, x.len() as int) == x
}

proof fn lemma_prefix_drop(text: Seq<char>, a: Seq<char>, b: Seq<char>)
    requires
        prefix_holds(text, a + b),
    ensures
        prefix_holds(text, a),
        holds_at(text, a.len() as int, b),
{
    assert(text.subrange(0, a.len() as int) =~= (a + b).subrange(0, a.len() as int));
    assert((a + b).subrange(0, a.len() as int) =~= a);
    assert(text.subrange(a.len() as int, a.len() + b.len() as int) =~= (a + b).subrange(a.len() as int, a.len() + b.len() as int));
    assert((a + b).subrange(a.len() as int, a.len() + b.len() as int) =~= b);
}

/// Reads `lit` and then a JSON string; where `text` begins with `before`,
/// `lit` and the literal of `v`, and `before` ends at `pos`, `v` is read.
fn field_string(
    text: &str,
    pos: usize,
    lit: &str,
    Ghost(before): Ghost<Seq<char>>,
    Ghost(v): Ghost<Seq<char>>,
) -> (r: Option<(String, usize)>)
    ensures
        r matches Some((_, p)) ==> p <= text@.len(),
        pos == before.len() && prefix_holds(text@, before + lit@ + json_string(v)) ==> (r matches Some((s, p))
            && s@ == v && p == (before + lit@ + json_string(v)).len()),
{
    let _n = text.unicode_len();
    proof {
        if pos == before.len() && prefix_holds(text@, before + lit@ + json_string(v)) {
            lemma_prefix_drop(text@, before + lit@, json_string(v));
            lemma_prefix_drop(text@, before, lit@);
        }
    }
    let p = expect_lit(text, pos, lit)?;
    read_string(text, p, Ghost(v))
}

/// As `field_string`, for a JSON string or `null`.
fn field_opt_string(
    text: &str,
    pos: usize,
    lit: &str,
    Ghost(before): Ghost<Seq<char>>,
    Ghost(v): Ghost<Option<Seq<char>>>,
) -> (r: Option<(Option<String>, usize)>)
    ensures
        r matches Some((_, p)) ==> p <= text@.len(),
        pos == before.len() && prefix_holds(text@, before + lit@ + json_opt_string(v)) ==> (r matches Some((s, p))
            && opt_text(s) == v && p == (before + lit@ + json_opt_string(v)).len()),
{
    let _n = text.unicode_len();
    proof {
        if pos == before.len() && prefix_holds(text@, before + lit@ + json_opt_string(v)) {
            lemma_prefix_drop(text@, before + lit@, json_opt_string(v));
            lemma_prefix_drop(text@, before, lit@);
        }
    }
    let p = expect_lit(text, pos, lit)?;
    read_opt_string(text, p, Ghost(v))
}

/// As `field_string`, for an integer followed by `after`, which begins with
/// a comma.
fn field_int(
    text: &str,
    pos: usize,
    lit: &str,
    Ghost(before): Ghost<Seq<char>>,
    Ghost(v): Ghost<int>,
    Ghost(after): Ghost<Seq<char>>,
) -> (r: Option<(i64, usize)>)
    ensures
        r matches Some((_, p)) ==> p <= text@.len(),
        pos == before.len() && prefix_holds(text@, before + lit@ + json_int(v) + after) && after.len() > 0
            && after[0] == ',' && i64::MIN <= v <= i64::MAX ==> (r matches Some((s, p)) && s == v && p == (
            before + lit@ + json_int(v)).len()),
{
    let _n = text.unicode_len();
    proof {
        if pos == before.len() && prefix_holds(text@, before + lit@ + json_int(v) + after) && after.len() > 0
            && after[0] == ',' {
            lemma_prefix_drop(text@, before + lit@ + json_int(v), after);
            lemma_prefix_drop(text@, before + lit@, json_int(v));
            lemma_prefix_drop(text@, before, lit@);
            let k = (before + lit@ + json_int(v)).len();
            assert(text@.subrange(k as int, k + after.len() as int)[0] == after[0]);
            assert(!is_digit(text@[k as int]));
        }
    }
    let p = expect_lit(text, pos, lit)?;
    read_int(text, p, Ghost(v))
}

#[verifier::rlimit(50)]
proof fn lemma_claims_prefixes(
    text: Seq<char>,
    c: ClaimsView,
    x2: Seq<char>,
    x4: Seq<char>,
    x6: Seq<char>,
    x8: Seq<char>,
    x10: Seq<char>,
    x12: Seq<char>,
    x14: Seq<char>,
    x16: Seq<char>,
    x18: Seq<char>,
    x20: Seq<char>,
    x22: Seq<char>,
)
    requires
        x2 == "{\"sub\":"@ + json_string(c.sub),
        x4 == x2 + ",\"email\":"@ + json_string(c.email),
        x6 == x4 + ",\"username\":"@ + json_string(c.username),
        x8 == x6 + ",\"role\":"@ + json_string(c.role),
        x10 == x8 + ",\"session_id\":"@ + json_string(c.session_id),
        x12 == x10 + ",\"device_id\":"@ + json_opt_string(c.device_id),
        x14 == x12 + ",\"ip_address\":"@ + json_opt_string(c.ip_address),
        x16 == x14 + ",\"exp\":"@ + json_int(c.exp),
        x18 == x16 + ",\"iat\":"@ + json_int(c.iat),
        x20 == x18 + ",\"iss\":"@ + json_string(c.iss),
        x22 == x20 + ",\"aud\":"@ + json_string(c.aud),
        text == claims_json(c),
    ensures
        prefix_holds(text, x2),
        prefix_holds(text, x4),
        prefix_holds(text, x6),
        prefix_holds(text, x8),
        prefix_holds(text, x10),
        prefix_holds(text, x12),
        prefix_holds(text, x14),
        prefix_holds(text, x16 + ",\"iat\":"@),
        prefix_holds(text, x18 + ",\"iss\":"@),
        prefix_holds(text, x20),
        prefix_holds(text, x22),
{
    assert(text == x22 + "}"@);
    assert(text.subrange(0, text.len() as int) =~= text);
    lemma_prefix_drop(text, x22, "}"@);
    lemma_prefix_drop(text, x20 + ",\"aud\":"@, json_string(c.aud));
    lemma_prefix_drop(text, x20, ",\"aud\":"@);
    lemma_prefix_drop(text, x18 + ",\"iss\":"@, json_string(c.iss));
    lemma_prefix_drop(text, x18, ",\"iss\":"@);
    lemma_prefix_drop(text, x16 + ",\"iat\":"@, json_int(c.iat));
    lemma_prefix_drop(text, x16, ",\"iat\":"@);
    lemma_prefix_drop(text, x14 + ",\"exp\":"@, json_int(c.exp));
    lemma_prefix_drop(text, x14, ",\"exp\":"@);
    lemma_prefix_drop(text, x12 + ",\"ip_address\":"@, json_opt_string(c.ip_address));
    lemma_prefix_drop(text, x12, ",\"ip_address\":"@);
    lemma_prefix_drop(text, x10 + ",\"device_id\":"@, json_opt_string(c.device_id));
    lemma_prefix_drop(text, x10, ",\"device_id\":"@);
    lemma_prefix_drop(text, x8 + ",\"session_id\":"@, json_string(c.session_id));
    lemma_prefix_drop(text, x8, ",\"session_id\":"@);
    lemma_prefix_drop(text, x6 + ",\"role\":"@, json_string(c.role));
    lemma_prefix_drop(text, x6, ",\"role\":"@);
    lemma_prefix_drop(text, x4 + ",\"username\":"@, json_string(c.username));
    lemma_prefix_drop(text, x4, ",\"username\":"@);
    lemma_prefix_drop(text, x2 + ",\"email\":"@, json_string(c.email));
    lemma_prefix_drop(text, x2, ",\"email\":"@);
}

proof fn lemma_string_field_unique(t: Seq<char>, x: Seq<char>, v1: Seq<char>, v2: Seq<char>)
    requires
        prefix_holds(t, x + json_string(v1)),
        prefix_holds(t, x + json_string(v2)),
    ensures
        v1 == v2,
{
    reveal_strlit("\"");
    let q = seq!['"'];
    assert("\""@ =~= q);
    let n1: int = (x.len() + json_string(v1).len()) as int;
    let n2: int = (x.len() + json_string(v2).len()) as int;
    let r1 = t.skip(n1);
    let r2 = t.skip(n2);
    assert(json_string(v1) =~= q + escape(v1) + q);
    assert(json_string(v2) =~= q + escape(v2) + q);
    assert forall|k: int| 0 <= k < json_string(v1).len() implies t[x.len() + k] == json_string(v1)[k] by {
        assert(t.subrange(0, n1)[x.len() + k] == (x + json_string(v1))[x.len() + k]);
    }
    assert forall|k: int| 0 <= k < json_string(v2).len() implies t[x.len() + k] == json_string(v2)[k] by {
        assert(t.subrange(0, n2)[x.len() + k] == (x + json_string(v2))[x.len() + k]);
    }
    let s1 = escape(v1) + q + r1;
    let s2 = escape(v2) + q + r2;
    let base = (x.len() + 1) as int;
    assert forall|k: int| 0 <= k < s1.len() implies s1[k] == t.skip(base)[k] by {
        if k <= escape(v1).len() {
            assert(s1[k] == json_string(v1)[k + 1]);
        } else {
            assert(s1[k] == r1[k - escape(v1).len() - 1]);
        }
    }
    assert forall|k: int| 0 <= k < s2.len() implies s2[k] == t.skip(base)[k] by {
        if k <= escape(v2).len() {
            assert(s2[k] == json_string(v2)[k + 1]);
        } else {
            assert(s2[k] == r2[k - escape(v2).len() - 1]);
        }
    }
    assert(s1 =~= t.skip(base));
    assert(s2 =~= t.skip(base));
    lemma_json_string_unique(v1, v2, r1, r2);
}

proof fn lemma_opt_field_unique(t: Seq<char>, x: Seq<char>, v1: Option<Seq<char>>, v2: Option<Seq<char>>)
    requires
        prefix_holds(t, x + json_opt_string(v1)),
        prefix_holds(t, x + json_opt_string(v2)),
    ensures
        v1 == v2,
{
    reveal_strlit("null");
    reveal_strlit("\"");
    match (v1, v2) {
        (Some(a), Some(b)) => {
            lemma_string_field_unique(t, x, a, b);
        },
        (None, None) => {},
        (Some(a), None) => {
            assert(t.subrange(0, (x.len() + json_string(a).len()) as int)[x.len() as int] == json_string(a)[0]);
            assert(t.subrange(0, (x.len() + 4) as int)[x.len() as int] == "null"@[0]);
        },
        (None, Some(b)) => {
            assert(t.subrange(0, (x.len() + json_string(b).len()) as int)[x.len() as int] == json_string(b)[0]);
            assert(t.subrange(0, (x.len() + 4) as int)[x.len() as int] == "null"@[0]);
        },
    }
}

proof fn lemma_int_field_unique(t: Seq<char>, x: Seq<char>, m: int, n: int, after: Seq<char>)
    requires
        prefix_holds(t, x + json_int(m) + after),
        prefix_holds(t, x + json_int(n) + after),
        after.len() > 0 && after[0] == ',',
    ensures
        m == n,
{
    let n1: int = (x.len() + json_int(m).len()) as int;
    let n2: int = (x.len() + json_int(n).len()) as int;
    let r1 = t.skip(n1);
    let r2 = t.skip(n2);
    assert(t.subrange(0, n1 + after.len())[n1] == (x + json_int(m) + after)[n1]);
    assert(t.subrange(0, n2 + after.len())[n2] == (x + json_int(n) + after)[n2]);
    assert forall|k: int| 0 <= k < json_int(m).len() implies t[x.len() + k] == json_int(m)[k] by {
        assert(t.subrange(0, n1 + after.len())[x.len() + k] == (x + json_int(m) + after)[x.len() + k]);
    }
    assert forall|k: int| 0 <= k < json_int(n).len() implies t[x.len() + k] == json_int(n)[k] by {
        assert(t.subrange(0, n2 + after.len())[x.len() + k] == (x + json_int(n) + after)[x.len() + k]);
    }
    assert(json_int(m) + r1 =~= t.skip(x.len() as int));
    assert(json_int(n) + r2 =~= t.skip(x.len() as int));
    lemma_json_int_unique(m, n, r1, r2);
}

/// Different claims have different JSON text.
#[verifier::rlimit(60)]
pub proof fn lemma_claims_json_injective(c1: ClaimsView, c2: ClaimsView)
    requires
        claims_json(c1) == claims_json(c2),
    ensures
        c1 == c2,
{
    reveal_strlit(",\"iat\":");
    reveal_strlit(",\"iss\":");
    let t = claims_json(c1);
    let a2 = "{\"sub\":"@ + json_string(c1.sub);
    let a4 = a2 + ",\"email\":"@ + json_string(c1.email);
    let a6 = a4 + ",\"username\":"@ + json_string(c1.username);
    let a8 = a6 + ",\"role\":"@ + json_string(c1.role);
    let a10 = a8 + ",\"session_id\":"@ + json_string(c1.session_id);
    let a12 = a10 + ",\"device_id\":"@ + json_opt_string(c1.device_id);
    let a14 = a12 + ",\"ip_address\":"@ + json_opt_string(c1.ip_address);
    let a16 = a14 + ",\"exp\":"@ + json_int(c1.exp);
    let a18 = a16 + ",\"iat\":"@ + json_int(c1.iat);
    let a20 = a18 + ",\"iss\":"@ + json_string(c1.iss);
    let a22 = a20 + ",\"aud\":"@ + json_string(c1.aud);
    let b2 = "{\"sub\":"@ + json_string(c2.sub);
    let b4 = b2 + ",\"email\":"@ + json_string(c2.email);
    let b6 = b4 + ",\"username\":"@ + json_string(c2.username);
    let b8 = b6 + ",\"role\":"@ + json_string(c2.role);
    let b10 = b8 + ",\"session_id\":"@ + json_string(c2.session_id);
    let b12 = b10 + ",\"device_id\":"@ + json_opt_string(c2.device_id);
    let b14 = b12 + ",\"ip_address\":"@ + json_opt_string(c2.ip_address);
    let b16 = b14 + ",\"exp\":"@ + json_int(c2.exp);
    let b18 = b16 + ",\"iat\":"@ + json_int(c2.iat);
    let b20 = b18 + ",\"iss\":"@ + json_string(c2.iss);
    let b22 = b20 + ",\"aud\":"@ + json_string(c2.aud);
    lemma_claims_prefixes(t, c1, a2, a4, a6, a8, a10, a12, a14, a16, a18, a20, a22);
    lemma_claims_prefixes(t, c2, b2, b4, b6, b8, b10, b12, b14, b16, b18, b20, b22);
    lemma_string_field_unique(t, "{\"sub\":"@, c1.sub, c2.sub);
    lemma_string_field_unique(t, a2 + ",\"email\":"@, c1.email, c2.email);
    lemma_string_field_unique(t, a4 + ",\"username\":"@, c1.username, c2.username);
    lemma_string_field_unique(t, a6 + ",\"role\":"@, c1.role, c2.role);
    lemma_string_field_unique(t, a8 + ",\"session_id\":"@, c1.session_id, c2.session_id);
    lemma_opt_field_unique(t, a10 + ",\"device_id\":"@, c1.device_id, c2.device_id);
    lemma_opt_field_unique(t, a12 + ",\"ip_address\":"@, c1.ip_address, c2.ip_address);
    lemma_int_field_unique(t, a14 + ",\"exp\":"@, c1.exp, c2.exp, ",\"iat\":"@);
    lemma_int_field_unique(t, a16 + ",\"iat\":"@, c1.iat, c2.iat, ",\"iss\":"@);
    lemma_string_field_unique(t, a18 + ",\"iss\":"@, c1.iss, c2.iss);
    lemma_string_field_unique(t, a20 + ",\"aud\":"@, c1.aud, c2.aud);
}

/// Reads the claims fields in order; where `text` is the JSON text of `c`,
/// they are `c`'s.
#[verifier::rlimit(50)]
fn read_claims(text: &str, Ghost(c): Ghost<ClaimsView>) -> (r: Option<Claims>)
    ensures
        claims_json(c) == text@ && claims_in_range(c) ==> (r matches Some(x) && x@ == c),
{
    let _len = text.unicode_len();
    let ghost want = claims_json(c) == text@ && claims_in_range(c);
    let ghost x0 = Seq::<char>::empty();
    let ghost x2 = "{\"sub\":"@ + json_string(c.sub);
    let ghost x4 = x2 + ",\"email\":"@ + json_string(c.email);
    let ghost x6 = x4 + ",\"username\":"@ + json_string(c.username);
    let ghost x8 = x6 + ",\"role\":"@ + json_string(c.role);
    let ghost x10 = x8 + ",\"session_id\":"@ + json_string(c.session_id);
    let ghost x12 = x10 + ",\"device_id\":"@ + json_opt_string(c.device_id);
    let ghost x14 = x12 + ",\"ip_address\":"@ + json_opt_string(c.ip_address);
    let ghost x16 = x14 + ",\"exp\":"@ + json_int(c.exp);
    let ghost x18 = x16 + ",\"iat\":"@ + json_int(c.iat);
    let ghost x20 = x18 + ",\"iss\":"@ + json_string(c.iss);
    let ghost x22 = x20 + ",\"aud\":"@ + json_string(c.aud);
    proof {
        reveal_strlit(",\"iat\":");
        reveal_strlit(",\"iss\":");
        if want {
            lemma_claims_prefixes(text@, c, x2, x4, x6, x8, x10, x12, x14, x16, x18, x20, x22);
            assert(x0 + "{\"sub\":"@ + json_string(c.sub) =~= x2);
        }
    }
    let (sub, p) = field_string(text, 0, "{\"sub\":", Ghost(x0), Ghost(c.sub))?;
    let (email, p) = field_string(text, p, ",\"email\":", Ghost(x2), Ghost(c.email))?;
    let (username, p) = field_string(text, p, ",\"username\":", Ghost(x4), Ghost(c.username))?;
    let (role, p) = field_string(text, p, ",\"role\":", Ghost(x6), Ghost(c.role))?;
    let (session_id, p) = field_string(text, p, ",\"session_id\":", Ghost(x8), Ghost(c.session_id))?;
    let (device_id, p) = field_opt_string(text, p, ",\"device_id\":", Ghost(x10), Ghost(c.device_id))?;
    let (ip_address, p) = field_opt_string(text, p, ",\"ip_address\":", Ghost(x12), Ghost(c.ip_address))?;
    let (exp, p) = field_int(text, p, ",\"exp\":", Ghost(x14), Ghost(c.exp), Ghost(",\"iat\":"@))?;
    let (iat, p) = field_int(text, p, ",\"iat\":", Ghost(x16), Ghost(c.iat), Ghost(",\"iss\":"@))?;
    let (iss, p) = field_string(text, p, ",\"iss\":", Ghost(x18), Ghost(c.iss))?;
    let (aud, _p) = field_string(text, p, ",\"aud\":", Ghost(x20), Ghost(c.aud))?;
    Some(Claims { sub, email, username, role, session_id, device_id, ip_address, exp, iat, iss, aud })
}

impl Claims {
    /// The claims whose JSON text is exactly `text`: `None` exactly where
    /// `text` is no claims' text.
    pub fn from_json(text: &str) -> (r: Option<Claims>)
        ensures
            r matches Some(c) ==> claims_json(c@) == text@,
            (exists|c: ClaimsView| #[trigger] claims_json(c) == text@ && claims_in_range(c)) ==> r is Some,
    {
        let ghost want = exists|c: ClaimsView| #[trigger] claims_json(c) == text@ && claims_in_range(c);
        let ghost c: ClaimsView = if want {
            choose|c: ClaimsView| #[trigger] claims_json(c) == text@ && claims_in_range(c)
        } else {
            arbitrary()
        };
        let claims = read_claims(text, Ghost(c))?;
        let json = claims.to_json();
        if str_eq(json.as_str(), text) {
            Some(claims)
        } else {
            None
        }
    }
}

/// Whether two strings hold the same characters.
pub fn str_eq(a: &str, b: &str) -> (r: bool)
    ensures
        r == (a@ == b@),
{
    let n = a.unicode_len();
    if n != b.unicode_len() {
        return false;
    }
    let mut i: usize = 0;
    while i < n
        invariant
            n == a@.len(),
            n == b@.len(),
            i <= n,
            forall|k: int| 0 <= k < i ==> a@[k] == b@[k],
        decreases n - i,
    {
        if a.get_char(i) != b.get_char(i) {
            return false;
        }
        i = i + 1;
    }
    assert(a@ =~= b@);
    true
}

/// Claims for a token issued at `now` that lives `lifetime` seconds.
pub fn new_claims(
    sub: &str,
    email: &str,
    username: &str,
    role: &str,
    session_id: &str,
    now: i64,
    lifetime: i64,
) -> (r: Claims)
    requires
        now as int + lifetime as int <= i64::MAX,
        now as int + lifetime as int >= i64::MIN,
    ensures
        r@ == issued_claims(sub@, email@, username@, role@, session_id@, now as int, lifetime as int),
{
    proof { reveal_strlit("QuantConsole"); reveal_strlit("QuantConsole-Client"); }
    Claims {
        sub: sub.to_owned(),
        email: email.to_owned(),
        username: username.to_owned(),
        role: role.to_owned(),
        session_id: session_id.to_owned(),
        device_id: None,
        ip_address: None,
        exp: now + lifetime,
        iat: now,
        iss: "QuantConsole".to_owned(),
        aud: "QuantConsole-Client".to_owned(),
    }
}

/// An access token and a refresh token minted together.
pub struct TokenPair {
    pub access_token: String,
    pub refresh_token: String,
}

/// What checking a token at `now` gives, from the payload that its signature
/// protects: the claims where the payload is claims text and they pass their
/// check; the check's error where they fail it; `InvalidToken` where there is
/// no good signature or the payload is not claims text.
pub open spec fn verify_outcome(payload: Option<Seq<char>>, now: int, r: Result<Claims, AuthError>) -> bool {
    match payload {
        None => r == Err::<Claims, AuthError>(AuthError::InvalidToken),
        Some(p) => if exists|c: ClaimsView| #[trigger] claims_json(c) == p && claims_in_range(c) {
            exists|c: ClaimsView| #[trigger] claims_json(c) == p && claims_in_range(c) && match claims_verdict(c, now) {
                Ok(()) => r matches Ok(x) && x@ == c,
                Err(e) => r == Err::<Claims, AuthError>(e),
            }
        } else {
            r == Err::<Claims, AuthError>(AuthError::InvalidToken)
        },
    }
}

/// What checking `token` at `now` gives where the token was signed under
/// `secret` from the text of claims `c`: `c` itself where `c` passes its
/// check, else the check's error.
pub open spec fn signed_outcome(secret: Seq<char>, token: Seq<char>, now: int, r: Result<Claims, AuthError>) -> bool {
    forall|c: ClaimsView| #[trigger] jwt_signed(claims_json(c), secret) == Some(token) && claims_in_range(c) ==> match claims_verdict(c, now) {
        Ok(()) => r matches Ok(x) && x@ == c,
        Err(e) => r == Err::<Claims, AuthError>(e),
    }
}

/// `token`, signed under `secret`, was signed from the text of `c` and of no
/// other claims.
pub open spec fn sole_claims(secret: Seq<char>, token: Seq<char>, c: ClaimsView) -> bool {
    forall|d: ClaimsView| #[trigger] jwt_signed(claims_json(d), secret) == Some(token) ==> d == c
}

/// Mints and checks tokens under one server secret, given at construction.
pub struct TokenIssuer {
    secret: String,
}

impl TokenIssuer {
    pub closed spec fn secret(&self) -> Seq<char> {
        self.secret@
    }

    pub fn new(secret: String) -> (r: Self)
        ensures
            r.secret() == secret@,
    {
        TokenIssuer { secret }
    }

    /// Signs `claims`.
    pub fn sign(&self, claims: &Claims) -> (r: Result<String, AuthError>)
        ensures
            r is Ok,
            r matches Ok(t) ==> jwt_signed(claims_json(claims@), self.secret()) == Some(t@) && t@.len() > 0
                && sole_claims(self.secret(), t@, claims@),
    {
        let payload = claims.to_json();
        assert(claims_json(claims@) == payload@);
        match jwt_sign(payload.as_str(), self.secret.as_str()) {
            Some(t) => {
                proof {
                    assert forall|d: ClaimsView| #[trigger] jwt_signed(claims_json(d), self.secret()) == Some(t@)
                        implies d == claims@ by {
                        lemma_claims_json_injective(d, claims@);
                    }
                }
                Ok(t)
            },
            None => Err(AuthError::Internal),
        }
    }

    /// A token pair for a user, bound to `session_id`: the access token lives
    /// one hour from `now`, the refresh token seven days.
    pub fn issue_pair(
        &self,
        user_id: &str,
        email: &str,
        username: &str,
        role: &str,
        session_id: &str,
        now: i64,
    ) -> (r: Result<TokenPair, AuthError>)
        requires
            0 <= now <= i64::MAX - REFRESH_TOKEN_SECONDS,
        ensures
            r is Ok,
            r matches Ok(p) ==> jwt_signed(claims_json(issued_claims(user_id@, email@, username@, role@,
                session_id@, now as int, ACCESS_TOKEN_SECONDS as int)), self.secret()) == Some(p.access_token@)
                && jwt_signed(claims_json(issued_claims(user_id@, email@, username@, role@,
                session_id@, now as int, REFRESH_TOKEN_SECONDS as int)), self.secret()) == Some(p.refresh_token@)
                && p.access_token@.len() > 0 && p.refresh_token@.len() > 0
                && sole_claims(self.secret(), p.access_token@, issued_claims(user_id@, email@, username@, role@,
                session_id@, now as int, ACCESS_TOKEN_SECONDS as int))
                && sole_claims(self.secret(), p.refresh_token@, issued_claims(user_id@, email@, username@, role@,
                session_id@, now as int, REFRESH_TOKEN_SECONDS as int)),
            r matches Err(e) ==> e == AuthError::Internal && (jwt_signed(claims_json(issued_claims(user_id@,
                email@, username@, role@, session_id@, now as int, ACCESS_TOKEN_SECONDS as int)), self.secret())
                is None || jwt_signed(claims_json(issued_claims(user_id@, email@, username@, role@, session_id@,
                now as int, REFRESH_TOKEN_SECONDS as int)), self.secret()) is None),
    {
        let access = new_claims(user_id, email, username, role, session_id, now, ACCESS_TOKEN_SECONDS);
        let refresh = new_claims(user_id, email, username, role, session_id, now, REFRESH_TOKEN_SECONDS);
        let access_token = self.sign(&access)?;
        let refresh_token = self.sign(&refresh)?;
        Ok(TokenPair { access_token, refresh_token })
    }

    /// The claims of `token`, where its signature is good, its payload is
    /// claims text, and the claims pass their check at unix time `now`.
    pub fn verify(&self, token: &str, now: i64) -> (r: Result<Claims, AuthError>)
        ensures
            verify_outcome(jwt_payload_of(token@, self.secret()), now as int, r),
            signed_outcome(self.secret(), token@, now as int, r),
    {
        let payload = match jwt_payload(token, self.secret.as_str()) {
            Some(p) => p,
            None => return Err(AuthError::InvalidToken),
        };
        let claims = match Claims::from_json(payload.as_str()) {
            Some(c) => c,
            None => {
                proof {
                    assert forall|c: ClaimsView| #[trigger] jwt_signed(claims_json(c), self.secret()) == Some(token@)
                        && claims_in_range(c) implies false by {
                        assert(claims_json(c) == payload@);
                    }
                }
                return Err(AuthError::InvalidToken);
            },
        };
        proof {
            assert(claims_in_range(claims@));
            assert forall|c: ClaimsView| #[trigger] jwt_signed(claims_json(c), self.secret()) == Some(token@)
                && claims_in_range(c) implies c == claims@ by {
                lemma_claims_json_injective(c, claims@);
            }
        }
        match claims.check(now) {
            Ok(()) => Ok(claims),
            Err(e) => Err(e),
        }
    }
}

/// Lifetimes of a pair issued at `t`: past one hour (by any `eps > 0`) the
/// access token's claims have expired while the refresh token's still pass,
/// up to seven days; past seven days the refresh token's claims have expired.
pub proof fn lemma_pair_lifetimes(
    sub: Seq<char>,
    email: Seq<char>,
    username: Seq<char>,
    role: Seq<char>,
    session_id: Seq<char>,
    t: int,
    eps: int,
)
    requires
        eps > 0,
    ensures
        claims_verdict(issued_claims(sub, email, username, role, session_id, t, ACCESS_TOKEN_SECONDS as int),
            t + ACCESS_TOKEN_SECONDS + eps) == Err::<(), AuthError>(AuthError::Expired),
        eps <= REFRESH_TOKEN_SECONDS - ACCESS_TOKEN_SECONDS ==> claims_verdict(issued_claims(sub, email,
            username, role, session_id, t, REFRESH_TOKEN_SECONDS as int), t + ACCESS_TOKEN_SECONDS + eps)
            == Ok::<(), AuthError>(()),
        claims_verdict(issued_claims(sub, email, username, role, session_id, t, REFRESH_TOKEN_SECONDS as int),
            t + REFRESH_TOKEN_SECONDS + eps) == Err::<(), AuthError>(AuthError::Expired),
{
}

/// Lifetimes of an issued pair, on the tokens themselves: checked one hour
/// and `eps > 0` seconds after issue, the access token has expired while the
/// refresh token still passes (up to seven days); checked seven days and
/// `eps` seconds after issue, the refresh token has expired.
pub proof fn lemma_issued_token_lifetimes(
    secret: Seq<char>,
    sub: Seq<char>,
    email: Seq<char>,
    username: Seq<char>,
    role: Seq<char>,
    session_id: Seq<char>,
    t: int,
    eps: int,
    access: Seq<char>,
    refresh: Seq<char>,
    access_late: Result<Claims, AuthError>,
    refresh_mid: Result<Claims, AuthError>,
    refresh_late: Result<Claims, AuthError>,
)
    requires
        eps > 0,
        i64::MIN <= t && t + REFRESH_TOKEN_SECONDS <= i64::MAX,
        jwt_signed(claims_json(issued_claims(sub, email, username, role, session_id, t,
            ACCESS_TOKEN_SECONDS as int)), secret) == Some(access),
        jwt_signed(claims_json(issued_claims(sub, email, username, role, session_id, t,
            REFRESH_TOKEN_SECONDS as int)), secret) == Some(refresh),
        signed_outcome(secret, access, t + ACCESS_TOKEN_SECONDS + eps, access_late),
        signed_outcome(secret, refresh, t + ACCESS_TOKEN_SECONDS + eps, refresh_mid),
        signed_outcome(secret, refresh, t + REFRESH_TOKEN_SECONDS + eps, refresh_late),
    ensures
        access_late == Err::<Claims, AuthError>(AuthError::Expired),
        eps <= REFRESH_TOKEN_SECONDS - ACCESS_TOKEN_SECONDS ==> refresh_mid is Ok,
        refresh_late == Err::<Claims, AuthError>(AuthError::Expired),
{
    let a = issued_claims(sub, email, username, role, session_id, t, ACCESS_TOKEN_SECONDS as int);
    let r = issued_claims(sub, email, username, role, session_id, t, REFRESH_TOKEN_SECONDS as int);
    assert(claims_in_range(a));
    assert(claims_in_range(r));
    lemma_pair_lifetimes(sub, email, username, role, session_id, t, eps);
}

} // verus!
