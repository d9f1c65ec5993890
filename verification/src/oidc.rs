//! The decisions of bearer-token validation against an OIDC provider: where
//! its discovery document lives, when the cached key set is stale, which key
//! id a token names and which key of the set verifies it. Fetching the
//! documents and checking the signature and claims stay with the caller.

use vstd::prelude::*;
use crate::auth::{AuthError, Claims};
use crate::config::{trim_end_char, trim_end_char_chars};
use crate::text::{append_chars, chars_of, eq_chars, string_of};

verus! {

/// How long a fetched key set is used before it is fetched again, in
/// seconds.
pub const JWKS_CACHE_TTL_SECS: u64 = 3600;

/// Path of the OIDC discovery document under the issuer.
pub const OIDC_DISCOVERY_PATH: &'static str = "/.well-known/openid-configuration";

/// The cached key set must be fetched again: there is none, or its age
/// exceeds the time to live.
pub open spec fn needs_refresh_spec(age_nanos: Option<u128>) -> bool {
    match age_nanos {
        None => true,
        Some(a) => a > JWKS_CACHE_TTL_SECS * 1_000_000_000,
    }
}

/// Whether the cached key set must be fetched again, given its age in
/// nanoseconds (`None` when nothing is cached).
pub fn jwks_needs_refresh(age_nanos: Option<u128>) -> (b: bool)
    ensures
        b == needs_refresh_spec(age_nanos),
{
    match age_nanos {
        None => true,
        Some(a) => a > (JWKS_CACHE_TTL_SECS as u128) * 1_000_000_000,
    }
}

/// The discovery URL of an issuer: its trailing slashes trimmed, then the
/// well-known path.
pub open spec fn discovery_url_spec(issuer: Seq<char>) -> Seq<char> {
    trim_end_char(issuer, '/') + OIDC_DISCOVERY_PATH@
}

/// The discovery URL of the configured issuer; `None` without one.
pub fn oidc_discovery_url(issuer: Option<&str>) -> (r: Option<String>)
    ensures
        match issuer {
            Some(i) => r matches Some(u) && u@ == discovery_url_spec(i@),
            None => r is None,
        },
{
    match issuer {
        Some(i) => {
            let v = chars_of(i);
            let mut out = trim_end_char_chars(v.as_slice(), '/');
            let p = chars_of(OIDC_DISCOVERY_PATH);
            append_chars(&mut out, p.as_slice());
            Some(string_of(out.as_slice()))
        },
        None => None,
    }
}

/// What `jsonwebtoken::decode_header` reads of a token: `None` when its
/// header cannot be decoded, else the header's `kid` member.
pub uninterp spec fn jwt_header_kid(token: Seq<char>) -> Option<Option<Seq<char>>>;

/// The view of a decoded header's key id.
pub open spec fn kid_view(h: Option<Option<String>>) -> Option<Option<Seq<char>>> {
    match h {
        Some(Some(k)) => Some(Some(k@)),
        Some(None) => Some(None),
        None => None,
    }
}

/// Calls `jsonwebtoken::decode_header` (base64url-decodes and parses the
/// token's first segment) and keeps the `kid` member. Its result is named
/// `jwt_header_kid`: a function of the token alone.
#[verifier::external_body]
fn decode_header_kid(token: &str) -> (r: Option<Option<String>>)
    ensures
        kid_view(r) == jwt_header_kid(token@),
{
    match jsonwebtoken::decode_header(token) {
        Ok(h) => Some(h.kid),
        Err(_) => None,
    }
}

/// The key id a token asks for, given its decoded header: a header that did
/// not decode, or has no `kid`, makes the token invalid.
pub fn kid_outcome(header: Option<Option<String>>) -> (r: Result<String, AuthError>)
    ensures
        match header {
            Some(Some(k)) => r matches Ok(s) && s@ == k@,
            _ => r == Err::<String, AuthError>(AuthError::InvalidToken),
        },
{
    match header {
        Some(Some(k)) => Ok(k),
        _ => Err(AuthError::InvalidToken),
    }
}

/// The key id named in a token's header.
pub fn token_kid(token: &str) -> (r: Result<String, AuthError>)
    ensures
        match jwt_header_kid(token@) {
            Some(Some(k)) => r matches Ok(s) && s@ == k,
            _ => r == Err::<String, AuthError>(AuthError::InvalidToken),
        },
{
    let header = decode_header_kid(token);
    kid_outcome(header)
}

/// A key of a JWK set, as far as validation reads it: its `kid`, and its
/// modulus and exponent when it is an RSA key.
#[derive(Debug, Clone, PartialEq, Eq)]
pub struct JwkKey {
    pub kid: Option<String>,
    pub rsa: Option<(String, String)>,
}

/// The key has exactly the id `kid`.
pub open spec fn key_has_id(k: JwkKey, kid: Seq<char>) -> bool {
    k.kid matches Some(i) && i@ == kid
}

/// The position of the first key with id `kid`, or the number of keys.
pub open spec fn first_key(keys: Seq<JwkKey>, kid: Seq<char>) -> nat
    decreases keys.len(),
{
    if keys.len() == 0 {
        0
    } else if key_has_id(keys[0], kid) {
        0
    } else {
        1 + first_key(keys.drop_first(), kid)
    }
}

/// The RSA parameters that verify a token naming `kid`: those of the first
/// key with that id; no such key is `KeyNotFound`, a key of another type is
/// `UnsupportedAlgorithm`.
pub open spec fn select_key_spec(keys: Seq<JwkKey>, kid: Seq<char>) -> Result<(Seq<char>, Seq<char>), AuthError> {
    let i = first_key(keys, kid);
    if i >= keys.len() {
        Err(AuthError::KeyNotFound)
    } else {
        match keys[i as int].rsa {
            Some((n, e)) => Ok((n@, e@)),
            None => Err(AuthError::UnsupportedAlgorithm),
        }
    }
}

proof fn lemma_first_key(keys: Seq<JwkKey>, kid: Seq<char>, j: int)
    requires
        0 <= j <= keys.len(),
        forall|k: int| 0 <= k < j ==> !key_has_id(#[trigger] keys[k], kid),
        j == keys.len() || key_has_id(keys[j], kid),
    ensures
        first_key(keys, kid) == j,
    decreases keys.len(),
{
    if keys.len() > 0 && j > 0 {
        assert(!key_has_id(keys[0], kid));
        let t = keys.drop_first();
        assert forall|k: int| 0 <= k < j - 1 implies !key_has_id(#[trigger] t[k], kid) by {
            assert(t[k] == keys[k + 1]);
        }
        if j < keys.len() {
            assert(t[j - 1] == keys[j]);
        }
        lemma_first_key(t, kid, j - 1);
    }
}

/// The RSA modulus and exponent of the key that verifies a token naming
/// `kid`.
pub fn select_rsa_key(keys: &Vec<JwkKey>, kid: &str) -> (r: Result<(String, String), AuthError>)
    ensures
        match select_key_spec(keys@, kid@) {
            Ok((n, e)) => r matches Ok(p) && p.0@ == n && p.1@ == e,
            Err(err) => r == Err::<(String, String), AuthError>(err),
        },
{
    let want = chars_of(kid);
    let mut j: usize = 0;
    while j < keys.len()
        invariant
            j <= keys@.len(),
            want@ == kid@,
            forall|k: int| 0 <= k < j ==> !key_has_id(#[trigger] keys@[k], kid@),
        decreases keys.len() - j,
    {
        let hit = match &keys[j].kid {
            Some(i) => {
                let iv = chars_of(i.as_str());
                eq_chars(iv.as_slice(), want.as_slice())
            },
            None => false,
        };
        if hit {
            proof {
                lemma_first_key(keys@, kid@, j as int);
            }
            return match &keys[j].rsa {
                Some((n, e)) => Ok((n.clone(), e.clone())),
                None => Err(AuthError::UnsupportedAlgorithm),
            };
        }
        j = j + 1;
    }
    proof {
        lemma_first_key(keys@, kid@, j as int);
    }
    Err(AuthError::KeyNotFound)
}

/// The checks of `jsonwebtoken::decode` that do not read the clock: the
/// token is RS256, its signature verifies with the RSA key of base64url
/// modulus `n` and exponent `e`, its `aud` claim holds `audience` and its
/// `iss` claim is `issuer`. A function of its arguments alone.
pub uninterp spec fn rs256_accepts(
    token: Seq<char>,
    n: Seq<char>,
    e: Seq<char>,
    audience: Seq<char>,
    issuer: Seq<char>,
) -> bool;

/// The claims the library reads from a token's payload (its second
/// segment, base64url JSON): `sub`, which must be a string, and `groups`,
/// absent or `null` for none, else a list of strings; `None` when the
/// payload does not decode or does not have that shape. A function of the
/// token alone.
pub uninterp spec fn jwt_claims(token: Seq<char>) -> Option<(Seq<char>, Option<Seq<Seq<char>>>)>;

/// The view of read claims: the subject and, when the claim is present,
/// the groups.
pub open spec fn claims_view(c: Claims) -> (Seq<char>, Option<Seq<Seq<char>>>) {
    (
        c.sub@,
        match c.groups {
            Some(g) => Some(g@.map_values(|s: String| s@)),
            None => None,
        },
    )
}

/// `jsonwebtoken::decode` with `DecodingKey::from_rsa_components(n, e)` and
/// `Validation::new(Algorithm::RS256)` accepting the one `audience` and the
/// one `issuer`, then the claims read as `jwt_claims` reads them; `None` on
/// any refusal (a key that does not decode included). What is stated: a
/// token passes only if its signature, audience and issuer pass
/// (`rs256_accepts`), and then its claims are those of its payload. Which
/// tokens pass is not stated, since the expiry is checked against the clock.
#[verifier::external_body]
fn decode_claims(token: &str, n: &str, e: &str, audience: &str, issuer: &str) -> (r: Option<Claims>)
    ensures
        r is Some ==> rs256_accepts(token@, n@, e@, audience@, issuer@),
        r matches Some(c) ==> jwt_claims(token@) == Some(claims_view(c)),
{
    let key = jsonwebtoken::DecodingKey::from_rsa_components(n, e).ok()?;
    let mut validation = jsonwebtoken::Validation::new(jsonwebtoken::Algorithm::RS256);
    validation.set_audience(&[audience]);
    validation.set_issuer(&[issuer]);
    let v = jsonwebtoken::decode::<serde_json::Value>(token, &key, &validation).ok()?.claims;
    let sub = v.get("sub")?.as_str()?.to_string();
    let groups = match v.get("groups") {
        None | Some(serde_json::Value::Null) => None,
        Some(g) => Some(g.as_array()?.iter().map(|x| x.as_str().map(str::to_string)).collect::<Option<Vec<String>>>()?),
    };
    Some(Claims { sub, groups })
}

/// What the signature check of a token is handed: the RSA modulus and
/// exponent of the key its `kid` names, and the configured audience and
/// issuer (empty when unset).
#[derive(Debug, Clone, PartialEq, Eq)]
pub struct DecodeRequest {
    pub n: String,
    pub e: String,
    pub audience: String,
    pub issuer: String,
}

/// The configured value, or the empty string.
pub open spec fn or_empty(o: Option<Seq<char>>) -> Seq<char> {
    match o {
        Some(s) => s,
        None => Seq::empty(),
    }
}

/// The view of an optional text.
pub open spec fn opt_text(o: Option<&str>) -> Option<Seq<char>> {
    match o {
        Some(s) => Some(s@),
        None => None,
    }
}

/// What a token is checked with: a header without a readable `kid` makes
/// it invalid; the key comes from `select_key_spec` (its errors pass
/// through); audience and issuer are the configured ones or empty.
pub open spec fn decode_request_spec(
    token: Seq<char>,
    keys: Seq<JwkKey>,
    audience: Option<Seq<char>>,
    issuer: Option<Seq<char>>,
) -> Result<(Seq<char>, Seq<char>, Seq<char>, Seq<char>), AuthError> {
    match jwt_header_kid(token) {
        Some(Some(k)) => match select_key_spec(keys, k) {
            Ok((n, e)) => Ok((n, e, or_empty(audience), or_empty(issuer))),
            Err(x) => Err(x),
        },
        _ => Err(AuthError::InvalidToken),
    }
}

/// The view of a request.
pub open spec fn request_view(q: DecodeRequest) -> (Seq<char>, Seq<char>, Seq<char>, Seq<char>) {
    (q.n@, q.e@, q.audience@, q.issuer@)
}

/// What the signature check of `token` is handed, given the provider's keys
/// and the configured audience and issuer.
pub fn decode_request(token: &str, keys: &Vec<JwkKey>, audience: Option<&str>, issuer: Option<&str>) -> (r: Result<
    DecodeRequest,
    AuthError,
>)
    ensures
        match decode_request_spec(token@, keys@, opt_text(audience), opt_text(issuer)) {
            Ok(q) => r matches Ok(x) && request_view(x) == q,
            Err(x) => r == Err::<DecodeRequest, AuthError>(x),
        },
{
    let kid = token_kid(token)?;
    let (n, e) = select_rsa_key(keys, &kid)?;
    let audience = match audience {
        Some(a) => a.to_owned(),
        None => String::new(),
    };
    let issuer = match issuer {
        Some(i) => i.to_owned(),
        None => String::new(),
    };
    Ok(DecodeRequest { n, e, audience, issuer })
}

/// The answer of the signature and claims check: the claims when it
/// passed, `InvalidToken` when it refused.
pub fn validation_outcome(decoded: Option<Claims>) -> (r: Result<Claims, AuthError>)
    ensures
        match decoded {
            Some(c) => r == Ok::<Claims, AuthError>(c),
            None => r == Err::<Claims, AuthError>(AuthError::InvalidToken),
        },
{
    match decoded {
        Some(c) => Ok(c),
        None => Err(AuthError::InvalidToken),
    }
}

/// Validates a bearer token against the provider's keys: the key its `kid`
/// names (RS256), the configured audience and issuer (empty when unset),
/// and its expiry. Returns its claims (`jwt_claims` of the token). Every refusal before the
/// check is fixed by `decode_request_spec`; a refused check is
/// `InvalidToken`; a token is accepted only if its signature, audience and
/// issuer pass with exactly the values `decode_request_spec` gives. Whether
/// an accepted token has expired depends on the clock.
pub fn validate_token(token: &str, keys: &Vec<JwkKey>, audience: Option<&str>, issuer: Option<&str>) -> (r: Result<
    Claims,
    AuthError,
>)
    ensures
        match decode_request_spec(token@, keys@, opt_text(audience), opt_text(issuer)) {
            Err(x) => r == Err::<Claims, AuthError>(x),
            Ok(q) => (r is Ok || r == Err::<Claims, AuthError>(AuthError::InvalidToken)) && (r is Ok
                ==> rs256_accepts(token@, q.0, q.1, q.2, q.3)),
        },
        r matches Ok(c) ==> jwt_claims(token@) == Some(claims_view(c)),
{
    let req = decode_request(token, keys, audience, issuer)?;
    let decoded = decode_claims(token, req.n.as_str(), req.e.as_str(), req.audience.as_str(), req.issuer.as_str());
    validation_outcome(decoded)
}

} // verus!
