//! Access control: the decision taken on each request (no authentication,
//! static token, or OIDC bearer token), the access level granted by the
//! groups of a validated token, and the HTTP answer to a refused request.

use vstd::prelude::*;
use std::sync::Arc;
use crate::config::{group_list, oauth_metadata_url, oauth_metadata_url_spec, split_groups, Config};
use crate::text::{append_chars, chars_of, eq_chars, string_of};

verus! {

/// The claims of a validated token that the access policy reads.
#[derive(Debug, Clone, PartialEq, Eq)]
pub struct Claims {
    pub sub: String,
    pub groups: Option<Vec<String>>,
}

/// The access granted to a request.
#[derive(Debug, Clone, Copy, PartialEq, Eq, Structural)]
pub enum AccessLevel {
    Admin,
    Read,
}

/// Who the request is from and what it may do.
#[derive(Debug, Clone, PartialEq, Eq)]
pub struct AuthInfo {
    pub subject: String,
    pub access: AccessLevel,
}

/// Why a request was refused.
#[derive(Debug, Clone, Copy, PartialEq, Eq, Structural)]
pub enum AuthError {
    MissingToken,
    InvalidToken,
    JwksFetchFailed,
    KeyNotFound,
    UnsupportedAlgorithm,
    InsufficientPermissions,
}

/// The description of an error.
pub open spec fn auth_error_text(e: AuthError) -> Seq<char> {
    match e {
        AuthError::MissingToken => "missing or malformed Authorization header"@,
        AuthError::InvalidToken => "invalid or expired token"@,
        AuthError::JwksFetchFailed => "could not fetch JWKS from identity provider"@,
        AuthError::KeyNotFound => "signing key not found in JWKS"@,
        AuthError::UnsupportedAlgorithm => "unsupported signing algorithm (RS256 required)"@,
        AuthError::InsufficientPermissions => "insufficient permissions — check group membership in Authentik"@,
    }
}

impl AuthError {
    /// The description of the error, as given to the client.
    pub fn message(&self) -> (r: String)
        ensures
            r@ == auth_error_text(*self),
    {
        let s: &str = match self {
            AuthError::MissingToken => "missing or malformed Authorization header",
            AuthError::InvalidToken => "invalid or expired token",
            AuthError::JwksFetchFailed => "could not fetch JWKS from identity provider",
            AuthError::KeyNotFound => "signing key not found in JWKS",
            AuthError::UnsupportedAlgorithm => "unsupported signing algorithm (RS256 required)",
            AuthError::InsufficientPermissions => "insufficient permissions — check group membership in Authentik",
        };
        s.to_owned()
    }
}

/// The HTTP answer to a refused request.
#[derive(Debug, Clone, PartialEq, Eq)]
pub struct AuthErrorResponse {
    /// 401 or 403.
    pub status: u16,
    /// `invalid_token` or `insufficient_scope`.
    pub error: String,
    pub error_description: String,
    /// The `WWW-Authenticate` header, for a 401 only.
    pub www_authenticate: Option<String>,
}

/// `Bearer error="invalid_token", resource_metadata="{url}"`.
pub open spec fn www_authenticate_spec(public_url: Option<Seq<char>>) -> Seq<char> {
    "Bearer error=\"invalid_token\", resource_metadata=\""@ + oauth_metadata_url_spec(public_url) + "\""@
}

/// The answer to a refused request: a missing group membership is a 403
/// `insufficient_scope` without challenge; anything else is a 401
/// `invalid_token` whose `WWW-Authenticate` challenge points to the absolute
/// URL of the protected-resource metadata (RFC 9728), built from the
/// configured public URL (or the localhost default).
pub fn auth_error_response(err: AuthError, public_url: Option<&str>) -> (r: AuthErrorResponse)
    ensures
        r.error_description@ == auth_error_text(err),
        err == AuthError::InsufficientPermissions ==> r.status == 403 && r.error@ == "insufficient_scope"@
            && r.www_authenticate is None,
        err != AuthError::InsufficientPermissions ==> r.status == 401 && r.error@ == "invalid_token"@
            && (r.www_authenticate matches Some(h) && h@ == www_authenticate_spec(
            match public_url {
                Some(u) => Some(u@),
                None => None,
            },
        )),
{
    let description = err.message();
    match err {
        AuthError::InsufficientPermissions => AuthErrorResponse {
            status: 403,
            error: "insufficient_scope".to_owned(),
            error_description: description,
            www_authenticate: None,
        },
        _ => {
            let url = oauth_metadata_url(public_url);
            let mut h = chars_of("Bearer error=\"invalid_token\", resource_metadata=\"");
            let u = chars_of(url.as_str());
            append_chars(&mut h, u.as_slice());
            h.push('"');
            proof {
                reveal_strlit("\"");
            }
            let header = string_of(h.as_slice());
            assert(header@ == www_authenticate_spec(
                match public_url {
                    Some(u) => Some(u@),
                    None => None,
                },
            ));
            AuthErrorResponse {
                status: 401,
                error: "invalid_token".to_owned(),
                error_description: description,
                www_authenticate: Some(header),
            }
        },
    }
}


// ── access policy ───────────────────────────────────────────────────────────

/// Some group of the token is among the listed groups.
pub open spec fn member_of(groups: Seq<Seq<char>>, listed: Seq<Seq<char>>) -> bool {
    exists|i: int, j: int| 0 <= i < groups.len() && 0 <= j < listed.len() && groups[i] == listed[j]
}

/// The groups of a token (none when the claim is absent).
pub open spec fn claim_groups(c: Claims) -> Seq<Seq<char>> {
    match c.groups {
        Some(g) => g@.map_values(|s: String| s@),
        None => seq![],
    }
}

/// The access granted to a token's groups: admin when one of them is an
/// admin group, else read when one is a read group, else refused.
pub open spec fn access_spec(config: Config, groups: Seq<Seq<char>>) -> Result<AccessLevel, AuthError> {
    if member_of(groups, group_list(config.auth_groups_admin@)) {
        Ok(AccessLevel::Admin)
    } else if member_of(groups, group_list(config.auth_groups_read@)) {
        Ok(AccessLevel::Read)
    } else {
        Err(AuthError::InsufficientPermissions)
    }
}

/// Access looks at every group of the token, in any order: some group in
/// the admin list gives `Admin`; otherwise some group in the read list gives
/// `Read`; otherwise access is refused. Two tokens with the same groups, in
/// whatever order and repetition, get the same answer.
pub proof fn lemma_access_any_group(config: Config, groups: Seq<Seq<char>>, other: Seq<Seq<char>>)
    ensures
        ({
            let admins = group_list(config.auth_groups_admin@);
            let readers = group_list(config.auth_groups_read@);
            let in_admins = exists|i: int, j: int|
                0 <= i < groups.len() && 0 <= j < admins.len() && #[trigger] groups[i] == #[trigger] admins[j];
            let in_readers = exists|i: int, j: int|
                0 <= i < groups.len() && 0 <= j < readers.len() && #[trigger] groups[i] == #[trigger] readers[j];
            &&& (in_admins ==> access_spec(config, groups) == Ok::<AccessLevel, AuthError>(AccessLevel::Admin))
            &&& (!in_admins && in_readers ==> access_spec(config, groups) == Ok::<AccessLevel, AuthError>(
                AccessLevel::Read,
            ))
            &&& (!in_admins && !in_readers ==> access_spec(config, groups) == Err::<AccessLevel, AuthError>(
                AuthError::InsufficientPermissions,
            ))
        }),
        (forall|x: Seq<char>| groups.contains(x) <==> other.contains(x)) ==> access_spec(config, groups)
            == access_spec(config, other),
{
    let admins = group_list(config.auth_groups_admin@);
    let readers = group_list(config.auth_groups_read@);
    if forall|x: Seq<char>| groups.contains(x) <==> other.contains(x) {
        assert(member_of(groups, admins) == member_of(other, admins)) by {
            if member_of(groups, admins) {
                let (i, j) = choose|i: int, j: int| 0 <= i < groups.len() && 0 <= j < admins.len() && groups[i] == admins[j];
                assert(groups.contains(groups[i]));
                let k = choose|k: int| 0 <= k < other.len() && other[k] == groups[i];
                assert(other[k] == admins[j]);
            }
            if member_of(other, admins) {
                let (i, j) = choose|i: int, j: int| 0 <= i < other.len() && 0 <= j < admins.len() && other[i] == admins[j];
                assert(other.contains(other[i]));
                let k = choose|k: int| 0 <= k < groups.len() && groups[k] == other[i];
                assert(groups[k] == admins[j]);
            }
        }
        assert(member_of(groups, readers) == member_of(other, readers)) by {
            if member_of(groups, readers) {
                let (i, j) = choose|i: int, j: int| 0 <= i < groups.len() && 0 <= j < readers.len() && groups[i] == readers[j];
                assert(groups.contains(groups[i]));
                let k = choose|k: int| 0 <= k < other.len() && other[k] == groups[i];
                assert(other[k] == readers[j]);
            }
            if member_of(other, readers) {
                let (i, j) = choose|i: int, j: int| 0 <= i < other.len() && 0 <= j < readers.len() && other[i] == readers[j];
                assert(other.contains(other[i]));
                let k = choose|k: int| 0 <= k < groups.len() && groups[k] == other[i];
                assert(groups[k] == readers[j]);
            }
        }
    }
}

/// Whether one of `groups` equals one of `listed`.
fn any_member(groups: &Vec<String>, listed: &Vec<String>) -> (b: bool)
    ensures
        b == member_of(groups@.map_values(|s: String| s@), listed@.map_values(|s: String| s@)),
{
    let ghost gv = groups@.map_values(|s: String| s@);
    let ghost lv = listed@.map_values(|s: String| s@);
    let mut i: usize = 0;
    while i < groups.len()
        invariant
            i <= groups@.len(),
            gv == groups@.map_values(|s: String| s@),
            lv == listed@.map_values(|s: String| s@),
            forall|a: int, b: int| 0 <= a < i && 0 <= b < lv.len() ==> gv[a] != lv[b],
        decreases groups.len() - i,
    {
        let g = chars_of(groups[i].as_str());
        let mut j: usize = 0;
        while j < listed.len()
            invariant
                i < groups@.len(),
                j <= listed@.len(),
                g@ == gv[i as int],
                gv == groups@.map_values(|s: String| s@),
                lv == listed@.map_values(|s: String| s@),
                forall|b: int| 0 <= b < j ==> gv[i as int] != lv[b],
            decreases listed.len() - j,
        {
            let l = chars_of(listed[j].as_str());
            if eq_chars(g.as_slice(), l.as_slice()) {
                assert(gv[i as int] == lv[j as int]);
                return true;
            }
            j = j + 1;
        }
        i = i + 1;
    }
    false
}

/// The access policy of the server, from its configuration.
pub struct AuthState {
    config: Arc<Config>,
}

impl AuthState {
    /// The configuration the policy reads.
    pub closed spec fn spec_config(&self) -> Config {
        *self.config
    }

    /// A policy for a configuration.
    pub fn new(config: Arc<Config>) -> (r: AuthState)
        ensures
            r.spec_config() == *config,
    {
        AuthState { config }
    }

    /// The access granted to a validated token: `Admin` when one of its
    /// groups is an admin group (admin wins over read), `Read` when one is a
    /// read group, else `InsufficientPermissions` (also without a groups
    /// claim).
    pub fn check_access(&self, claims: &Claims) -> (r: Result<AccessLevel, AuthError>)
        ensures
            r == access_spec(self.spec_config(), claim_groups(*claims)),
    {
        let admins = self.config.admin_groups();
        let readers = self.config.read_groups();
        let empty: Vec<String> = Vec::new();
        let groups: &Vec<String> = match &claims.groups {
            Some(g) => g,
            None => &empty,
        };
        proof {
            assert(admins@.map_values(|s: String| s@) =~= group_list(self.spec_config().auth_groups_admin@));
            assert(readers@.map_values(|s: String| s@) =~= group_list(self.spec_config().auth_groups_read@));
            assert(groups@.map_values(|s: String| s@) =~= claim_groups(*claims));
        }
        if any_member(groups, &admins) {
            return Ok(AccessLevel::Admin);
        }
        if any_member(groups, &readers) {
            return Ok(AccessLevel::Read);
        }
        Err(AuthError::InsufficientPermissions)
    }

    /// The end of an OIDC authentication, once the token was validated (or
    /// refused): a validated token gets the access of its groups, under its
    /// subject.
    pub fn finish_authentication(&self, validated: Result<Claims, AuthError>) -> (r: Result<AuthInfo, AuthError>)
        ensures
            match validated {
                Err(e) => r == Err::<AuthInfo, AuthError>(e),
                Ok(c) => match access_spec(self.spec_config(), claim_groups(c)) {
                    Ok(a) => r matches Ok(info) && info.subject@ == c.sub@ && info.access == a,
                    Err(e) => r == Err::<AuthInfo, AuthError>(e),
                },
            },
    {
        match validated {
            Err(e) => Err(e),
            Ok(claims) => match self.check_access(&claims) {
                Ok(access) => Ok(AuthInfo { subject: claims.sub, access }),
                Err(e) => Err(e),
            },
        }
    }
}

/// The next step of authenticating a request.
#[derive(Debug, Clone, PartialEq, Eq)]
pub enum AuthStep {
    /// Let the request through with this identity.
    Granted(AuthInfo),
    /// Refuse the request.
    Refused(AuthError),
    /// Validate this bearer token against the identity provider, then call
    /// `AuthState::finish_authentication`.
    ValidateToken(String),
}

/// The token of an `Authorization: Bearer <token>` header.
pub open spec fn bearer_spec(header: Option<Seq<char>>) -> Option<Seq<char>> {
    match header {
        Some(h) => if crate::text::starts_with(h, "Bearer "@) {
            Some(h.skip(7))
        } else {
            None
        },
        None => None,
    }
}

/// The token of an `Authorization` header value (`Bearer <token>`).
pub fn bearer_token(header: Option<&str>) -> (r: Option<String>)
    ensures
        match r {
            Some(t) => bearer_spec(match header {
                Some(h) => Some(h@),
                None => None,
            }) == Some(t@),
            None => bearer_spec(match header {
                Some(h) => Some(h@),
                None => None,
            }) is None,
        },
{
    match header {
        Some(h) => {
            let hv = chars_of(h);
            let pre = chars_of("Bearer ");
            proof {
                reveal_strlit("Bearer ");
            }
            if crate::text::starts_with_chars(hv.as_slice(), pre.as_slice()) {
                let rest = crate::text::copy_range(hv.as_slice(), 7, hv.len());
                Some(string_of(rest.as_slice()))
            } else {
                None
            }
        },
        None => None,
    }
}

/// The first step of authenticating a request, from the configuration and
/// its `Authorization` header (absent when missing or not text).
pub open spec fn auth_step_spec(config: Config, header: Option<Seq<char>>) -> (Seq<char>, Option<AccessLevel>, Option<AuthError>, Option<Seq<char>>) {
    if config.no_auth {
        ("dev-no-auth"@, Some(AccessLevel::Admin), None, None)
    } else if config.static_token is Some {
        match bearer_spec(header) {
            None => (seq![], None, Some(AuthError::MissingToken), None),
            Some(t) => if t == config.static_token->Some_0@ {
                ("static-token"@, Some(AccessLevel::Admin), None, None)
            } else {
                (seq![], None, Some(AuthError::InvalidToken), None)
            },
        }
    } else {
        match bearer_spec(header) {
            None => (seq![], None, Some(AuthError::MissingToken), None),
            Some(t) => (seq![], None, None, Some(t)),
        }
    }
}

/// The view of a step: (subject, access) when granted, the error when
/// refused, the token when it must be validated.
pub open spec fn auth_step_view(s: AuthStep) -> (Seq<char>, Option<AccessLevel>, Option<AuthError>, Option<Seq<char>>) {
    match s {
        AuthStep::Granted(info) => (info.subject@, Some(info.access), None, None),
        AuthStep::Refused(e) => (seq![], None, Some(e), None),
        AuthStep::ValidateToken(t) => (seq![], None, None, Some(t@)),
    }
}

/// The first step of authenticating a request: with authentication off,
/// everything is let through as admin; with a static token, the bearer token
/// must be that token (admin) or the request is refused; otherwise a bearer
/// token is required and must be validated against the identity provider.
pub fn authenticate_request(config: &Config, authorization: Option<&str>) -> (r: AuthStep)
    ensures
        auth_step_view(r) == auth_step_spec(*config, match authorization {
            Some(h) => Some(h@),
            None => None,
        }),
{
    if config.no_auth {
        return AuthStep::Granted(AuthInfo { subject: "dev-no-auth".to_owned(), access: AccessLevel::Admin });
    }
    let token = bearer_token(authorization);
    match &config.static_token {
        Some(expected) => match token {
            None => AuthStep::Refused(AuthError::MissingToken),
            Some(t) => {
                let tc = chars_of(t.as_str());
                let ec = chars_of(expected.as_str());
                if eq_chars(tc.as_slice(), ec.as_slice()) {
                    AuthStep::Granted(AuthInfo { subject: "static-token".to_owned(), access: AccessLevel::Admin })
                } else {
                    AuthStep::Refused(AuthError::InvalidToken)
                }
            },
        },
        None => match token {
            None => AuthStep::Refused(AuthError::MissingToken),
            Some(t) => AuthStep::ValidateToken(t),
        },
    }
}

/// The metric label of a token validation failure.
pub open spec fn failure_reason_spec(e: AuthError) -> Seq<char> {
    match e {
        AuthError::InvalidToken => "invalid_token"@,
        AuthError::JwksFetchFailed => "jwks_fetch_failed"@,
        AuthError::KeyNotFound => "key_not_found"@,
        AuthError::UnsupportedAlgorithm => "unsupported_algorithm"@,
        _ => "unknown"@,
    }
}

/// The metric label of a token validation failure.
pub fn validation_failure_reason(e: AuthError) -> (r: &'static str)
    ensures
        r@ == failure_reason_spec(e),
{
    match e {
        AuthError::InvalidToken => "invalid_token",
        AuthError::JwksFetchFailed => "jwks_fetch_failed",
        AuthError::KeyNotFound => "key_not_found",
        AuthError::UnsupportedAlgorithm => "unsupported_algorithm",
        _ => "unknown",
    }
}

} // verus!
