//! Server configuration: the startup checks on the authentication settings,
//! the group lists and the OAuth protected-resource metadata URL.

use vstd::prelude::*;
use crate::text::{append_chars, chars_of, copy_range, split, split_chars, string_of, trim, trim_chars, views};

verus! {

/// Public URL used when no public URL is configured.
pub const DEFAULT_PUBLIC_URL: &'static str = "http://localhost:3000";

/// Path of the RFC 9728 protected-resource metadata document.
pub const OAUTH_METADATA_PATH: &'static str = "/.well-known/oauth-protected-resource";

/// `str::trim_end_matches(c)`: every trailing `c` removed.
pub open spec fn trim_end_char(s: Seq<char>, c: char) -> Seq<char>
    decreases s.len(),
{
    if s.len() > 0 && s.last() == c {
        trim_end_char(s.drop_last(), c)
    } else {
        s
    }
}

/// The prefix `s[..b]` is `trim_end_char(s, c)` when `s[b..]` is all `c` and
/// `s[b - 1]` is not.
pub proof fn lemma_trim_end_char_is(s: Seq<char>, c: char, b: int)
    requires
        0 <= b <= s.len(),
        forall|k: int| b <= k < s.len() ==> s[k] == c,
        b > 0 ==> s[b - 1] != c,
    ensures
        trim_end_char(s, c) == s.take(b),
    decreases s.len(),
{
    if b < s.len() {
        let d = s.drop_last();
        assert forall|k: int| b <= k < d.len() implies d[k] == c by {
            assert(d[k] == s[k]);
        }
        if b > 0 {
            assert(d[b - 1] == s[b - 1]);
        }
        lemma_trim_end_char_is(d, c, b);
        assert(d.take(b) == s.take(b));
    } else {
        assert(s.take(b) == s);
    }
}

/// `s.trim_end_matches(c)` on characters.
pub fn trim_end_char_chars(s: &[char], c: char) -> (r: Vec<char>)
    ensures
        r@ == trim_end_char(s@, c),
{
    let mut b: usize = s.len();
    while b > 0 && s[b - 1] == c
        invariant
            b <= s@.len(),
            forall|k: int| b <= k < s@.len() ==> s@[k] == c,
        decreases b,
    {
        b = b - 1;
    }
    proof {
        lemma_trim_end_char_is(s@, c, b as int);
    }
    copy_range(s, 0, b)
}

/// The metadata URL for a configured public URL (or the localhost default):
/// trailing slashes trimmed, then the well-known path appended.
pub open spec fn oauth_metadata_url_spec(public_url: Option<Seq<char>>) -> Seq<char> {
    let base = match public_url {
        Some(u) => u,
        None => DEFAULT_PUBLIC_URL@,
    };
    trim_end_char(base, '/') + OAUTH_METADATA_PATH@
}

/// Absolute URL of the RFC 9728 protected-resource metadata document, derived
/// from the configured public URL (or the localhost default when unset). Any
/// trailing slash on `public_url` is trimmed so the result is well-formed.
pub fn oauth_metadata_url(public_url: Option<&str>) -> (r: String)
    ensures
        r@ == oauth_metadata_url_spec(
            match public_url {
                Some(u) => Some(u@),
                None => None,
            },
        ),
{
    let base = match public_url {
        Some(u) => chars_of(u),
        None => chars_of(DEFAULT_PUBLIC_URL),
    };
    let mut out = trim_end_char_chars(base.as_slice(), '/');
    let suffix = chars_of(OAUTH_METADATA_PATH);
    append_chars(&mut out, suffix.as_slice());
    string_of(out.as_slice())
}

/// A comma-separated group list: every piece trimmed.
pub open spec fn group_list(s: Seq<char>) -> Seq<Seq<char>> {
    split(s, ',').map_values(|p: Seq<char>| trim(p))
}

/// `s.split(',').map(str::trim)` as owned strings.
pub fn split_groups(s: &str) -> (r: Vec<String>)
    ensures
        r@.len() == group_list(s@).len(),
        forall|i: int| 0 <= i < r@.len() ==> #[trigger] r@[i]@ == group_list(s@)[i],
{
    let v = chars_of(s);
    let pieces = split_chars(v.as_slice(), ',');
    let mut r: Vec<String> = Vec::new();
    let mut i: usize = 0;
    while i < pieces.len()
        invariant
            i <= pieces@.len(),
            views(pieces@) == split(s@, ','),
            r@.len() == i,
            forall|k: int| 0 <= k < i ==> #[trigger] r@[k]@ == group_list(s@)[k],
        decreases pieces.len() - i,
    {
        let t = trim_chars(pieces[i].as_slice());
        assert(views(pieces@)[i as int] == pieces@[i as int]@);
        r.push(string_of(t.as_slice()));
        i = i + 1;
    }
    r
}

/// Why the configuration was refused at startup.
#[derive(Debug, Clone, Copy, PartialEq, Eq)]
pub enum ConfigError {
    /// No OIDC issuer while OIDC authentication is in force.
    MissingIssuer,
    /// No OIDC audience while OIDC authentication is in force.
    MissingAudience,
}

/// The operator-facing text of a refusal.
pub open spec fn config_error_text(e: ConfigError) -> Seq<char> {
    match e {
        ConfigError::MissingIssuer => "--oidc-issuer (or OIDC_ISSUER) is required. Use --no-auth or STATIC_TOKEN for local dev."@,
        ConfigError::MissingAudience => "--oidc-audience (or OIDC_AUDIENCE) is required. Use --no-auth or STATIC_TOKEN for local dev."@,
    }
}

impl ConfigError {
    /// The operator-facing message.
    pub fn message(&self) -> (r: String)
        ensures
            r@ == config_error_text(*self),
    {
        match self {
            ConfigError::MissingIssuer => String::from_str(
                "--oidc-issuer (or OIDC_ISSUER) is required. Use --no-auth or STATIC_TOKEN for local dev.",
            ),
            ConfigError::MissingAudience => String::from_str(
                "--oidc-audience (or OIDC_AUDIENCE) is required. Use --no-auth or STATIC_TOKEN for local dev.",
            ),
        }
    }
}

/// Server configuration, as read from the command line and the environment.
#[derive(Debug, Clone)]
pub struct Config {
    /// Listen address.
    pub listen: String,
    /// TLS certificate file (PEM).
    pub tls_cert: Option<String>,
    /// TLS key file (PEM).
    pub tls_key: Option<String>,
    /// OIDC issuer URL.
    pub oidc_issuer: Option<String>,
    /// OIDC audience.
    pub oidc_audience: Option<String>,
    /// Groups with full access (comma-separated).
    pub auth_groups_admin: String,
    /// Groups with read-only access (comma-separated).
    pub auth_groups_read: String,
    /// Authentication disabled (development only).
    pub no_auth: bool,
    /// Static bearer token (demo only), bypasses OIDC and grants admin.
    pub static_token: Option<String>,
    /// Public URL of this server.
    pub public_url: Option<String>,
    /// PEM CA certificate to trust for OIDC/JWKS requests.
    pub oidc_ca_cert: Option<String>,
    /// Address of the internal metrics server.
    pub metrics_listen: String,
    /// OTLP gRPC endpoint for trace export.
    pub otel_endpoint: Option<String>,
    /// Root directory of the sandbox workspace.
    pub sandbox_root: String,
}

/// The verdict of the startup check on a configuration.
pub open spec fn validate_spec(c: Config) -> Result<(), ConfigError> {
    if c.no_auth || c.static_token is Some {
        Ok(())
    } else if c.oidc_issuer is None {
        Err(ConfigError::MissingIssuer)
    } else if c.oidc_audience is None {
        Err(ConfigError::MissingAudience)
    } else {
        Ok(())
    }
}

impl Config {
    /// Checks a parsed configuration and hands it back when it is usable.
    pub fn parse_and_validate(parsed: Config) -> (r: Result<Config, ConfigError>)
        ensures
            match validate_spec(parsed) {
                Ok(()) => r == Ok::<Config, ConfigError>(parsed),
                Err(e) => r == Err::<Config, ConfigError>(e),
            },
    {
        match parsed.validate() {
            Ok(()) => Ok(parsed),
            Err(e) => Err(e),
        }
    }

    /// Refuses to start when OIDC is in force (neither `no_auth` nor a static
    /// token) and the issuer or the audience is missing.
    pub fn validate(&self) -> (r: Result<(), ConfigError>)
        ensures
            r == validate_spec(*self),
    {
        if self.no_auth {
            return Ok(());
        }
        if self.static_token.is_some() {
            return Ok(());
        }
        if self.oidc_issuer.is_none() {
            return Err(ConfigError::MissingIssuer);
        }
        if self.oidc_audience.is_none() {
            return Err(ConfigError::MissingAudience);
        }
        Ok(())
    }

    /// The admin groups: the comma-separated list, each entry trimmed.
    pub fn admin_groups(&self) -> (r: Vec<String>)
        ensures
            r@.len() == group_list(self.auth_groups_admin@).len(),
            forall|i: int| 0 <= i < r@.len() ==> #[trigger] r@[i]@ == group_list(
                self.auth_groups_admin@,
            )[i],
    {
        split_groups(self.auth_groups_admin.as_str())
    }

    /// The read-only groups: the comma-separated list, each entry trimmed.
    pub fn read_groups(&self) -> (r: Vec<String>)
        ensures
            r@.len() == group_list(self.auth_groups_read@).len(),
            forall|i: int| 0 <= i < r@.len() ==> #[trigger] r@[i]@ == group_list(
                self.auth_groups_read@,
            )[i],
    {
        split_groups(self.auth_groups_read.as_str())
    }
}

} // verus!
