use vanyline_sandbox::config::{oauth_metadata_url, Config, ConfigError};

fn base() -> Config {
    Config {
        listen: "0.0.0.0:3000".into(),
        tls_cert: None,
        tls_key: None,
        oidc_issuer: None,
        oidc_audience: None,
        auth_groups_admin: "kubernetes-admin".into(),
        auth_groups_read: "kubernetes-view,kubernetes-edit".into(),
        no_auth: false,
        static_token: None,
        public_url: None,
        oidc_ca_cert: None,
        metrics_listen: "0.0.0.0:9090".into(),
        otel_endpoint: None,
        sandbox_root: "/workspace".into(),
    }
}

#[test]
fn admin_groups_single() {
    assert_eq!(base().admin_groups(), vec!["kubernetes-admin"]);
}

#[test]
fn read_groups_multiple() {
    assert_eq!(base().read_groups(), vec!["kubernetes-view", "kubernetes-edit"]);
}

#[test]
fn groups_trimmed() {
    let mut c = base();
    c.auth_groups_read = " group-a , group-b ".into();
    assert_eq!(c.read_groups(), vec!["group-a", "group-b"]);
}

#[test]
fn validate_no_auth_skips_oidc_check() {
    let mut c = base();
    c.no_auth = true;
    assert!(c.validate().is_ok());
}

#[test]
fn validate_requires_issuer() {
    let mut c = base();
    c.oidc_audience = Some("aud".into());
    assert!(c.validate().is_err());
}

#[test]
fn validate_requires_audience() {
    let mut c = base();
    c.oidc_issuer = Some("https://example.com".into());
    assert!(c.validate().is_err());
}

#[test]
fn validate_static_token_skips_oidc_check() {
    let mut c = base();
    c.static_token = Some("demo-token".into());
    assert!(c.validate().is_ok());
}

#[test]
fn validate_passes_with_both_oidc_params() {
    let mut c = base();
    c.oidc_issuer = Some("https://example.com".into());
    c.oidc_audience = Some("my-client".into());
    assert!(c.validate().is_ok());
}

#[test]
fn oauth_metadata_url_uses_default_when_none() {
    assert_eq!(
        oauth_metadata_url(None),
        "http://localhost:3000/.well-known/oauth-protected-resource"
    );
}

#[test]
fn oauth_metadata_url_uses_public_url() {
    assert_eq!(
        oauth_metadata_url(Some("https://mcp.example.com")),
        "https://mcp.example.com/.well-known/oauth-protected-resource"
    );
}

#[test]
fn oauth_metadata_url_trims_trailing_slash() {
    assert_eq!(
        oauth_metadata_url(Some("https://mcp.example.com/")),
        "https://mcp.example.com/.well-known/oauth-protected-resource"
    );
}

#[test]
fn sandbox_root_defaults_to_workspace() {
    assert_eq!(base().sandbox_root, "/workspace");
}

// ── further cases ───────────────────────────────────────────────────────────

#[test]
fn validate_reports_which_setting_is_missing() {
    let c = base();
    assert_eq!(c.validate(), Err(ConfigError::MissingIssuer));
    let mut c = base();
    c.oidc_issuer = Some("https://example.com".into());
    assert_eq!(c.validate(), Err(ConfigError::MissingAudience));
}

#[test]
fn parse_and_validate_hands_back_a_usable_config() {
    let mut c = base();
    c.no_auth = true;
    let back = Config::parse_and_validate(c).unwrap();
    assert_eq!(back.listen, "0.0.0.0:3000");
    assert!(Config::parse_and_validate(base()).is_err());
}

#[test]
fn config_error_messages_name_the_flag() {
    assert!(ConfigError::MissingIssuer.message().starts_with("--oidc-issuer"));
    assert!(ConfigError::MissingAudience.message().starts_with("--oidc-audience"));
}

#[test]
fn oauth_metadata_url_trims_every_trailing_slash() {
    assert_eq!(
        oauth_metadata_url(Some("https://h//")),
        "https://h/.well-known/oauth-protected-resource"
    );
}

#[test]
fn empty_group_entries_are_kept_trimmed() {
    let mut c = base();
    c.auth_groups_admin = "a,,b".into();
    assert_eq!(c.admin_groups(), vec!["a", "", "b"]);
}
