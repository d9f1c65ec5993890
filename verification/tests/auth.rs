use std::sync::Arc;
use vanyline_sandbox::auth::{
    auth_error_response, authenticate_request, bearer_token, validation_failure_reason, AccessLevel,
    AuthError, AuthInfo, AuthState, AuthStep, Claims,
};
use vanyline_sandbox::config::Config;

fn config(admin: &str, read: &str) -> Config {
    Config {
        listen: "0.0.0.0:3000".into(),
        tls_cert: None,
        tls_key: None,
        oidc_issuer: None,
        oidc_audience: None,
        auth_groups_admin: admin.into(),
        auth_groups_read: read.into(),
        no_auth: false,
        static_token: None,
        public_url: None,
        oidc_ca_cert: None,
        metrics_listen: "0.0.0.0:9090".into(),
        otel_endpoint: None,
        sandbox_root: "/workspace".into(),
    }
}

fn make_auth(admin: &str, read: &str) -> AuthState {
    AuthState::new(Arc::new(config(admin, read)))
}

fn claims(groups: &[&str]) -> Claims {
    Claims {
        sub: "user@example.com".into(),
        groups: Some(groups.iter().map(|s| s.to_string()).collect()),
    }
}

#[test]
fn admin_group_grants_admin_access() {
    let auth = make_auth("kubernetes-admin", "kubernetes-view");
    assert_eq!(auth.check_access(&claims(&["kubernetes-admin"])).unwrap(), AccessLevel::Admin);
}

#[test]
fn read_group_grants_read_access() {
    let auth = make_auth("kubernetes-admin", "kubernetes-view");
    assert_eq!(auth.check_access(&claims(&["kubernetes-view"])).unwrap(), AccessLevel::Read);
}

#[test]
fn admin_takes_precedence_over_read() {
    let auth = make_auth("kubernetes-admin", "kubernetes-view");
    assert_eq!(
        auth.check_access(&claims(&["kubernetes-admin", "kubernetes-view"])).unwrap(),
        AccessLevel::Admin
    );
}

#[test]
fn unknown_group_is_denied() {
    let auth = make_auth("kubernetes-admin", "kubernetes-view");
    assert!(matches!(
        auth.check_access(&claims(&["some-other-group"])),
        Err(AuthError::InsufficientPermissions)
    ));
}

#[test]
fn no_groups_claim_is_denied() {
    let auth = make_auth("kubernetes-admin", "kubernetes-view");
    let c = Claims { sub: "user".into(), groups: None };
    assert!(matches!(auth.check_access(&c), Err(AuthError::InsufficientPermissions)));
}

#[test]
fn missing_token_returns_401_with_www_authenticate() {
    let resp = auth_error_response(AuthError::MissingToken, None);
    assert_eq!(resp.status, 401);
    assert!(resp.www_authenticate.is_some());
}

#[test]
fn invalid_token_returns_401_with_www_authenticate() {
    let resp = auth_error_response(AuthError::InvalidToken, None);
    assert_eq!(resp.status, 401);
    assert!(resp.www_authenticate.is_some());
}

#[test]
fn insufficient_permissions_returns_403_without_www_authenticate() {
    let resp = auth_error_response(AuthError::InsufficientPermissions, None);
    assert_eq!(resp.status, 403);
    assert!(resp.www_authenticate.is_none());
}

#[test]
fn multi_group_config_all_read_groups_accepted() {
    let auth = make_auth("kubernetes-admin", "kubernetes-view,kubernetes-edit");
    assert_eq!(auth.check_access(&claims(&["kubernetes-edit"])).unwrap(), AccessLevel::Read);
    assert_eq!(auth.check_access(&claims(&["kubernetes-view"])).unwrap(), AccessLevel::Read);
}

#[test]
fn www_authenticate_uses_absolute_resource_metadata_uri() {
    let resp = auth_error_response(AuthError::InvalidToken, Some("https://mcp.example.com"));
    assert_eq!(
        resp.www_authenticate.unwrap(),
        r#"Bearer error="invalid_token", resource_metadata="https://mcp.example.com/.well-known/oauth-protected-resource""#
    );
}

#[test]
fn www_authenticate_defaults_to_localhost_absolute_uri() {
    let resp = auth_error_response(AuthError::MissingToken, None);
    assert!(resp
        .www_authenticate
        .unwrap()
        .contains("resource_metadata=\"http://localhost:3000/.well-known/oauth-protected-resource\""));
}

// ── further cases ───────────────────────────────────────────────────────────

#[test]
fn error_bodies() {
    let resp = auth_error_response(AuthError::InsufficientPermissions, None);
    assert_eq!(resp.error, "insufficient_scope");
    assert_eq!(resp.error_description, "insufficient permissions — check group membership in Authentik");
    let resp = auth_error_response(AuthError::KeyNotFound, None);
    assert_eq!(resp.error, "invalid_token");
    assert_eq!(resp.error_description, "signing key not found in JWKS");
}

#[test]
fn bearer_header_parsing() {
    assert_eq!(bearer_token(Some("Bearer abc")), Some("abc".to_string()));
    assert_eq!(bearer_token(Some("bearer abc")), None);
    assert_eq!(bearer_token(Some("Basic abc")), None);
    assert_eq!(bearer_token(None), None);
}

#[test]
fn authentication_steps() {
    let mut c = config("a", "r");
    c.no_auth = true;
    assert_eq!(
        authenticate_request(&c, None),
        AuthStep::Granted(AuthInfo { subject: "dev-no-auth".into(), access: AccessLevel::Admin })
    );
    let mut c = config("a", "r");
    c.static_token = Some("demo-token".into());
    assert_eq!(authenticate_request(&c, None), AuthStep::Refused(AuthError::MissingToken));
    assert_eq!(
        authenticate_request(&c, Some("Bearer demo-token")),
        AuthStep::Granted(AuthInfo { subject: "static-token".into(), access: AccessLevel::Admin })
    );
    assert_eq!(authenticate_request(&c, Some("Bearer other")), AuthStep::Refused(AuthError::InvalidToken));
    let c = config("a", "r");
    assert_eq!(authenticate_request(&c, Some("Bearer jwt")), AuthStep::ValidateToken("jwt".into()));
}

#[test]
fn finish_authentication_applies_the_group_policy() {
    let auth = make_auth("admins", "readers");
    assert_eq!(
        auth.finish_authentication(Ok(claims(&["readers"]))),
        Ok(AuthInfo { subject: "user@example.com".into(), access: AccessLevel::Read })
    );
    assert_eq!(auth.finish_authentication(Err(AuthError::InvalidToken)), Err(AuthError::InvalidToken));
    assert_eq!(
        auth.finish_authentication(Ok(claims(&["nobody"]))),
        Err(AuthError::InsufficientPermissions)
    );
}

#[test]
fn failure_reasons() {
    assert_eq!(validation_failure_reason(AuthError::JwksFetchFailed), "jwks_fetch_failed");
    assert_eq!(validation_failure_reason(AuthError::MissingToken), "unknown");
}
