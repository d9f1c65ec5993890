use vanyline_sandbox::tools::confine::{confine_candidate, confine_resolve, SandboxError};
use vanyline_sandbox::tools::locations::{display_path, file_uri_path, relative_display, render_location_text};

// The filesystem half of confinement (canonicalising the root and the deepest
// existing ancestor) is done by the caller; these cases hand its results to
// the library as a sandbox root `/srv/ws` whose only existing entry is `sub/`.

const ROOT: &str = "/srv/ws";

#[test]
fn ancestor_resolution_failure_is_distinct_from_invalid_root() {
    let ancestor = SandboxError::AncestorResolutionFailed {
        ancestor: "/srv/ws/sub".into(),
        message: "permission denied".into(),
    };
    let root = SandboxError::InvalidRoot("/srv/ws".into());
    assert_ne!(ancestor, root);
    assert!(ancestor.message().starts_with("VNL-SBX-003"));
    assert!(root.message().starts_with("VNL-SBX-002"));
}

#[test]
fn relative_path_within_root() {
    assert_eq!(confine_candidate(ROOT, "sub/file.txt"), Some("/srv/ws/sub/file.txt".to_string()));
    assert_eq!(
        confine_resolve("sub/file.txt", ROOT, "/srv/ws/sub", "file.txt").unwrap(),
        "/srv/ws/sub/file.txt"
    );
}

#[test]
fn empty_path_resolves_to_root() {
    assert_eq!(confine_candidate(ROOT, ""), None);
    assert_eq!(confine_candidate(ROOT, "///"), None);
}

#[test]
fn trailing_slash_ignored() {
    assert_eq!(confine_candidate(ROOT, "sub/"), Some("/srv/ws/sub".to_string()));
}

#[test]
fn absolute_path_outside_root_rejected() {
    assert_eq!(confine_candidate(ROOT, "/etc/passwd"), Some("/etc/passwd".to_string()));
    match confine_resolve("/etc/passwd", ROOT, "/etc/passwd", "") {
        Err(SandboxError::PathEscape { path, root }) => {
            assert_eq!(path, "/etc/passwd");
            assert_eq!(root, ROOT);
        }
        other => panic!("expected PathEscape, got {other:?}"),
    }
}

#[test]
fn dot_dot_escape_rejected() {
    let r = confine_resolve("../../etc/passwd", ROOT, ROOT, "../../etc/passwd");
    assert!(matches!(r, Err(SandboxError::PathEscape { .. })));
}

#[test]
fn dotdot_via_nonexistent_intermediate_rejected() {
    let user = "sub/newdir/../../../etc/evilfile";
    match confine_resolve(user, ROOT, "/srv/ws/sub", "newdir/../../../etc/evilfile") {
        Err(SandboxError::PathEscape { path, .. }) => assert_eq!(path, user),
        other => panic!("expected PathEscape, got {other:?}"),
    }
}

#[test]
fn single_token_dotdot_bypass_rejected() {
    let user = "bogus/../../.ssh/authorized_keys";
    match confine_resolve(user, "/home/o/workspace", "/home/o/workspace", user) {
        Err(SandboxError::PathEscape { path, .. }) => assert_eq!(path, user),
        other => panic!("expected PathEscape, got {other:?}"),
    }
}

#[test]
fn avoids_redundant_canonicalize_when_ancestor_is_root() {
    assert_eq!(
        confine_resolve("brand/new/path.txt", ROOT, ROOT, "brand/new/path.txt").unwrap(),
        "/srv/ws/brand/new/path.txt"
    );
}

#[test]
fn dotdot_simple_escape_still_blocked() {
    match confine_resolve("../../etc/hosts", ROOT, ROOT, "../../etc/hosts") {
        Err(SandboxError::PathEscape { path, .. }) => assert_eq!(path, "../../etc/hosts"),
        other => panic!("expected PathEscape, got {other:?}"),
    }
}

#[test]
fn dotdot_that_comes_back_inside_is_accepted() {
    assert_eq!(
        confine_resolve("sub/new/../x", ROOT, "/srv/ws/sub", "new/../x").unwrap(),
        "/srv/ws/sub/x"
    );
    assert_eq!(confine_resolve("", ROOT, ROOT, "").unwrap(), "/srv/ws");
}

#[test]
fn sibling_with_common_prefix_is_outside() {
    let r = confine_resolve("/srv/ws2/x", ROOT, "/srv/ws2/x", "");
    assert!(matches!(r, Err(SandboxError::PathEscape { .. })));
}

#[test]
fn sandbox_error_messages() {
    let e = SandboxError::PathEscape { path: "../x".into(), root: "/r".into() };
    assert_eq!(e.message(), "VNL-SBX-001: path escapes sandbox root: ../x (resolved outside /r)");
    assert_eq!(SandboxError::InvalidRoot("/nope".into()).message(), "VNL-SBX-002: invalid sandbox root: /nope");
}

// ── locations ───────────────────────────────────────────────────────────────

#[test]
fn display_path_for_uri_relative_outside_and_foreign() {
    assert_eq!(
        display_path("file:///srv/ws/sub/file.txt", ROOT, Some("/srv/ws/sub/file.txt".into())),
        "sub/file.txt"
    );
    assert_eq!(display_path("file:///etc/passwd", ROOT, None), "file:///etc/passwd");
    assert_eq!(display_path("http://x", ROOT, None), "http://x");
}

#[test]
fn file_uris_and_relative_displays() {
    assert_eq!(file_uri_path("file:///a/b"), Some("/a/b".to_string()));
    assert_eq!(file_uri_path("http://a/b"), None);
    assert_eq!(relative_display("/srv/ws/src/main.rs", ROOT), "src/main.rs");
    assert_eq!(relative_display("/elsewhere/x", ROOT), "/elsewhere/x");
}

#[test]
fn location_lines() {
    assert_eq!(
        render_location_text("file:///srv/ws/main.rs", "main.rs", true, Some(0), Some("fn main() {}".into())),
        "main.rs:1: fn main() {}"
    );
    assert_eq!(render_location_text("file:///srv/ws/main.rs", "main.rs", true, Some(4), None), "main.rs:5");
    assert_eq!(render_location_text("file:///ext/lib.rs", "file:///ext/lib.rs", false, Some(10), None), "file:///ext/lib.rs:11");
    assert_eq!(render_location_text("file:///ext/lib.rs", "x", false, None, None), "file:///ext/lib.rs");
}
