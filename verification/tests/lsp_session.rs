use vanyline_sandbox::lsp::messages::MessageId;
use vanyline_sandbox::lsp::session::{
    is_known_aux_role, session_install, session_lookup, ClientId, OutgoingAction, SessionBook, SessionInstall,
    SessionLookup,
};

#[test]
fn next_doc_version_increments_per_uri() {
    let mut book = SessionBook::new();
    assert_eq!(book.next_doc_version("file:///a.rs"), 2);
    assert_eq!(book.next_doc_version("file:///a.rs"), 3);
    assert_eq!(book.next_doc_version("file:///a.rs"), 4);
    assert_eq!(book.next_doc_version("file:///b.rs"), 2);
    assert_eq!(book.doc_version("file:///a.rs"), 4);
    assert_eq!(book.doc_version("file:///never.rs"), 1);
}

#[test]
fn editor_uri_tracking_open_close_unsubscribe() {
    let mut book = SessionBook::new();
    let c1 = book.subscribe();
    let c2 = book.subscribe();
    let uri = "file:///workspace/a.rs";

    assert!(!book.has_editor_client(uri), "no editor client before any mark_open");

    book.mark_editor_uri_open(uri, c1);
    assert!(book.has_editor_client(uri), "c1 holds the uri");
    book.mark_editor_uri_open(uri, c2);
    assert!(book.has_editor_client(uri), "two holders");

    book.unsubscribe(c1);
    assert!(book.has_editor_client(uri), "uri still held by c2 after c1 unsubscribes");
    book.unsubscribe(c2);
    assert!(!book.has_editor_client(uri), "no holder left after c2 unsubscribes");

    let c3 = book.subscribe();
    let c4 = book.subscribe();
    let uri2 = "file:///workspace/b.rs";
    book.mark_editor_uri_open(uri2, c3);
    book.mark_editor_uri_open(uri2, c4);
    book.mark_editor_uri_close(uri2, c3);
    assert!(book.has_editor_client(uri2), "c4 unaffected by c3's mark_close");
    book.mark_editor_uri_close(uri2, c4);
    assert!(!book.has_editor_client(uri2), "last holder closed → false");
}

#[test]
fn unsubscribe_cleans_all_editor_uris() {
    let mut book = SessionBook::new();
    let c1 = book.subscribe();
    let uris = [
        "file:///workspace/x1.rs",
        "file:///workspace/x2.rs",
        "file:///workspace/x3.rs",
    ];
    for uri in uris {
        book.mark_editor_uri_open(uri, c1);
        assert!(book.has_editor_client(uri), "{uri} held by c1");
    }
    book.unsubscribe(c1);
    for uri in uris {
        assert!(!book.has_editor_client(uri), "{uri} must be released");
    }
}

#[test]
fn session_routes_same_id_to_each_client() {
    let mut book = SessionBook::new();
    let a = book.subscribe();
    let b = book.subscribe();
    let sa = book.register_request(a, 1);
    let sb = book.register_request(b, 1);
    assert_ne!(sa, sb, "each request gets its own session id");
    assert_eq!(book.route_response(sb as i64), Some((b, 1)));
    assert_eq!(book.route_response(sa as i64), Some((a, 1)));
}

// ── further cases ───────────────────────────────────────────────────────────

#[test]
fn a_response_reaches_its_requester_once() {
    let mut book = SessionBook::new();
    let a = book.subscribe();
    let sid = book.register_request(a, 42);
    assert_eq!(book.route_response(sid as i64), Some((a, 42)));
    assert_eq!(book.route_response(sid as i64), None);
}

#[test]
fn unsubscribe_drops_only_that_clients_requests() {
    let mut book = SessionBook::new();
    let a = book.subscribe();
    let b = book.subscribe();
    let sa = book.register_request(a, 7);
    let sb = book.register_request(b, 8);
    book.unsubscribe(a);
    assert!(!book.is_subscribed(a));
    assert!(book.is_subscribed(b));
    assert_eq!(book.route_response(sa as i64), None);
    assert_eq!(book.route_response(sb as i64), Some((b, 8)));
}

#[test]
fn subscribers_get_fresh_ids() {
    let mut book = SessionBook::new();
    let a = book.subscribe();
    let b = book.subscribe();
    assert_ne!(a, b);
    assert_eq!(a, ClientId(1));
    assert_eq!(b, ClientId(2));
}

#[test]
fn initialize_is_granted_once() {
    let mut book = SessionBook::new();
    assert!(!book.is_initialized());
    assert!(book.try_mark_initialized());
    assert!(book.is_initialized());
    assert!(!book.try_mark_initialized());
}

#[test]
fn uri_is_opened_once() {
    let mut book = SessionBook::new();
    assert!(book.try_mark_uri_open("file:///a.rs"));
    assert!(book.try_mark_uri_open("file:///b.rs"));
    assert!(!book.try_mark_uri_open("file:///a.rs"));
}

#[test]
fn unknown_response_id_routes_nowhere() {
    let mut book = SessionBook::new();
    assert_eq!(book.route_response(99), None);
    assert_eq!(book.route_response(-1), None);
}

#[test]
fn aux_roles() {
    assert!(is_known_aux_role("tsserver-forward"));
    assert!(!is_known_aux_role("other"));
}

#[test]
fn outgoing_request_gets_a_session_id_and_its_reply_goes_back() {
    let mut book = SessionBook::new();
    let c = book.subscribe();
    let a = book.outgoing(c, MessageId::Integer(42), true).unwrap();
    let OutgoingAction::Request { session_id, fan_out_initialize } = a else { panic!("request expected") };
    assert!(fan_out_initialize);
    assert_eq!(book.route_response(session_id as i64), Some((c, 42)));
    let b = book.outgoing(c, MessageId::Integer(7), false).unwrap();
    assert!(matches!(b, OutgoingAction::Request { fan_out_initialize: false, .. }));
}

#[test]
fn outgoing_notification_and_bad_id() {
    let mut book = SessionBook::new();
    let c = book.subscribe();
    assert_eq!(book.outgoing(c, MessageId::Absent, false), Ok(OutgoingAction::Notification));
    assert_eq!(
        book.outgoing(c, MessageId::Other, false),
        Err("VNL-SBX-LSP-002: JSON-RPC id must be an integer, got non-integer".to_string())
    );
}

#[test]
fn send_refuses_invalid_json_and_non_integer_ids() {
    let mut book = SessionBook::new();
    let c = book.subscribe();
    assert_eq!(
        book.outgoing_payload(c, b"{not json", false),
        Err("VNL-SBX-LSP-001: invalid JSON payload".to_string())
    );
    assert_eq!(
        book.outgoing_payload(c, br#"{"id":"str","method":"m"}"#, false),
        Err("VNL-SBX-LSP-002: JSON-RPC id must be an integer, got non-integer".to_string())
    );
    assert_eq!(book.outgoing_payload(c, br#"{"method":"n"}"#, false), Ok(OutgoingAction::Notification));
    let OutgoingAction::Request { session_id, .. } = book.outgoing_payload(c, br#"{"id":5,"method":"m"}"#, false).unwrap() else {
        panic!("request expected")
    };
    assert_eq!(book.route_response(session_id as i64), Some((c, 5)));
}

#[test]
fn session_lookup_reuses_only_a_live_session() {
    assert_eq!(session_lookup(false, Some(true)), SessionLookup::NotConfigured);
    assert_eq!(session_lookup(true, Some(true)), SessionLookup::Reuse);
    assert_eq!(session_lookup(true, Some(false)), SessionLookup::Spawn);
    assert_eq!(session_lookup(true, None), SessionLookup::Spawn);
}

#[test]
fn session_install_keeps_a_live_session_of_another_task() {
    assert_eq!(session_install(Some((true, false))), SessionInstall::KeepExisting);
    assert_eq!(session_install(Some((true, true))), SessionInstall::InstallFresh);
    assert_eq!(session_install(Some((false, false))), SessionInstall::InstallFresh);
    assert_eq!(session_install(None), SessionInstall::InstallFresh);
}
