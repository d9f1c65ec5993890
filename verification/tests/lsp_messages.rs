use vanyline_sandbox::lsp::messages::{
    classify_aux_incoming, classify_incoming, classify_outgoing, classify_reply, payload_id, AuxIncoming,
    Incoming, MessageId, ReplyOutcome,
};

#[test]
fn outgoing_request_keeps_its_integer_id() {
    assert_eq!(classify_outgoing(MessageId::Integer(7)), Ok(Some(7)));
    assert_eq!(classify_outgoing(MessageId::Integer(-3)), Ok(Some(-3)));
}

#[test]
fn outgoing_notification_has_no_id() {
    assert_eq!(classify_outgoing(MessageId::Absent), Ok(None));
}

#[test]
fn outgoing_non_integer_id_is_refused() {
    let err = classify_outgoing(MessageId::Other).unwrap_err();
    assert_eq!(err, "VNL-SBX-LSP-002: JSON-RPC id must be an integer, got non-integer");
}

#[test]
fn reply_with_other_id_is_skipped() {
    assert_eq!(classify_reply(MessageId::Integer(2), 1, None, true, false), ReplyOutcome::Skip);
    assert_eq!(classify_reply(MessageId::Absent, 1, None, true, false), ReplyOutcome::Skip);
    assert_eq!(classify_reply(MessageId::Other, 1, None, true, false), ReplyOutcome::Skip);
}

#[test]
fn reply_with_result_is_taken() {
    assert_eq!(classify_reply(MessageId::Integer(1), 1, None, true, false), ReplyOutcome::Result);
}

#[test]
fn reply_with_error_fails_with_its_text() {
    assert_eq!(
        classify_reply(MessageId::Integer(1), 1, Some("{\"code\":-32601}"), true, false),
        ReplyOutcome::Failed("VNL-SBX-LSP-005: LSP server error: {\"code\":-32601}".to_string())
    );
}

#[test]
fn initialize_reply_reads_only_its_result() {
    assert_eq!(
        classify_reply(MessageId::Integer(1), 1, Some("{\"code\":1}"), true, true),
        ReplyOutcome::Result
    );
}

#[test]
fn reply_without_result_nor_error_fails() {
    assert_eq!(
        classify_reply(MessageId::Integer(1), 1, None, false, false),
        ReplyOutcome::Failed("VNL-SBX-LSP-005: LSP response has neither 'result' nor 'error'".to_string())
    );
}

#[test]
fn payload_id_reads_the_json_id() {
    assert_eq!(payload_id(br#"{"jsonrpc":"2.0","id":7,"method":"x"}"#), Ok(MessageId::Integer(7)));
    assert_eq!(payload_id(br#"{"jsonrpc":"2.0","method":"x"}"#), Ok(MessageId::Absent));
    assert_eq!(payload_id(br#"{"id":"str"}"#), Ok(MessageId::Other));
    assert_eq!(payload_id(br#"{"id":1.5}"#), Ok(MessageId::Other));
    assert_eq!(payload_id(b"not json"), Err("VNL-SBX-LSP-001: invalid JSON payload".to_string()));
}

#[test]
fn incoming_classification() {
    assert_eq!(classify_incoming(MessageId::Integer(3), true), Incoming::Response(3));
    assert_eq!(classify_incoming(MessageId::Absent, true), Incoming::TsserverRequest);
    assert_eq!(classify_incoming(MessageId::Other, false), Incoming::Notification);
    assert_eq!(classify_aux_incoming(MessageId::Integer(4)), AuxIncoming::Reply(4));
    assert_eq!(classify_aux_incoming(MessageId::Integer(-1)), AuxIncoming::UnknownReply);
    assert_eq!(classify_aux_incoming(MessageId::Absent), AuxIncoming::Notification);
}
