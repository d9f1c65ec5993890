//! JSON-RPC bookkeeping of the LSP clients: which messages a client may send
//! through a session, and what a client makes of each message it receives
//! while it waits for the reply to one of its requests.

use vstd::prelude::*;
use vstd::string::StringExecFns;

verus! {

/// The `id` member of a JSON-RPC message, as far as routing reads it.
#[derive(Debug, Clone, Copy, PartialEq, Eq, Structural)]
pub enum MessageId {
    /// No `id` member: a notification.
    Absent,
    /// An `id` that is a 64-bit signed integer.
    Integer(i64),
    /// Any other `id` (a string, a float, `null`, a number out of range).
    Other,
}

/// The refusal of a message whose id is not an integer.
pub open spec fn non_integer_id_msg() -> Seq<char> {
    "VNL-SBX-LSP-002: JSON-RPC id must be an integer, got non-integer"@
}

/// What `serde_json::from_slice` makes of a payload, as routing reads it:
/// `None` when it is not JSON, else its `id` member (absent, a 64-bit
/// signed integer, or anything else). A function of the bytes alone.
pub uninterp spec fn json_payload_id(payload: Seq<u8>) -> Option<MessageId>;

/// Parses a payload with `serde_json::from_slice` into a `serde_json::Value`
/// and reads its `id` member (`Value::get`, `Value::as_i64`). Its result is
/// named `json_payload_id`.
#[verifier::external_body]
fn parse_payload_id(payload: &[u8]) -> (r: Option<MessageId>)
    ensures
        r == json_payload_id(payload@),
{
    let v: serde_json::Value = serde_json::from_slice(payload).ok()?;
    Some(
        match v.get("id") {
            None => MessageId::Absent,
            Some(x) => match x.as_i64() {
                Some(n) => MessageId::Integer(n),
                None => MessageId::Other,
            },
        },
    )
}

/// The refusal of a payload that is not JSON.
pub open spec fn invalid_json_msg() -> Seq<char> {
    "VNL-SBX-LSP-001: invalid JSON payload"@
}

/// The id of a parsed payload, or the refusal of one that is not JSON.
pub fn payload_id_outcome(parsed: Option<MessageId>) -> (r: Result<MessageId, String>)
    ensures
        match parsed {
            Some(id) => r == Ok::<MessageId, String>(id),
            None => r matches Err(e) && e@ == invalid_json_msg(),
        },
{
    match parsed {
        Some(id) => Ok(id),
        None => Err("VNL-SBX-LSP-001: invalid JSON payload".to_owned()),
    }
}

/// The id of the message a client sends, as routing reads it; a payload
/// that is not JSON is refused.
pub fn payload_id(payload: &[u8]) -> (r: Result<MessageId, String>)
    ensures
        match json_payload_id(payload@) {
            Some(id) => r == Ok::<MessageId, String>(id),
            None => r matches Err(e) && e@ == invalid_json_msg(),
        },
{
    payload_id_outcome(parse_payload_id(payload))
}

/// What a session does with a message a client sends: a request (its
/// original id, which the session replaces by its own), a notification
/// (`None`), or a refusal when the id is not an integer.
pub fn classify_outgoing(id: MessageId) -> (r: Result<Option<i64>, String>)
    ensures
        match id {
            MessageId::Absent => r == Ok::<Option<i64>, String>(None),
            MessageId::Integer(n) => r == Ok::<Option<i64>, String>(Some(n)),
            MessageId::Other => r matches Err(e) && e@ == non_integer_id_msg(),
        },
{
    match id {
        MessageId::Absent => Ok(None),
        MessageId::Integer(n) => Ok(Some(n)),
        MessageId::Other => Err(
            "VNL-SBX-LSP-002: JSON-RPC id must be an integer, got non-integer".to_owned(),
        ),
    }
}

/// What a waiting client makes of a received message.
#[derive(Debug, Clone, PartialEq, Eq)]
pub enum ReplyOutcome {
    /// Not the awaited reply (a notification, another id): keep waiting.
    Skip,
    /// The awaited reply carries the result.
    Result,
    /// The awaited reply is a failure, with its message.
    Failed(String),
}

/// The failure of a reply with neither a result nor (where it counts) an
/// error.
pub open spec fn empty_reply_msg() -> Seq<char> {
    "VNL-SBX-LSP-005: LSP response has neither 'result' nor 'error'"@
}

/// The failure of a reply carrying an error member (its JSON text).
pub open spec fn server_error_msg(error: Seq<char>) -> Seq<char> {
    "VNL-SBX-LSP-005: LSP server error: "@ + error
}

/// The outcome of a received message for a client awaiting the reply with
/// id `awaited`: only a message with that integer id is the reply. An error
/// member makes it a failure, except for the reply to `initialize`, where
/// only the result is read; a reply without a result is a failure.
pub open spec fn reply_outcome_spec(
    id: MessageId,
    awaited: i64,
    error: Option<Seq<char>>,
    has_result: bool,
    initialize: bool,
) -> (bool, bool, Seq<char>) {
    match id {
        MessageId::Integer(n) => if n != awaited {
            (false, false, Seq::empty())
        } else if !initialize && error is Some {
            (true, false, server_error_msg(error->Some_0))
        } else if has_result {
            (true, true, Seq::empty())
        } else {
            (true, false, empty_reply_msg())
        },
        _ => (false, false, Seq::empty()),
    }
}

/// The view of an outcome: (is the reply, carries the result, failure text).
pub open spec fn reply_outcome_view(o: ReplyOutcome) -> (bool, bool, Seq<char>) {
    match o {
        ReplyOutcome::Skip => (false, false, Seq::empty()),
        ReplyOutcome::Result => (true, true, Seq::empty()),
        ReplyOutcome::Failed(m) => (true, false, m@),
    }
}

/// Classifies a message received while awaiting the reply `awaited`:
/// `error` is the JSON text of its `error` member when it has one,
/// `has_result` whether it has a `result` member, `initialize` whether the
/// awaited request is `initialize`.
pub fn classify_reply(
    id: MessageId,
    awaited: i64,
    error: Option<&str>,
    has_result: bool,
    initialize: bool,
) -> (r: ReplyOutcome)
    ensures
        reply_outcome_view(r) == reply_outcome_spec(
            id,
            awaited,
            match error {
                Some(e) => Some(e@),
                None => None,
            },
            has_result,
            initialize,
        ),
{
    match id {
        MessageId::Integer(n) => {
            if n != awaited {
                return ReplyOutcome::Skip;
            }
            if !initialize {
                match error {
                    Some(e) => {
                        let mut m = "VNL-SBX-LSP-005: LSP server error: ".to_owned();
                        m.append(e);
                        return ReplyOutcome::Failed(m);
                    },
                    None => {},
                }
            }
            if has_result {
                ReplyOutcome::Result
            } else {
                ReplyOutcome::Failed(
                    "VNL-SBX-LSP-005: LSP response has neither 'result' nor 'error'".to_owned(),
                )
            }
        },
        _ => ReplyOutcome::Skip,
    }
}

/// What a message from the language server is.
#[derive(Debug, Clone, Copy, PartialEq, Eq, Structural)]
pub enum Incoming {
    /// A reply, to be routed back by its integer id.
    Response(i64),
    /// A `tsserver/request` notification, to be forwarded to an auxiliary
    /// server.
    TsserverRequest,
    /// Any other message: relayed to every subscriber.
    Notification,
}

/// Classifies a message from the primary server by its id and whether its
/// method is `tsserver/request`: an integer id makes it a reply, whatever
/// its method.
pub fn classify_incoming(id: MessageId, is_tsserver_request: bool) -> (r: Incoming)
    ensures
        match id {
            MessageId::Integer(n) => r == Incoming::Response(n),
            _ => r == (if is_tsserver_request {
                Incoming::TsserverRequest
            } else {
                Incoming::Notification
            }),
        },
{
    match id {
        MessageId::Integer(n) => Incoming::Response(n),
        _ => if is_tsserver_request {
            Incoming::TsserverRequest
        } else {
            Incoming::Notification
        },
    }
}

/// What a message from an auxiliary server is.
#[derive(Debug, Clone, Copy, PartialEq, Eq, Structural)]
pub enum AuxIncoming {
    /// A reply to the internal request with this id.
    Reply(u64),
    /// A reply whose id no internal request can have (negative).
    UnknownReply,
    /// Any other message: relayed to every subscriber.
    Notification,
}

/// Classifies a message from an auxiliary server by its id.
pub fn classify_aux_incoming(id: MessageId) -> (r: AuxIncoming)
    ensures
        match id {
            MessageId::Integer(n) => r == (if n >= 0 {
                AuxIncoming::Reply(n as u64)
            } else {
                AuxIncoming::UnknownReply
            }),
            _ => r == AuxIncoming::Notification,
        },
{
    match id {
        MessageId::Integer(n) => if n >= 0 {
            AuxIncoming::Reply(n as u64)
        } else {
            AuxIncoming::UnknownReply
        },
        _ => AuxIncoming::Notification,
    }
}

} // verus!
