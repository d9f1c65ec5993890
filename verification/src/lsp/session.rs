//! The bookkeeping of an LSP session shared by several clients: subscribed
//! clients, requests waiting for their response (with the client and the
//! original JSON-RPC id to restore), the one-time `initialize`, the URIs
//! already opened, the document versions sent by the tools, and the URIs
//! held by editor clients.
//!
//! The process, its pipes and the client channels live with the caller; the
//! decisions they need are taken here.

use vstd::prelude::*;
use crate::text::{chars_of, eq_chars};
use crate::lsp::messages::{classify_outgoing, invalid_json_msg, json_payload_id, non_integer_id_msg, payload_id, MessageId};

verus! {

/// Where a message a client sends goes.
#[derive(Debug, Clone, Copy, PartialEq, Eq)]
pub enum OutgoingAction {
    /// A request: sent to the process with `session_id` as its id; an
    /// `initialize` is also copied to the auxiliary servers.
    Request { session_id: u64, fan_out_initialize: bool },
    /// A notification: sent verbatim to the process and the live auxiliary
    /// servers.
    Notification,
}


/// Identifier of a client subscribed to an LSP session.
#[derive(Debug, Clone, Copy, PartialEq, Eq, Hash)]
pub struct ClientId(pub u64);

/// The abstract state of a session.
pub struct SessionView {
    /// Session request id -> (client, original request id).
    pub pending: Map<u64, (u64, i64)>,
    pub subscribers: Set<u64>,
    pub next_client: u64,
    pub next_req: u64,
    pub initialized: bool,
    pub open_uris: Set<Seq<char>>,
    pub doc_versions: Map<Seq<char>, i32>,
    /// (URI, client) pairs: the editor client holds the URI.
    pub editor_holds: Set<(Seq<char>, u64)>,
}

/// The session bookkeeping.
pub struct SessionBook {
    pending: Vec<(u64, u64, i64)>,
    subs: Vec<u64>,
    next_client: u64,
    next_req: u64,
    initialized: bool,
    open_uris: Vec<Vec<char>>,
    doc_versions: Vec<(Vec<char>, i32)>,
    editor: Vec<(Vec<char>, u64)>,
}

/// At most one value per session id.
pub open spec fn pending_functional(p: Seq<(u64, u64, i64)>) -> bool {
    forall|a: (u64, u64, i64), b: (u64, u64, i64)|
        #![trigger p.contains(a), p.contains(b)]
        p.contains(a) && p.contains(b) && a.0 == b.0 ==> a == b
}

/// The pending requests as a map.
pub open spec fn pending_map(p: Seq<(u64, u64, i64)>) -> Map<u64, (u64, i64)> {
    Map::new(
        |k: u64| exists|v: (u64, i64)| p.contains((k, v.0, v.1)),
        |k: u64| choose|v: (u64, i64)| p.contains((k, v.0, v.1)),
    )
}

/// The views of (characters, value) pairs.
pub open spec fn pair_views<V>(v: Seq<(Vec<char>, V)>) -> Seq<(Seq<char>, V)> {
    v.map_values(|e: (Vec<char>, V)| (e.0@, e.1))
}

/// At most one version per URI.
pub open spec fn versions_functional(v: Seq<(Seq<char>, i32)>) -> bool {
    forall|a: (Seq<char>, i32), b: (Seq<char>, i32)|
        #![trigger v.contains(a), v.contains(b)]
        v.contains(a) && v.contains(b) && a.0 == b.0 ==> a == b
}

/// The document versions as a map.
pub open spec fn versions_map(v: Seq<(Seq<char>, i32)>) -> Map<Seq<char>, i32> {
    Map::new(
        |k: Seq<char>| exists|n: i32| v.contains((k, n)),
        |k: Seq<char>| choose|n: i32| v.contains((k, n)),
    )
}

impl View for SessionBook {
    type V = SessionView;

    closed spec fn view(&self) -> SessionView {
        SessionView {
            pending: pending_map(self.pending@),
            subscribers: self.subs@.to_set(),
            next_client: self.next_client,
            next_req: self.next_req,
            initialized: self.initialized,
            open_uris: self.open_uris@.map_values(|s: Vec<char>| s@).to_set(),
            doc_versions: versions_map(pair_views(self.doc_versions@)),
            editor_holds: pair_views(self.editor@).to_set(),
        }
    }
}

// ── transitions ─────────────────────────────────────────────────────────────

/// `n + 1`, wrapping to 0 after the largest value (`AtomicU64::fetch_add`).
pub open spec fn wrap_inc(n: u64) -> u64 {
    if n == u64::MAX {
        0
    } else {
        (n + 1) as u64
    }
}

/// The state of a new session: nothing yet, ids counted from 1.
pub open spec fn initial_session() -> SessionView {
    SessionView {
        pending: Map::empty(),
        subscribers: Set::empty(),
        next_client: 1,
        next_req: 1,
        initialized: false,
        open_uris: Set::empty(),
        doc_versions: Map::empty(),
        editor_holds: Set::empty(),
    }
}

/// A new client gets the next client id.
pub open spec fn subscribe_spec(v: SessionView) -> (SessionView, u64) {
    (
        SessionView {
            subscribers: v.subscribers.insert(v.next_client),
            next_client: wrap_inc(v.next_client),
            ..v
        },
        v.next_client,
    )
}

/// A client leaves: it is no longer subscribed, its pending requests are
/// dropped and it no longer holds any URI.
pub open spec fn unsubscribe_spec(v: SessionView, c: u64) -> SessionView {
    SessionView {
        subscribers: v.subscribers.remove(c),
        pending: v.pending.restrict(v.pending.dom().filter(|sid: u64| v.pending[sid].0 != c)),
        editor_holds: v.editor_holds.filter(|h: (Seq<char>, u64)| h.1 != c),
        ..v
    }
}

/// A request of client `c` with id `orig` gets the next session id, under
/// which it waits for its response.
pub open spec fn register_spec(v: SessionView, c: u64, orig: i64) -> (SessionView, u64) {
    (
        SessionView {
            pending: v.pending.insert(v.next_req, (c, orig)),
            next_req: wrap_inc(v.next_req),
            ..v
        },
        v.next_req,
    )
}

/// A response with id `id` from the process: the waiting request with that
/// session id (the id read as unsigned), if any, is taken out and its client
/// and original id returned.
pub open spec fn route_spec(v: SessionView, id: i64) -> (SessionView, Option<(u64, i64)>) {
    let sid = id as u64;
    if v.pending.dom().contains(sid) {
        (SessionView { pending: v.pending.remove(sid), ..v }, Some(v.pending[sid]))
    } else {
        (v, None)
    }
}

/// The first caller wins the right to send `initialize`.
pub open spec fn mark_initialized_spec(v: SessionView) -> (SessionView, bool) {
    (SessionView { initialized: true, ..v }, !v.initialized)
}

/// The first caller for a URI must send `didOpen`.
pub open spec fn mark_uri_open_spec(v: SessionView, u: Seq<char>) -> (SessionView, bool) {
    (SessionView { open_uris: v.open_uris.insert(u), ..v }, !v.open_uris.contains(u))
}

/// The current tool document version of a URI (1, the version of the
/// `didOpen`, when no change was sent yet).
pub open spec fn current_version(v: SessionView, u: Seq<char>) -> i32 {
    if v.doc_versions.dom().contains(u) {
        v.doc_versions[u]
    } else {
        1
    }
}

/// The next tool document version of a URI: one more than the current one.
pub open spec fn next_version_spec(v: SessionView, u: Seq<char>) -> (SessionView, i32) {
    let n = (current_version(v, u) + 1) as i32;
    (SessionView { doc_versions: v.doc_versions.insert(u, n), ..v }, n)
}

/// Some editor client holds the URI.
pub open spec fn held_by_editor(v: SessionView, u: Seq<char>) -> bool {
    exists|c: u64| v.editor_holds.contains((u, c))
}

// ── lemmas on the representation ────────────────────────────────────────────

/// The value of a pending entry present in a functional list.
proof fn lemma_pending_value(p: Seq<(u64, u64, i64)>, e: (u64, u64, i64))
    requires
        pending_functional(p),
        p.contains(e),
    ensures
        pending_map(p).dom().contains(e.0),
        pending_map(p)[e.0] == (e.1, e.2),
{
    let v = (e.1, e.2);
    assert(p.contains((e.0, v.0, v.1)));
    let w = choose|w: (u64, i64)| p.contains((e.0, w.0, w.1));
    assert(p.contains((e.0, w.0, w.1)));
}

/// The value of a version entry present in a functional list.
proof fn lemma_version_value(v: Seq<(Seq<char>, i32)>, e: (Seq<char>, i32))
    requires
        versions_functional(v),
        v.contains(e),
    ensures
        versions_map(v).dom().contains(e.0),
        versions_map(v)[e.0] == e.1,
{
    assert(v.contains((e.0, e.1)));
    let w = choose|w: i32| v.contains((e.0, w));
    assert(v.contains((e.0, w)));
}

/// `contains` on a pushed sequence.
proof fn lemma_contains_push<A>(s: Seq<A>, x: A, y: A)
    ensures
        s.push(x).contains(y) <==> (s.contains(y) || y == x),
{
    if s.push(x).contains(y) {
        let i = choose|i: int| 0 <= i < s.push(x).len() && s.push(x)[i] == y;
        if i < s.len() {
            assert(s[i] == y);
        }
    }
    if s.contains(y) {
        let i = choose|i: int| 0 <= i < s.len() && s[i] == y;
        assert(s.push(x)[i] == y);
    }
    if y == x {
        assert(s.push(x)[s.len() as int] == y);
    }
}

/// `contains` on a prefix one longer.
proof fn lemma_contains_take<A>(s: Seq<A>, i: int, y: A)
    requires
        0 <= i < s.len(),
    ensures
        s.take(i + 1).contains(y) <==> (s.take(i).contains(y) || y == s[i]),
{
    assert(s.take(i + 1) =~= s.take(i).push(s[i]));
    lemma_contains_push(s.take(i), s[i], y);
}

// ── executable ──────────────────────────────────────────────────────────────

impl SessionBook {
    /// The representation is consistent: one value per session id and per
    /// URI.
    pub closed spec fn wf(&self) -> bool {
        pending_functional(self.pending@) && versions_functional(pair_views(self.doc_versions@))
    }

    /// A new session: no client, no request, ids counted from 1.
    pub fn new() -> (b: SessionBook)
        ensures
            b.wf(),
            b@ == initial_session(),
    {
        let b = SessionBook {
            pending: Vec::new(),
            subs: Vec::new(),
            next_client: 1,
            next_req: 1,
            initialized: false,
            open_uris: Vec::new(),
            doc_versions: Vec::new(),
            editor: Vec::new(),
        };
        assert(b@.pending =~= Map::<u64, (u64, i64)>::empty());
        assert(b@.subscribers =~= Set::<u64>::empty());
        assert(b@.open_uris =~= Set::<Seq<char>>::empty());
        assert(b@.doc_versions =~= Map::<Seq<char>, i32>::empty());
        assert(b@.editor_holds =~= Set::<(Seq<char>, u64)>::empty());
        b
    }

    /// Subscribes a new client and returns its id.
    pub fn subscribe(&mut self) -> (c: ClientId)
        requires
            old(self).wf(),
        ensures
            final(self).wf(),
            (final(self)@, c.0) == subscribe_spec(old(self)@),
    {
        let id = self.next_client;
        let ghost s0 = self.subs@;
        self.subs.push(id);
        self.next_client = self.next_client.wrapping_add(1);
        proof {
            assert forall|x: u64| self.subs@.to_set().contains(x) <==> s0.to_set().insert(id).contains(x) by {
                lemma_contains_push(s0, id, x);
            }
            assert(self@.subscribers =~= s0.to_set().insert(id));
        }
        ClientId(id)
    }

    /// Whether the client is subscribed.
    pub fn is_subscribed(&self, c: ClientId) -> (b: bool)
        ensures
            b == self@.subscribers.contains(c.0),
    {
        let mut i: usize = 0;
        while i < self.subs.len()
            invariant
                i <= self.subs@.len(),
                forall|k: int| 0 <= k < i ==> self.subs@[k] != c.0,
            decreases self.subs.len() - i,
        {
            if self.subs[i] == c.0 {
                assert(self.subs@.contains(c.0));
                return true;
            }
            i = i + 1;
        }
        false
    }

    /// Unsubscribes a client: drops its pending requests and every URI it
    /// held as an editor.
    pub fn unsubscribe(&mut self, c: ClientId)
        requires
            old(self).wf(),
        ensures
            final(self).wf(),
            final(self)@ == unsubscribe_spec(old(self)@, c.0),
    {
        let ghost v0 = self@;
        let ghost p0 = self.pending@;
        let ghost e0 = pair_views(self.editor@);
        let ghost s0 = self.subs@;
        // subscribers
        let mut subs: Vec<u64> = Vec::new();
        let mut i: usize = 0;
        while i < self.subs.len()
            invariant
                i <= self.subs@.len(),
                self.subs@ == s0,
                forall|x: u64| subs@.contains(x) <==> (s0.take(i as int).contains(x) && x != c.0),
            decreases self.subs.len() - i,
        {
            let x = self.subs[i];
            let ghost before = subs@;
            if x != c.0 {
                subs.push(x);
            }
            proof {
                assert forall|y: u64| subs@.contains(y) <==> (s0.take(i + 1).contains(y) && y != c.0) by {
                    lemma_contains_take(s0, i as int, y);
                    if x != c.0 {
                        lemma_contains_push(before, x, y);
                    }
                }
            }
            i = i + 1;
        }
        assert(s0.take(s0.len() as int) =~= s0);
        // pending
        let mut pending: Vec<(u64, u64, i64)> = Vec::new();
        let mut j: usize = 0;
        while j < self.pending.len()
            invariant
                j <= self.pending@.len(),
                self.pending@ == p0,
                forall|e: (u64, u64, i64)| pending@.contains(e) <==> (p0.take(j as int).contains(e) && e.1 != c.0),
            decreases self.pending.len() - j,
        {
            let e = self.pending[j];
            let ghost before = pending@;
            if e.1 != c.0 {
                pending.push(e);
            }
            proof {
                assert forall|y: (u64, u64, i64)| pending@.contains(y) <==> (p0.take(j + 1).contains(y) && y.1 != c.0) by {
                    lemma_contains_take(p0, j as int, y);
                    if e.1 != c.0 {
                        lemma_contains_push(before, e, y);
                    }
                }
            }
            j = j + 1;
        }
        assert(p0.take(p0.len() as int) =~= p0);
        // editor holds
        let mut editor: Vec<(Vec<char>, u64)> = Vec::new();
        let mut k: usize = 0;
        while k < self.editor.len()
            invariant
                k <= self.editor@.len(),
                pair_views(self.editor@) == e0,
                forall|h: (Seq<char>, u64)| pair_views(editor@).contains(h) <==> (e0.take(k as int).contains(h) && h.1 != c.0),
            decreases self.editor.len() - k,
        {
            let ghost before = pair_views(editor@);
            let u = self.editor[k].0.clone();
            let cl = self.editor[k].1;
            assert(u@ == self.editor@[k as int].0@);
            assert(e0[k as int] == (u@, cl));
            if cl != c.0 {
                editor.push((u, cl));
                assert(pair_views(editor@) =~= before.push((u@, cl)));
            }
            proof {
                assert forall|h: (Seq<char>, u64)| pair_views(editor@).contains(h) <==> (e0.take(k + 1).contains(h) && h.1 != c.0) by {
                    lemma_contains_take(e0, k as int, h);
                    if cl != c.0 {
                        lemma_contains_push(before, (u@, cl), h);
                    }
                }
            }
            k = k + 1;
        }
        assert(e0.take(e0.len() as int) =~= e0);
        self.subs = subs;
        self.pending = pending;
        self.editor = editor;
        proof {
            assert(pending_functional(self.pending@));
            let target = unsubscribe_spec(v0, c.0);
            assert(self@.subscribers =~= target.subscribers);
            assert(self@.editor_holds =~= target.editor_holds);
            assert forall|sid: u64| #[trigger] self@.pending.dom().contains(sid) <==> target.pending.dom().contains(sid) by {
                if self@.pending.dom().contains(sid) {
                    let v = choose|v: (u64, i64)| self.pending@.contains((sid, v.0, v.1));
                    lemma_pending_value(p0, (sid, v.0, v.1));
                }
                if target.pending.dom().contains(sid) {
                    let v = choose|v: (u64, i64)| p0.contains((sid, v.0, v.1));
                    lemma_pending_value(p0, (sid, v.0, v.1));
                    assert(self.pending@.contains((sid, v.0, v.1)));
                }
            }
            assert forall|sid: u64| #[trigger] self@.pending.dom().contains(sid) implies self@.pending[sid] == target.pending[sid] by {
                let v = choose|v: (u64, i64)| self.pending@.contains((sid, v.0, v.1));
                lemma_pending_value(self.pending@, (sid, v.0, v.1));
                lemma_pending_value(p0, (sid, v.0, v.1));
            }
            assert(self@.pending =~= target.pending);
        }
    }

    /// What the session does with a message that client `c` sends, given its
    /// JSON-RPC id: a request is registered and goes to the process under
    /// the returned session id (in place of its own id), and an `initialize`
    /// request is also copied to the auxiliary servers; a notification goes
    /// verbatim to the process and every live auxiliary server; any other id
    /// is refused and changes nothing.
    pub fn outgoing(&mut self, c: ClientId, id: MessageId, is_initialize: bool) -> (r: Result<OutgoingAction, String>)
        requires
            old(self).wf(),
        ensures
            final(self).wf(),
            match id {
                MessageId::Integer(n) => r matches Ok(OutgoingAction::Request { session_id, fan_out_initialize })
                    && (final(self)@, session_id) == register_spec(old(self)@, c.0, n)
                    && fan_out_initialize == is_initialize,
                MessageId::Absent => r == Ok::<OutgoingAction, String>(OutgoingAction::Notification)
                    && final(self)@ == old(self)@,
                MessageId::Other => r matches Err(e) && e@ == non_integer_id_msg() && final(self)@ == old(self)@,
            },
    {
        match classify_outgoing(id) {
            Err(e) => Err(e),
            Ok(None) => Ok(OutgoingAction::Notification),
            Ok(Some(orig)) => {
                let sid = self.register_request(c, orig);
                Ok(OutgoingAction::Request { session_id: sid, fan_out_initialize: is_initialize })
            },
        }
    }

    /// What the session does with the raw payload client `c` sends: a
    /// payload that is not JSON is refused (`VNL-SBX-LSP-001`) and changes
    /// nothing; otherwise as `outgoing` with the payload's id.
    pub fn outgoing_payload(&mut self, c: ClientId, payload: &[u8], is_initialize: bool) -> (r: Result<
        OutgoingAction,
        String,
    >)
        requires
            old(self).wf(),
        ensures
            final(self).wf(),
            match json_payload_id(payload@) {
                None => r matches Err(e) && e@ == invalid_json_msg() && final(self)@ == old(self)@,
                Some(MessageId::Integer(n)) => r matches Ok(OutgoingAction::Request { session_id, fan_out_initialize })
                    && (final(self)@, session_id) == register_spec(old(self)@, c.0, n)
                    && fan_out_initialize == is_initialize,
                Some(MessageId::Absent) => r == Ok::<OutgoingAction, String>(OutgoingAction::Notification)
                    && final(self)@ == old(self)@,
                Some(MessageId::Other) => r matches Err(e) && e@ == non_integer_id_msg() && final(self)@ == old(self)@,
            },
    {
        let id = payload_id(payload)?;
        self.outgoing(c, id, is_initialize)
    }

    /// Registers a request of client `c` whose JSON-RPC id is `orig`, and
    /// returns the session id to send to the process in its place.
    pub fn register_request(&mut self, c: ClientId, orig: i64) -> (sid: u64)
        requires
            old(self).wf(),
        ensures
            final(self).wf(),
            (final(self)@, sid) == register_spec(old(self)@, c.0, orig),
    {
        let id = self.next_req;
        let ghost v0 = self@;
        let ghost p0 = self.pending@;
        let mut pending: Vec<(u64, u64, i64)> = Vec::new();
        let mut j: usize = 0;
        while j < self.pending.len()
            invariant
                j <= self.pending@.len(),
                self.pending@ == p0,
                forall|e: (u64, u64, i64)| pending@.contains(e) <==> (p0.take(j as int).contains(e) && e.0 != id),
            decreases self.pending.len() - j,
        {
            let e = self.pending[j];
            let ghost before = pending@;
            if e.0 != id {
                pending.push(e);
            }
            proof {
                assert forall|y: (u64, u64, i64)| pending@.contains(y) <==> (p0.take(j + 1).contains(y) && y.0 != id) by {
                    lemma_contains_take(p0, j as int, y);
                    if e.0 != id {
                        lemma_contains_push(before, e, y);
                    }
                }
            }
            j = j + 1;
        }
        assert(p0.take(p0.len() as int) =~= p0);
        let ghost kept = pending@;
        pending.push((id, c.0, orig));
        self.pending = pending;
        self.next_req = self.next_req.wrapping_add(1);
        proof {
            let q = self.pending@;
            assert forall|y: (u64, u64, i64)| q.contains(y) <==> ((p0.contains(y) && y.0 != id) || y == (id, c.0, orig)) by {
                lemma_contains_push(kept, (id, c.0, orig), y);
            }
            assert(pending_functional(q));
            let target = v0.pending.insert(id, (c.0, orig));
            assert(self@.pending == pending_map(q));
            assert forall|s: u64| #[trigger] self@.pending.dom().contains(s) implies target.dom().contains(s) by {
                let v = choose|v: (u64, i64)| q.contains((s, v.0, v.1));
                assert(q.contains((s, v.0, v.1)));
                if s != id {
                    assert(p0.contains((s, v.0, v.1)));
                    lemma_pending_value(p0, (s, v.0, v.1));
                }
            }
            assert forall|s: u64| #[trigger] target.dom().contains(s) implies self@.pending.dom().contains(s) by {
                if target.dom().contains(s) {
                    if s == id {
                        let v = (c.0, orig);
                        assert(q.contains((s, v.0, v.1)));
                    } else {
                        let v = choose|v: (u64, i64)| p0.contains((s, v.0, v.1));
                        assert(q.contains((s, v.0, v.1)));
                    }
                }
            }
            assert forall|s: u64| #[trigger] self@.pending.dom().contains(s) implies self@.pending[s] == target[s] by {
                let v = choose|v: (u64, i64)| q.contains((s, v.0, v.1));
                lemma_pending_value(q, (s, v.0, v.1));
                if s != id {
                    lemma_pending_value(p0, (s, v.0, v.1));
                }
            }
            assert(self@.pending =~= target);
        }
        id
    }

    /// Takes out the request waiting for the response with id `id` (read as
    /// unsigned) and returns its client and original id; `None` when no
    /// request waits under that id.
    pub fn route_response(&mut self, id: i64) -> (r: Option<(ClientId, i64)>)
        requires
            old(self).wf(),
        ensures
            final(self).wf(),
            (final(self)@, match r {
                Some((c, o)) => Some((c.0, o)),
                None => None,
            }) == route_spec(old(self)@, id),
    {
        let sid = id as u64;
        let ghost v0 = self@;
        let ghost p0 = self.pending@;
        let mut found: Option<(u64, i64)> = None;
        let mut pending: Vec<(u64, u64, i64)> = Vec::new();
        let mut j: usize = 0;
        while j < self.pending.len()
            invariant
                j <= self.pending@.len(),
                self.pending@ == p0,
                forall|e: (u64, u64, i64)| pending@.contains(e) <==> (p0.take(j as int).contains(e) && e.0 != sid),
                match found {
                    Some(v) => p0.contains((sid, v.0, v.1)),
                    None => forall|v: (u64, i64)| !#[trigger] p0.take(j as int).contains((sid, v.0, v.1)),
                },
            decreases self.pending.len() - j,
        {
            let e = self.pending[j];
            let ghost before = pending@;
            if e.0 != sid {
                pending.push(e);
            } else {
                found = Some((e.1, e.2));
                assert(p0[j as int] == e);
            }
            proof {
                assert forall|y: (u64, u64, i64)| pending@.contains(y) <==> (p0.take(j + 1).contains(y) && y.0 != sid) by {
                    lemma_contains_take(p0, j as int, y);
                    if e.0 != sid {
                        lemma_contains_push(before, e, y);
                    }
                }
                assert forall|v: (u64, i64)| #[trigger] p0.take(j + 1).contains((sid, v.0, v.1)) implies (p0.take(j as int).contains((sid, v.0, v.1)) || e == (sid, v.0, v.1)) by {
                    lemma_contains_take(p0, j as int, (sid, v.0, v.1));
                }
            }
            j = j + 1;
        }
        assert(p0.take(p0.len() as int) =~= p0);
        self.pending = pending;
        proof {
            let q = self.pending@;
            assert(pending_functional(q));
            match found {
                Some(v) => {
                    lemma_pending_value(p0, (sid, v.0, v.1));
                    let target = v0.pending.remove(sid);
                    assert forall|s: u64| #[trigger] self@.pending.dom().contains(s) <==> target.dom().contains(s) by {
                        if self@.pending.dom().contains(s) {
                            let w = choose|w: (u64, i64)| q.contains((s, w.0, w.1));
                            assert(p0.contains((s, w.0, w.1)) && s != sid);
                            lemma_pending_value(p0, (s, w.0, w.1));
                        }
                        if target.dom().contains(s) {
                            let w = choose|w: (u64, i64)| p0.contains((s, w.0, w.1));
                            assert(q.contains((s, w.0, w.1)));
                        }
                    }
                    assert forall|s: u64| #[trigger] self@.pending.dom().contains(s) implies self@.pending[s] == target[s] by {
                        let w = choose|w: (u64, i64)| q.contains((s, w.0, w.1));
                        lemma_pending_value(q, (s, w.0, w.1));
                        lemma_pending_value(p0, (s, w.0, w.1));
                    }
                    assert(self@.pending =~= target);
                },
                None => {
                    assert(!v0.pending.dom().contains(sid));
                    assert forall|s: u64| #[trigger] self@.pending.dom().contains(s) <==> v0.pending.dom().contains(s) by {
                        if self@.pending.dom().contains(s) {
                            let w = choose|w: (u64, i64)| q.contains((s, w.0, w.1));
                        }
                        if v0.pending.dom().contains(s) {
                            let w = choose|w: (u64, i64)| p0.contains((s, w.0, w.1));
                            assert(q.contains((s, w.0, w.1)));
                        }
                    }
                    assert forall|s: u64| #[trigger] self@.pending.dom().contains(s) implies self@.pending[s] == v0.pending[s] by {
                        let w = choose|w: (u64, i64)| q.contains((s, w.0, w.1));
                        lemma_pending_value(q, (s, w.0, w.1));
                        lemma_pending_value(p0, (s, w.0, w.1));
                    }
                    assert(self@.pending =~= v0.pending);
                },
            }
        }
        match found {
            Some((c, o)) => Some((ClientId(c), o)),
            None => None,
        }
    }

    /// Whether `initialize` was already sent to the process.
    pub fn is_initialized(&self) -> (b: bool)
        ensures
            b == self@.initialized,
    {
        self.initialized
    }

    /// Test-and-set: `true` for the caller that must send `initialize` (the
    /// first), `false` for all others.
    pub fn try_mark_initialized(&mut self) -> (first: bool)
        requires
            old(self).wf(),
        ensures
            final(self).wf(),
            (final(self)@, first) == mark_initialized_spec(old(self)@),
    {
        let first = !self.initialized;
        self.initialized = true;
        first
    }

    /// Test-and-set: `true` for the first caller for `uri` (it must send
    /// `didOpen`), `false` when the URI was already opened.
    pub fn try_mark_uri_open(&mut self, uri: &str) -> (first: bool)
        requires
            old(self).wf(),
        ensures
            final(self).wf(),
            (final(self)@, first) == mark_uri_open_spec(old(self)@, uri@),
    {
        let u = chars_of(uri);
        let ghost o0 = self.open_uris@.map_values(|s: Vec<char>| s@);
        if contains_chars(&self.open_uris, &u) {
            assert(self@.open_uris.insert(uri@) =~= self@.open_uris);
            return false;
        }
        let ghost uv = u@;
        self.open_uris.push(u);
        proof {
            let o1 = self.open_uris@.map_values(|s: Vec<char>| s@);
            assert(o1 =~= o0.push(uv));
            assert forall|x: Seq<char>| o1.to_set().contains(x) <==> o0.to_set().insert(uv).contains(x) by {
                lemma_contains_push(o0, uv, x);
            }
            assert(self@.open_uris =~= o0.to_set().insert(uv));
        }
        true
    }

    /// The current tool document version of `uri`.
    pub fn doc_version(&self, uri: &str) -> (n: i32)
        requires
            self.wf(),
        ensures
            n == current_version(self@, uri@),
    {
        let u = chars_of(uri);
        let ghost d0 = pair_views(self.doc_versions@);
        let mut i: usize = 0;
        while i < self.doc_versions.len()
            invariant
                self.wf(),
                u@ == uri@,
                i <= self.doc_versions@.len(),
                d0 == pair_views(self.doc_versions@),
                forall|n: i32| !#[trigger] d0.take(i as int).contains((u@, n)),
            decreases self.doc_versions.len() - i,
        {
            if eq_chars(self.doc_versions[i].0.as_slice(), u.as_slice()) {
                let n = self.doc_versions[i].1;
                proof {
                    assert(d0[i as int] == (u@, n));
                    assert(d0.contains((u@, n)));
                    lemma_version_value(d0, (u@, n));
                    assert(self@.doc_versions == versions_map(d0));
                    assert(self@.doc_versions.dom().contains(uri@));
                    assert(self@.doc_versions[uri@] == n);
                }
                return n;
            }
            proof {
                assert forall|n: i32| !#[trigger] d0.take(i + 1).contains((u@, n)) by {
                    lemma_contains_take(d0, i as int, (u@, n));
                }
            }
            i = i + 1;
        }
        assert(d0.take(d0.len() as int) =~= d0);
        1
    }

    /// The next tool document version of `uri` (starting at 2, one more per
    /// call; the `didOpen` carries version 1), recorded as current.
    pub fn next_doc_version(&mut self, uri: &str) -> (n: i32)
        requires
            old(self).wf(),
            current_version(old(self)@, uri@) < i32::MAX,
        ensures
            final(self).wf(),
            (final(self)@, n) == next_version_spec(old(self)@, uri@),
    {
        let cur = self.doc_version(uri);
        let next = cur + 1;
        let u = chars_of(uri);
        let ghost v0 = self@;
        let ghost d0 = pair_views(self.doc_versions@);
        let mut kept: Vec<(Vec<char>, i32)> = Vec::new();
        let mut i: usize = 0;
        while i < self.doc_versions.len()
            invariant
                i <= self.doc_versions@.len(),
                d0 == pair_views(self.doc_versions@),
                forall|e: (Seq<char>, i32)| pair_views(kept@).contains(e) <==> (d0.take(i as int).contains(e) && e.0 != u@),
            decreases self.doc_versions.len() - i,
        {
            let ghost before = pair_views(kept@);
            let key = self.doc_versions[i].0.clone();
            let val = self.doc_versions[i].1;
            assert(key@ == self.doc_versions@[i as int].0@);
            assert(d0[i as int] == (key@, val));
            let same = eq_chars(key.as_slice(), u.as_slice());
            if !same {
                kept.push((key, val));
                assert(pair_views(kept@) =~= before.push((d0[i as int].0, val)));
            }
            proof {
                assert forall|e: (Seq<char>, i32)| pair_views(kept@).contains(e) <==> (d0.take(i + 1).contains(e) && e.0 != u@) by {
                    lemma_contains_take(d0, i as int, e);
                    if !same {
                        lemma_contains_push(before, d0[i as int], e);
                    }
                }
            }
            i = i + 1;
        }
        assert(d0.take(d0.len() as int) =~= d0);
        let ghost kv = pair_views(kept@);
        let ghost uv = u@;
        kept.push((u, next));
        self.doc_versions = kept;
        proof {
            let q = pair_views(self.doc_versions@);
            assert(q =~= kv.push((uv, next)));
            assert forall|e: (Seq<char>, i32)| q.contains(e) <==> ((d0.contains(e) && e.0 != uv) || e == (uv, next)) by {
                lemma_contains_push(kv, (uv, next), e);
            }
            assert(versions_functional(q));
            let target = v0.doc_versions.insert(uv, next);
            assert forall|k: Seq<char>| #[trigger] self@.doc_versions.dom().contains(k) <==> target.dom().contains(k) by {
                if self@.doc_versions.dom().contains(k) {
                    let w = choose|w: i32| q.contains((k, w));
                    if k != uv {
                        lemma_version_value(d0, (k, w));
                    }
                }
                if target.dom().contains(k) {
                    if k == uv {
                        assert(q.contains((uv, next)));
                    } else {
                        let w = choose|w: i32| d0.contains((k, w));
                        assert(q.contains((k, w)));
                    }
                }
            }
            assert forall|k: Seq<char>| #[trigger] self@.doc_versions.dom().contains(k) implies self@.doc_versions[k] == target[k] by {
                let w = choose|w: i32| q.contains((k, w));
                lemma_version_value(q, (k, w));
                if k != uv {
                    lemma_version_value(d0, (k, w));
                }
            }
            assert(self@.doc_versions =~= target);
        }
        next
    }

    /// Whether some editor client holds `uri`.
    pub fn has_editor_client(&self, uri: &str) -> (b: bool)
        ensures
            b == held_by_editor(self@, uri@),
    {
        let u = chars_of(uri);
        let ghost e0 = pair_views(self.editor@);
        let mut i: usize = 0;
        let mut found = false;
        while i < self.editor.len() && !found
            invariant
                i <= self.editor@.len(),
                e0 == pair_views(self.editor@),
                found ==> (i > 0 && e0[i - 1].0 == u@),
                !found ==> forall|k: int| 0 <= k < i ==> e0[k].0 != u@,
            decreases self.editor.len() - i,
        {
            if eq_chars(self.editor[i].0.as_slice(), u.as_slice()) {
                found = true;
            }
            i = i + 1;
        }
        proof {
            if found {
                let h = e0[i - 1];
                assert(e0.contains(h));
                assert(self@.editor_holds.contains((u@, h.1)));
            } else {
                assert forall|c: u64| !#[trigger] self@.editor_holds.contains((u@, c)) by {
                    if e0.contains((u@, c)) {
                        let k = choose|k: int| 0 <= k < e0.len() && e0[k] == (u@, c);
                    }
                }
            }
        }
        found
    }

    /// The editor client `c` now holds `uri`.
    pub fn mark_editor_uri_open(&mut self, uri: &str, c: ClientId)
        requires
            old(self).wf(),
        ensures
            final(self).wf(),
            final(self)@ == (SessionView { editor_holds: old(self)@.editor_holds.insert((uri@, c.0)), ..old(self)@ }),
    {
        let ghost e0 = pair_views(self.editor@);
        let u = chars_of(uri);
        let ghost uv = u@;
        self.editor.push((u, c.0));
        proof {
            let e1 = pair_views(self.editor@);
            assert(e1 =~= e0.push((uv, c.0)));
            assert forall|h: (Seq<char>, u64)| e1.to_set().contains(h) <==> e0.to_set().insert((uv, c.0)).contains(h) by {
                lemma_contains_push(e0, (uv, c.0), h);
            }
            assert(self@.editor_holds =~= e0.to_set().insert((uv, c.0)));
        }
    }

    /// The editor client `c` no longer holds `uri` (other holders keep it).
    pub fn mark_editor_uri_close(&mut self, uri: &str, c: ClientId)
        requires
            old(self).wf(),
        ensures
            final(self).wf(),
            final(self)@ == (SessionView { editor_holds: old(self)@.editor_holds.remove((uri@, c.0)), ..old(self)@ }),
    {
        let u = chars_of(uri);
        let ghost e0 = pair_views(self.editor@);
        let mut editor: Vec<(Vec<char>, u64)> = Vec::new();
        let mut k: usize = 0;
        while k < self.editor.len()
            invariant
                k <= self.editor@.len(),
                pair_views(self.editor@) == e0,
                forall|h: (Seq<char>, u64)| pair_views(editor@).contains(h) <==> (e0.take(k as int).contains(h) && h != (u@, c.0)),
            decreases self.editor.len() - k,
        {
            let ghost before = pair_views(editor@);
            let key = self.editor[k].0.clone();
            let cl = self.editor[k].1;
            assert(key@ == self.editor@[k as int].0@);
            assert(e0[k as int] == (key@, cl));
            let drop = cl == c.0 && eq_chars(key.as_slice(), u.as_slice());
            if !drop {
                editor.push((key, cl));
                assert(pair_views(editor@) =~= before.push(e0[k as int]));
            }
            proof {
                assert forall|h: (Seq<char>, u64)| pair_views(editor@).contains(h) <==> (e0.take(k + 1).contains(h) && h != (u@, c.0)) by {
                    lemma_contains_take(e0, k as int, h);
                    if !drop {
                        lemma_contains_push(before, e0[k as int], h);
                    }
                }
            }
            k = k + 1;
        }
        assert(e0.take(e0.len() as int) =~= e0);
        self.editor = editor;
        assert(self@.editor_holds =~= e0.to_set().remove((u@, c.0)));
    }
}

/// Whether `u` is among the character vectors of `v`.
fn contains_chars(v: &Vec<Vec<char>>, u: &Vec<char>) -> (b: bool)
    ensures
        b == v@.map_values(|s: Vec<char>| s@).contains(u@),
{
    let ghost o0 = v@.map_values(|s: Vec<char>| s@);
    let mut i: usize = 0;
    while i < v.len()
        invariant
            i <= v@.len(),
            o0 == v@.map_values(|s: Vec<char>| s@),
            forall|k: int| 0 <= k < i ==> o0[k] != u@,
        decreases v.len() - i,
    {
        if eq_chars(v[i].as_slice(), u.as_slice()) {
            assert(o0[i as int] == u@);
            return true;
        }
        i = i + 1;
    }
    false
}

/// Whether `role` is an auxiliary role that sessions start
/// (`tsserver-forward`); others are ignored.
pub fn is_known_aux_role(role: &str) -> (b: bool)
    ensures
        b == (role@ == "tsserver-forward"@),
{
    let r = chars_of(role);
    let known = chars_of("tsserver-forward");
    eq_chars(r.as_slice(), known.as_slice())
}


// ── laws ────────────────────────────────────────────────────────────────────

/// A response carrying the session id of a registered request goes back to
/// the client that sent it, with its original id restored, exactly once: a
/// second response with the same id reaches nobody.
pub proof fn lemma_response_reaches_requester_once(v: SessionView, c: u64, orig: i64)
    requires
        v.next_req <= i64::MAX,
    ensures
        ({
            let (v1, sid) = register_spec(v, c, orig);
            let (v2, first) = route_spec(v1, sid as i64);
            &&& first == Some((c, orig))
            &&& route_spec(v2, sid as i64).1 is None
            &&& v2.pending == v.pending.remove(sid)
        }),
{
    let (v1, sid) = register_spec(v, c, orig);
    assert((sid as i64) as u64 == sid);
    assert(v1.pending.remove(sid) =~= v.pending.remove(sid));
}

/// Unsubscribing a client drops exactly its pending requests (those of the
/// other clients stay, with their ids), its subscription and every URI it
/// held as an editor.
pub proof fn lemma_unsubscribe_drops_only_its_requests(v: SessionView, c: u64)
    ensures
        ({
            let w = unsubscribe_spec(v, c);
            &&& forall|sid: u64| #[trigger] w.pending.dom().contains(sid) <==> (v.pending.dom().contains(sid)
                && v.pending[sid].0 != c)
            &&& forall|sid: u64| #[trigger] w.pending.dom().contains(sid) ==> w.pending[sid] == v.pending[sid]
            &&& !w.subscribers.contains(c)
            &&& forall|u: Seq<char>| !(#[trigger] w.editor_holds.contains((u, c)))
        }),
{
}

/// `initialize` is granted once: whatever the state, after one grant every
/// further request is refused.
pub proof fn lemma_initialize_granted_once(v: SessionView)
    ensures
        mark_initialized_spec(mark_initialized_spec(v).0).1 == false,
        mark_initialized_spec(initial_session()).1 == true,
{
}

/// `didOpen` is sent once per URI: the second caller for the same URI is
/// told not to send it, whatever happened to other URIs in between.
pub proof fn lemma_uri_opened_once(v: SessionView, u: Seq<char>, other: Seq<char>)
    ensures
        mark_uri_open_spec(mark_uri_open_spec(v, u).0, u).1 == false,
        mark_uri_open_spec(mark_uri_open_spec(mark_uri_open_spec(v, u).0, other).0, u).1 == false,
{
}

/// Tool document versions of a URI start at 2 (above the `didOpen` version
/// 1) and go up by one per call; those of other URIs are untouched.
pub proof fn lemma_doc_versions_increase(v: SessionView, u: Seq<char>, other: Seq<char>)
    requires
        current_version(v, u) < i32::MAX - 1,
        other != u,
    ensures
        next_version_spec(initial_session(), u).1 == 2,
        ({
            let (v1, n1) = next_version_spec(v, u);
            let (v2, n2) = next_version_spec(v1, u);
            &&& n1 == current_version(v, u) + 1
            &&& n2 == n1 + 1
            &&& current_version(v1, other) == current_version(v, other)
        }),
{
    assert(!initial_session().doc_versions.dom().contains(u));
}

/// The session after `next_doc_version` was called on each URI of `calls`,
/// in order.
pub open spec fn after_version_calls(v: SessionView, calls: Seq<Seq<char>>) -> SessionView
    decreases calls.len(),
{
    if calls.len() == 0 {
        v
    } else {
        next_version_spec(after_version_calls(v, calls.drop_last()), calls.last()).0
    }
}

/// How many times `u` occurs in `calls`.
pub open spec fn call_count(calls: Seq<Seq<char>>, u: Seq<char>) -> nat
    decreases calls.len(),
{
    if calls.len() == 0 {
        0
    } else {
        call_count(calls.drop_last(), u) + if calls.last() == u {
            1nat
        } else {
            0nat
        }
    }
}

/// Per-URI document versions: after `k` calls for a URI, with any calls for
/// other URIs interleaved, the next call for it returns `k + 2` (2, 3, 4, …
/// from a fresh session; a URI never seen starts at 2).
pub proof fn lemma_doc_versions_count(calls: Seq<Seq<char>>, u: Seq<char>)
    requires
        call_count(calls, u) + 2 <= i32::MAX,
    ensures
        current_version(after_version_calls(initial_session(), calls), u) == call_count(calls, u) + 1,
        next_version_spec(after_version_calls(initial_session(), calls), u).1 == call_count(calls, u) + 2,
    decreases calls.len(),
{
    if calls.len() == 0 {
        assert(!initial_session().doc_versions.dom().contains(u));
    } else {
        lemma_doc_versions_count(calls.drop_last(), u);
    }
}

/// An editor holding a URI keeps it held until it closes it or leaves; once
/// its only holder closes it or leaves, the URI is no longer held.
pub proof fn lemma_editor_hold(v: SessionView, u: Seq<char>, c: u64)
    requires
        forall|d: u64| d != c ==> !v.editor_holds.contains((u, d)),
    ensures
        ({
            let opened = SessionView { editor_holds: v.editor_holds.insert((u, c)), ..v };
            let closed = SessionView { editor_holds: opened.editor_holds.remove((u, c)), ..opened };
            &&& held_by_editor(opened, u)
            &&& !held_by_editor(closed, u)
            &&& !held_by_editor(unsubscribe_spec(opened, c), u)
        }),
{
    let opened = SessionView { editor_holds: v.editor_holds.insert((u, c)), ..v };
    assert(opened.editor_holds.contains((u, c)));
    let closed = SessionView { editor_holds: opened.editor_holds.remove((u, c)), ..opened };
    assert forall|d: u64| !(#[trigger] closed.editor_holds.contains((u, d))) by {}
    let left = unsubscribe_spec(opened, c);
    assert forall|d: u64| !(#[trigger] left.editor_holds.contains((u, d))) by {}
}

/// A new subscriber gets an id no current subscriber has, while ids below
/// the counter have been handed out and the counter has not wrapped.
pub proof fn lemma_subscriber_ids_fresh(v: SessionView)
    requires
        forall|x: u64| #[trigger] v.subscribers.contains(x) ==> x < v.next_client,
        v.next_client < u64::MAX,
    ensures
        ({
            let (w, id) = subscribe_spec(v);
            &&& !v.subscribers.contains(id)
            &&& w.subscribers.contains(id)
            &&& forall|x: u64| #[trigger] w.subscribers.contains(x) ==> x < w.next_client
        }),
{
}


// ── the sessions of a sandbox ───────────────────────────────────────────────

/// What the session manager does when a toolchain's session is asked for.
#[derive(Debug, Clone, Copy, PartialEq, Eq, Structural)]
pub enum SessionLookup {
    /// The toolchain is not configured: no session.
    NotConfigured,
    /// Hand out the session already running.
    Reuse,
    /// Start a new session (there is none, or it died).
    Spawn,
}

/// The manager's first decision: no session for an unknown toolchain, the
/// running one while it is alive, else a new one. `existing_alive` is
/// whether the recorded session is alive (`None` when none is recorded).
pub fn session_lookup(configured: bool, existing_alive: Option<bool>) -> (r: SessionLookup)
    ensures
        r == (if !configured {
            SessionLookup::NotConfigured
        } else if existing_alive == Some(true) {
            SessionLookup::Reuse
        } else {
            SessionLookup::Spawn
        }),
{
    if !configured {
        SessionLookup::NotConfigured
    } else {
        match existing_alive {
            Some(true) => SessionLookup::Reuse,
            _ => SessionLookup::Spawn,
        }
    }
}

/// What the manager does with a session it has just started.
#[derive(Debug, Clone, Copy, PartialEq, Eq, Structural)]
pub enum SessionInstall {
    /// Another task installed a live session meanwhile: hand that one out
    /// and leave the table as it is.
    KeepExisting,
    /// Record the new session (replacing a dead one) and hand it out.
    InstallFresh,
}

/// The manager's second decision, once a session was started: a live
/// session recorded meanwhile by another task, other than the new one,
/// wins; otherwise the new one is recorded. `existing` is whether a session
/// is recorded, and then whether it is alive and whether it is the new one.
pub fn session_install(existing: Option<(bool, bool)>) -> (r: SessionInstall)
    ensures
        r == (if existing matches Some((alive, same)) && alive && !same {
            SessionInstall::KeepExisting
        } else {
            SessionInstall::InstallFresh
        }),
{
    match existing {
        Some((true, false)) => SessionInstall::KeepExisting,
        _ => SessionInstall::InstallFresh,
    }
}

} // verus!
