//! What a session adds to the messages it copies to its auxiliary servers.

use vstd::prelude::*;
use crate::assoc::{functional, key_views, merge_prefer_right, to_map};

verus! {

/// The `initializationOptions` of the copy of `initialize` sent to an
/// auxiliary server: nothing to set when its spec has no options object;
/// else the client's options (none when the client sent no object) with
/// every key of the spec set over them.
pub open spec fn merged_options_spec<V>(
    client: Option<Seq<(Seq<char>, V)>>,
    spec: Option<Seq<(Seq<char>, V)>>,
) -> Option<Map<Seq<char>, V>> {
    match spec {
        None => None,
        Some(s) => Some(
            match client {
                Some(c) => to_map(c),
                None => Map::empty(),
            }.union_prefer_right(to_map(s)),
        ),
    }
}

/// The options set on the copy of `initialize` for an auxiliary server,
/// from the client's options object and the spec's (each `None` when it is
/// not a JSON object).
pub fn merged_initialization_options<V>(
    client: Option<Vec<(Vec<char>, V)>>,
    spec: Option<Vec<(Vec<char>, V)>>,
) -> (r: Option<Vec<(Vec<char>, V)>>)
    requires
        client matches Some(c) ==> functional(key_views(c@)),
        spec matches Some(s) ==> functional(key_views(s@)),
    ensures
        match merged_options_spec(
            match client {
                Some(c) => Some(key_views(c@)),
                None => None,
            },
            match spec {
                Some(s) => Some(key_views(s@)),
                None => None,
            },
        ) {
            None => r is None,
            Some(m) => r matches Some(v) && functional(key_views(v@)) && to_map(key_views(v@)) == m,
        },
{
    match spec {
        None => None,
        Some(s) => {
            let base: Vec<(Vec<char>, V)> = match client {
                Some(c) => c,
                None => {
                    let e: Vec<(Vec<char>, V)> = Vec::new();
                    proof {
                        assert(key_views(e@) =~= Seq::<(Seq<char>, V)>::empty());
                        assert(to_map(key_views(e@)) =~= Map::<Seq<char>, V>::empty());
                    }
                    e
                },
            };
            Some(merge_prefer_right(base, s))
        },
    }
}

/// What an auxiliary server's reply to an internal request is for: the
/// copy of `initialize`, or a forwarded `tsserver/request` whose id (`V`)
/// the primary server waits on.
#[derive(Debug, Clone, PartialEq, Eq)]
pub enum AuxPending<V> {
    Initialize,
    Forward(V),
}

/// No id occurs twice.
pub open spec fn ids_distinct<P>(s: Seq<(u64, P)>) -> bool {
    forall|i: int, j: int| 0 <= i < s.len() && 0 <= j < s.len() && #[trigger] s[i].0 == #[trigger] s[j].0 ==> i == j
}

/// The entries as a map from id.
pub open spec fn id_map<P>(s: Seq<(u64, P)>) -> Map<u64, P> {
    Map::new(
        |k: u64| exists|i: int| 0 <= i < s.len() && s[i].0 == k,
        |k: u64| s[choose|i: int| 0 <= i < s.len() && s[i].0 == k].1,
    )
}

proof fn lemma_id_entry<P>(s: Seq<(u64, P)>, i: int)
    requires
        ids_distinct(s),
        0 <= i < s.len(),
    ensures
        id_map(s).dom().contains(s[i].0),
        id_map(s)[s[i].0] == s[i].1,
{
    let k = s[i].0;
    assert(0 <= i < s.len() && s[i].0 == k);
    let j = choose|j: int| 0 <= j < s.len() && s[j].0 == k;
    assert(s[j].0 == s[i].0);
}

proof fn lemma_id_remove<P>(s: Seq<(u64, P)>, k: int)
    requires
        ids_distinct(s),
        0 <= k < s.len(),
    ensures
        ids_distinct(s.remove(k)),
        id_map(s.remove(k)) == id_map(s).remove(s[k].0),
{
    let r = s.remove(k);
    assert forall|a: int, b: int| 0 <= a < r.len() && 0 <= b < r.len() && #[trigger] r[a].0 == #[trigger] r[b].0 implies a == b by {
        let sa = if a < k { a } else { a + 1 };
        let sb = if b < k { b } else { b + 1 };
        assert(r[a] == s[sa] && r[b] == s[sb]);
    }
    let target = id_map(s).remove(s[k].0);
    assert forall|x: u64| #[trigger] id_map(r).dom().contains(x) <==> target.dom().contains(x) by {
        if id_map(r).dom().contains(x) {
            let a = choose|a: int| 0 <= a < r.len() && r[a].0 == x;
            let sa = if a < k { a } else { a + 1 };
            assert(s[sa].0 == x);
            assert(sa != k);
        }
        if target.dom().contains(x) {
            let a = choose|a: int| 0 <= a < s.len() && s[a].0 == x;
            assert(a != k);
            let ra = if a < k { a } else { a - 1 };
            assert(r[ra].0 == x);
        }
    }
    assert forall|x: u64| #[trigger] id_map(r).dom().contains(x) implies id_map(r)[x] == target[x] by {
        let a = choose|a: int| 0 <= a < r.len() && r[a].0 == x;
        let sa = if a < k { a } else { a + 1 };
        assert(r[a] == s[sa]);
        lemma_id_entry(r, a);
        lemma_id_entry(s, sa);
    }
    assert(id_map(r) =~= target);
}

/// The internal requests a session has in flight with one auxiliary server:
/// ids from 1, each answered at most once.
pub struct AuxBook<V> {
    next_id: u64,
    pending: Vec<(u64, AuxPending<V>)>,
}

impl<V> AuxBook<V> {
    /// The next internal id.
    pub closed spec fn next(&self) -> nat {
        self.next_id as nat
    }

    /// The requests in flight, by internal id.
    pub closed spec fn in_flight(&self) -> Map<u64, AuxPending<V>> {
        id_map(self.pending@)
    }

    /// Ids start at 1, every id in flight was handed out, none twice.
    pub closed spec fn wf(&self) -> bool {
        &&& self.next_id >= 1
        &&& ids_distinct(self.pending@)
        &&& forall|i: int| 0 <= i < self.pending@.len() ==> 1 <= #[trigger] self.pending@[i].0 < self.next_id
    }

    /// Nothing in flight; the first id is 1.
    pub fn new() -> (r: AuxBook<V>)
        ensures
            r.wf(),
            r.next() == 1,
            r.in_flight() == Map::<u64, AuxPending<V>>::empty(),
    {
        let r = AuxBook { next_id: 1, pending: Vec::new() };
        assert(id_map(r.pending@) =~= Map::<u64, AuxPending<V>>::empty());
        r
    }

    /// Whether another id can be handed out.
    pub fn can_register(&self) -> (b: bool)
        ensures
            b == (self.next() < u64::MAX),
    {
        self.next_id < u64::MAX
    }

    /// Puts a request in flight under a fresh id, which it returns.
    pub fn register(&mut self, what: AuxPending<V>) -> (id: u64)
        requires
            old(self).wf(),
            old(self).next() < u64::MAX,
        ensures
            final(self).wf(),
            id as nat == old(self).next(),
            !old(self).in_flight().dom().contains(id),
            final(self).next() == old(self).next() + 1,
            final(self).in_flight() == old(self).in_flight().insert(id, what),
    {
        let id = self.next_id;
        let ghost before = self.pending@;
        let ghost w = what;
        assert(!id_map(before).dom().contains(id)) by {
            if id_map(before).dom().contains(id) {
                let j = choose|j: int| 0 <= j < before.len() && before[j].0 == id;
                assert(1 <= before[j].0 < self.next_id);
            }
        }
        self.pending.push((id, what));
        self.next_id = id + 1;
        proof {
            let after = self.pending@;
            assert(after == before.push((id, w)));
            assert forall|a: int, b: int| 0 <= a < after.len() && 0 <= b < after.len() && #[trigger] after[a].0 == #[trigger] after[b].0 implies a == b by {
                if a < before.len() && b == before.len() {
                    assert(after[a] == before[a]);
                    assert(id_map(before).dom().contains(before[a].0));
                } else if b < before.len() && a == before.len() {
                    assert(after[b] == before[b]);
                    assert(id_map(before).dom().contains(before[b].0));
                } else if a < before.len() && b < before.len() {
                    assert(after[a] == before[a] && after[b] == before[b]);
                }
            }
            let target = id_map(before).insert(id, w);
            assert forall|x: u64| #[trigger] id_map(after).dom().contains(x) <==> target.dom().contains(x) by {
                if id_map(after).dom().contains(x) {
                    let a = choose|a: int| 0 <= a < after.len() && after[a].0 == x;
                    if a < before.len() {
                        assert(before[a].0 == x);
                    }
                }
                if target.dom().contains(x) {
                    if x == id {
                        assert(after[before.len() as int].0 == x);
                    } else {
                        let a = choose|a: int| 0 <= a < before.len() && before[a].0 == x;
                        assert(after[a].0 == x);
                    }
                }
            }
            assert forall|x: u64| #[trigger] id_map(after).dom().contains(x) implies id_map(after)[x] == target[x] by {
                let a = choose|a: int| 0 <= a < after.len() && after[a].0 == x;
                lemma_id_entry(after, a);
                if a < before.len() {
                    assert(after[a] == before[a]);
                    lemma_id_entry(before, a);
                }
            }
            assert(id_map(after) =~= target);
        }
        id
    }

    /// The request a reply with internal id `id` answers, which leaves the
    /// book; `None` for an id not in flight.
    pub fn take(&mut self, id: u64) -> (r: Option<AuxPending<V>>)
        requires
            old(self).wf(),
        ensures
            final(self).wf(),
            final(self).next() == old(self).next(),
            final(self).in_flight() == old(self).in_flight().remove(id),
            match r {
                Some(p) => old(self).in_flight().dom().contains(id) && old(self).in_flight()[id] == p,
                None => !old(self).in_flight().dom().contains(id),
            },
    {
        let ghost before = self.pending@;
        let mut k: usize = 0;
        while k < self.pending.len()
            invariant
                k <= self.pending@.len(),
                self.pending@ == before,
                before == old(self).pending@,
                ids_distinct(before),
                self.next_id == old(self).next_id,
                self.next_id >= 1,
                forall|i: int| 0 <= i < before.len() ==> 1 <= #[trigger] before[i].0 < self.next_id,
                forall|j: int| 0 <= j < k ==> self.pending@[j].0 != id,
            decreases self.pending.len() - k,
        {
            if self.pending[k].0 == id {
                proof {
                    lemma_id_entry(before, k as int);
                    lemma_id_remove(before, k as int);
                }
                let (_, p) = self.pending.remove(k);
                assert(self.pending@ == before.remove(k as int));
                assert forall|i: int| 0 <= i < self.pending@.len() implies 1 <= #[trigger] self.pending@[i].0 < self.next_id by {
                    let si = if i < k { i } else { i + 1 };
                    assert(self.pending@[i] == before[si]);
                }
                return Some(p);
            }
            k = k + 1;
        }
        assert(!id_map(before).dom().contains(id)) by {
            if id_map(before).dom().contains(id) {
                let j = choose|j: int| 0 <= j < before.len() && before[j].0 == id;
                assert(before[j].0 == id);
            }
        }
        assert(id_map(before).remove(id) =~= id_map(before));
        None
    }

    /// Everything in flight, when the auxiliary server is gone: the book is
    /// left empty and each request is handed back once.
    pub fn drain(&mut self) -> (r: Vec<(u64, AuxPending<V>)>)
        requires
            old(self).wf(),
        ensures
            final(self).wf(),
            final(self).next() == old(self).next(),
            final(self).in_flight() == Map::<u64, AuxPending<V>>::empty(),
            ids_distinct(r@),
            id_map(r@) == old(self).in_flight(),
    {
        let mut out: Vec<(u64, AuxPending<V>)> = Vec::new();
        std::mem::swap(&mut out, &mut self.pending);
        assert(id_map(self.pending@) =~= Map::<u64, AuxPending<V>>::empty());
        out
    }
}

/// A forwarded request is answered once: once a reply took it out of the
/// book (`take`), a second reply with the same id finds nothing and leaves
/// the book as it is, and a later `drain` does not hand it back.
pub proof fn lemma_forward_answered_once<V>(before: AuxBook<V>, after: AuxBook<V>, id: u64)
    requires
        before.wf(),
        after.in_flight() == before.in_flight().remove(id),
    ensures
        !after.in_flight().dom().contains(id),
        after.in_flight().remove(id) == after.in_flight(),
{
    assert(after.in_flight().remove(id) =~= after.in_flight());
}

} // verus!
