//! The book of "flush this file" requests sent to the editor frontends: each
//! request gets a fresh id (from 1, since 0 reads as false in JavaScript), is
//! registered before it is broadcast, and leaves the book at its first
//! acknowledgement or when its wait times out. The caller owns the channels
//! and the clock.

use vstd::prelude::*;

verus! {

/// Pending flush requests and the next id to hand out.
pub struct FlushBook {
    next_id: u64,
    pending: Vec<u64>,
}

impl FlushBook {
    /// The next id to hand out.
    pub closed spec fn next(&self) -> nat {
        self.next_id as nat
    }

    /// The ids awaiting an acknowledgement.
    pub closed spec fn waiting(&self) -> Set<u64> {
        self.pending@.to_set()
    }

    /// Ids start at 1, every pending id was handed out already, and none is
    /// pending twice.
    pub closed spec fn wf(&self) -> bool {
        &&& self.next_id >= 1
        &&& forall|i: int| 0 <= i < self.pending@.len() ==> 1 <= #[trigger] self.pending@[i] < self.next_id
        &&& self.pending@.no_duplicates()
    }

    /// An empty book whose first id is 1.
    pub fn new() -> (r: FlushBook)
        ensures
            r.wf(),
            r.next() == 1,
            r.waiting() == Set::<u64>::empty(),
    {
        let r = FlushBook { next_id: 1, pending: Vec::new() };
        assert(r.pending@.to_set() =~= Set::<u64>::empty());
        r
    }

    /// Position of `id` among the pending ids, if it is there.
    fn position(&self, id: u64) -> (r: Option<usize>)
        ensures
            match r {
                Some(k) => k < self.pending@.len() && self.pending@[k as int] == id,
                None => !self.pending@.contains(id),
            },
    {
        let mut k: usize = 0;
        while k < self.pending.len()
            invariant
                k <= self.pending@.len(),
                forall|j: int| 0 <= j < k ==> self.pending@[j] != id,
            decreases self.pending.len() - k,
        {
            if self.pending[k] == id {
                return Some(k);
            }
            k = k + 1;
        }
        None
    }

    /// Removes the entry at `k` from the pending ids.
    proof fn lemma_remove_at(s: Seq<u64>, k: int)
        requires
            0 <= k < s.len(),
            s.no_duplicates(),
        ensures
            s.remove(k).no_duplicates(),
            s.remove(k).to_set() == s.to_set().remove(s[k]),
    {
        let r = s.remove(k);
        assert forall|a: int, b: int| 0 <= a < r.len() && 0 <= b < r.len() && a != b implies r[a] != r[b] by {
            let sa = if a < k { a } else { a + 1 };
            let sb = if b < k { b } else { b + 1 };
            assert(r[a] == s[sa] && r[b] == s[sb]);
        }
        assert forall|x: u64| r.to_set().contains(x) <==> s.to_set().remove(s[k]).contains(x) by {
            if r.contains(x) {
                let a = choose|a: int| 0 <= a < r.len() && r[a] == x;
                let sa = if a < k { a } else { a + 1 };
                assert(s[sa] == x);
                assert(sa != k);
            }
            if s.contains(x) && x != s[k] {
                let a = choose|a: int| 0 <= a < s.len() && s[a] == x;
                assert(a != k);
                let ra = if a < k { a } else { a - 1 };
                assert(r[ra] == x);
            }
        }
        assert(r.to_set() =~= s.to_set().remove(s[k]));
    }

    /// Registers a new request and returns its id: the next id, which was
    /// pending before no more than any later one will be.
    pub fn begin(&mut self) -> (id: u64)
        requires
            old(self).wf(),
            old(self).next() < u64::MAX,
        ensures
            final(self).wf(),
            id as nat == old(self).next(),
            !old(self).waiting().contains(id),
            final(self).next() == old(self).next() + 1,
            final(self).waiting() == old(self).waiting().insert(id),
    {
        let id = self.next_id;
        let ghost before = self.pending@;
        assert(!before.contains(id)) by {
            if before.contains(id) {
                let j = choose|j: int| 0 <= j < before.len() && before[j] == id;
                assert(1 <= before[j] < self.next_id);
            }
        }
        self.pending.push(id);
        self.next_id = id + 1;
        proof {
            let after = self.pending@;
            assert(after == before.push(id));
            assert forall|a: int, b: int| 0 <= a < after.len() && 0 <= b < after.len() && a != b implies after[a] != after[b] by {
                if a < before.len() && b < before.len() {
                    assert(after[a] == before[a] && after[b] == before[b]);
                } else if a < before.len() {
                    assert(after[a] == before[a]);
                    assert(before.contains(after[a]));
                } else if b < before.len() {
                    assert(after[b] == before[b]);
                    assert(before.contains(after[b]));
                }
            }
            before.lemma_push_to_set_commute(id);
        }
        id
    }

    /// An acknowledgement of `id`: `true` when `id` was pending, which it no
    /// longer is; an unknown or already answered id changes nothing.
    pub fn ack(&mut self, id: u64) -> (resolved: bool)
        requires
            old(self).wf(),
        ensures
            final(self).wf(),
            resolved == old(self).waiting().contains(id),
            final(self).waiting() == old(self).waiting().remove(id),
            final(self).next() == old(self).next(),
    {
        let ghost before = self.pending@;
        match self.position(id) {
            Some(k) => {
                proof {
                    Self::lemma_remove_at(before, k as int);
                }
                self.pending.remove(k);
                assert(self.pending@ == before.remove(k as int));
                assert forall|i: int| 0 <= i < self.pending@.len() implies 1 <= #[trigger] self.pending@[i] < self.next_id by {
                    let si = if i < k { i } else { i + 1 };
                    assert(self.pending@[i] == before[si]);
                }
                assert(before.to_set().contains(id));
                true
            },
            None => {
                assert(!before.to_set().contains(id));
                assert(before.to_set().remove(id) =~= before.to_set());
                false
            },
        }
    }

    /// The end of a wait that timed out: `id` leaves the book, acknowledged
    /// or not.
    pub fn expire(&mut self, id: u64)
        requires
            old(self).wf(),
        ensures
            final(self).wf(),
            final(self).waiting() == old(self).waiting().remove(id),
            final(self).next() == old(self).next(),
    {
        let _ = self.ack(id);
    }

    /// Whether another id can be handed out.
    pub fn can_begin(&self) -> (b: bool)
        ensures
            b == (self.next() < u64::MAX),
    {
        self.next_id < u64::MAX
    }

    /// The number of pending requests.
    pub fn waiter_count(&self) -> (n: usize)
        requires
            self.wf(),
        ensures
            n as nat == self.waiting().len(),
    {
        proof {
            self.pending@.unique_seq_to_set();
        }
        self.pending.len()
    }
}

/// The first acknowledgement of a request wins: a second one of the same id
/// resolves nothing and leaves the book as the first left it.
pub proof fn lemma_first_ack_wins(before: FlushBook, after_first: FlushBook, after_second: FlushBook, id: u64)
    requires
        before.wf(),
        before.waiting().contains(id),
        after_first.waiting() == before.waiting().remove(id),
        after_second.waiting() == after_first.waiting().remove(id),
    ensures
        !after_first.waiting().contains(id),
        after_second.waiting() == after_first.waiting(),
{
    assert(after_first.waiting().remove(id) =~= after_first.waiting());
}

} // verus!
