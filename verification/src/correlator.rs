//! The request correlator: allocates never-repeating ids for outgoing
//! requests, keeps the pending table, matches incoming responses to it, and
//! resolves everything left when the connection goes down.

use vstd::prelude::*;
use crate::message::{RequestId, RequestIdV};

verus! {

/// An outgoing request still waiting for its response.
pub struct PendingRequest {
    pub id: u64,
    pub method: Vec<u8>,
    pub issued_at: u64,
}

/// The model of a pending request.
pub struct PendingV {
    pub id: u64,
    pub method: Seq<u8>,
    pub issued_at: u64,
}

impl View for PendingRequest {
    type V = PendingV;

    open spec fn view(&self) -> PendingV {
        PendingV { id: self.id, method: self.method@, issued_at: self.issued_at }
    }
}

/// The models of a pending table.
pub open spec fn view_pending_seq(s: Seq<PendingRequest>) -> Seq<PendingV>
    decreases s.len(),
{
    if s.len() == 0 {
        seq![]
    } else {
        seq![s[0]@] + view_pending_seq(s.skip(1))
    }
}

/// The model of a pending table, element by element.
pub proof fn lemma_view_pending_seq(s: Seq<PendingRequest>)
    ensures
        view_pending_seq(s).len() == s.len(),
        forall|i: int| 0 <= i < s.len() ==> #[trigger] view_pending_seq(s)[i] == s[i]@,
    decreases s.len(),
{
    if s.len() > 0 {
        lemma_view_pending_seq(s.skip(1));
    }
}

/// The index of the pending request with the given id, if any.
pub open spec fn idx_of(s: Seq<PendingV>, n: u64) -> Option<int>
    decreases s.len(),
{
    if s.len() == 0 {
        None
    } else if s[0].id == n {
        Some(0)
    } else {
        match idx_of(s.skip(1), n) {
            Some(j) => Some(j + 1),
            None => None,
        }
    }
}

/// A found index is in range and names the id searched for.
pub proof fn lemma_idx_of(s: Seq<PendingV>, n: u64)
    ensures
        match idx_of(s, n) {
            Some(j) => 0 <= j < s.len() && s[j].id == n,
            None => forall|i: int| 0 <= i < s.len() ==> (#[trigger] s[i]).id != n,
        },
    decreases s.len(),
{
    if s.len() > 0 {
        lemma_idx_of(s.skip(1), n);
        if s[0].id != n {
            match idx_of(s.skip(1), n) {
                Some(j) => {
                    assert(s[j + 1] == s.skip(1)[j]);
                },
                None => {
                    assert forall|i: int| 0 <= i < s.len() implies (#[trigger] s[i]).id != n by {
                        if i >= 1 {
                            assert(s[i] == s.skip(1)[i - 1]);
                        }
                    }
                },
            }
        }
    }
}

/// The request correlator.
pub struct Correlator {
    pub next_id: u64,
    pub pending: Vec<PendingRequest>,
}

impl Correlator {
    /// The model of the pending table.
    pub open spec fn pending_view(&self) -> Seq<PendingV> {
        view_pending_seq(self.pending@)
    }

    /// Well-formed: every pending id was allocated below the next free id,
    /// and no id repeats.
    pub open spec fn wf(&self) -> bool {
        &&& forall|i: int|
            0 <= i < self.pending_view().len() ==> (#[trigger] self.pending_view()[i]).id
                < self.next_id
        &&& forall|i: int, j: int|
            0 <= i < j < self.pending_view().len() ==> (#[trigger] self.pending_view()[i]).id != (
            #[trigger] self.pending_view()[j]).id
    }

    /// An empty correlator.
    pub fn new() -> (c: Correlator)
        ensures
            c.wf(),
            c.pending_view() == Seq::<PendingV>::empty(),
            c.next_id == 0,
    {
        let c = Correlator { next_id: 0, pending: Vec::new() };
        proof {
            lemma_view_pending_seq(c.pending@);
            assert(c.pending_view() =~= Seq::<PendingV>::empty());
        }
        c
    }

    /// Allocates a fresh id and registers the pending request. The id never
    /// repeats for the lifetime of the connection; when the id space is
    /// exhausted no request is sent.
    pub fn send_request(&mut self, method: Vec<u8>, issued_at: u64) -> (r: Option<u64>)
        requires
            old(self).wf(),
        ensures
            final(self).wf(),
            match r {
                Some(id) => {
                    &&& id == old(self).next_id
                    &&& final(self).next_id == id + 1
                    &&& final(self).pending_view() == old(self).pending_view().push(
                        PendingV { id, method: method@, issued_at },
                    )
                    &&& forall|i: int|
                        0 <= i < old(self).pending_view().len() ==> (#[trigger] old(
                            self,
                        ).pending_view()[i]).id != id
                },
                None => old(self).next_id == u64::MAX && *final(self) == *old(self),
            },
    {
        if self.next_id == u64::MAX {
            return None;
        }
        let id = self.next_id;
        let ghost prev = self.pending@;
        let p = PendingRequest { id, method, issued_at };
        let ghost pv = p@;
        self.pending.push(p);
        self.next_id = id + 1;
        proof {
            lemma_view_pending_push(prev, pv, self.pending@);
            lemma_view_pending_seq(prev);
            lemma_view_pending_seq(self.pending@);
        }
        Some(id)
    }

    /// Matches an incoming response id against the pending table: the
    /// matching pending request is removed and returned; an id of string
    /// form, an id out of range, or an unknown id resolves to nothing and
    /// changes nothing.
    #[verifier::loop_isolation(false)]
    pub fn resolve(&mut self, id: &RequestId) -> (r: Option<PendingRequest>)
        requires
            old(self).wf(),
        ensures
            final(self).wf(),
            final(self).next_id == old(self).next_id,
            match spec_resolve_idx(*old(self), id@) {
                Some(j) => {
                    &&& r matches Some(p) && p@ == old(self).pending_view()[j]
                    &&& final(self).pending_view() == old(self).pending_view().remove(j)
                },
                None => r is None && final(self).pending_view() == old(self).pending_view(),
            },
    {
        proof {
            lemma_view_pending_seq(self.pending@);
        }
        let n: u64 = match id {
            RequestId::Num(v) => {
                if *v < 0 {
                    proof {
                        lemma_idx_of(self.pending_view(), 0);
                    }
                    return None;
                }
                *v as u64
            },
            RequestId::Text(_) => {
                return None;
            },
        };
        let ghost pv = self.pending_view();
        proof {
            lemma_idx_of(pv, n);
        }
        let mut i: usize = 0;
        while i < self.pending.len()
            invariant
                i <= self.pending@.len(),
                self.pending@ == old(self).pending@,
                self.next_id == old(self).next_id,
                forall|j: int| 0 <= j < i ==> (#[trigger] pv[j]).id != n,
                pv == view_pending_seq(self.pending@),
                pv.len() == self.pending@.len(),
                forall|j: int| 0 <= j < pv.len() ==> #[trigger] pv[j] == self.pending@[j]@,
                old(self).wf(),
            decreases self.pending@.len() - i,
        {
            if self.pending[i].id == n {
                let ghost prev = self.pending@;
                let p = self.pending.remove(i);
                proof {
                    lemma_view_pending_remove(prev, i as int);
                    lemma_view_pending_seq(self.pending@);
                    assert(idx_of(pv, n) == Some(i as int)) by {
                        lemma_idx_of_first(pv, n, i as int);
                    }
                    assert(pv == old(self).pending_view());
                    assert(pv[i as int] == prev[i as int]@);
                    assert(p@ == pv[i as int]);
                    assert(view_pending_seq(self.pending@) == view_pending_seq(prev).remove(
                        i as int,
                    ));
                    let rm = pv.remove(i as int);
                    assert forall|k: int| 0 <= k < rm.len() implies (#[trigger] rm[k]).id
                        < self.next_id by {
                        if k < i {
                            assert(rm[k] == pv[k]);
                        } else {
                            assert(rm[k] == pv[k + 1]);
                        }
                    }
                    assert forall|a: int, b: int| 0 <= a < b < rm.len() implies (
                    #[trigger] rm[a]).id != (#[trigger] rm[b]).id by {
                        let a0: int = if a < i {
                            a
                        } else {
                            a + 1
                        };
                        let b0: int = if b < i {
                            b
                        } else {
                            b + 1
                        };
                        assert(rm[a] == pv[a0]);
                        assert(rm[b] == pv[b0]);
                    }
                }
                return Some(p);
            }
            i = i + 1;
        }
        proof {
            lemma_idx_of(pv, n);
        }
        None
    }

    /// Empties the pending table on connection teardown; every entry is
    /// handed back, in order, to be resolved as cancelled.
    pub fn teardown(&mut self) -> (cancelled: Vec<PendingRequest>)
        requires
            old(self).wf(),
        ensures
            final(self).wf(),
            final(self).next_id == old(self).next_id,
            final(self).pending_view() == Seq::<PendingV>::empty(),
            view_pending_seq(cancelled@) == old(self).pending_view(),
    {
        let out = self.pending.split_off(0);
        proof {
            assert(out@ =~= old(self).pending@);
            assert(self.pending@ =~= Seq::<PendingRequest>::empty());
            lemma_view_pending_seq(self.pending@);
            assert(self.pending_view() =~= Seq::<PendingV>::empty());
        }
        out
    }
}

/// Where a response id lands in the pending table, if anywhere.
pub open spec fn spec_resolve_idx(c: Correlator, id: RequestIdV) -> Option<int> {
    match id {
        RequestIdV::Num(v) => if v >= 0 {
            idx_of(c.pending_view(), v as u64)
        } else {
            None
        },
        RequestIdV::Text(_) => None,
    }
}

/// Modelling a pushed pending request pushes its model.
pub proof fn lemma_view_pending_push(prev: Seq<PendingRequest>, pv: PendingV, cur: Seq<
    PendingRequest,
>)
    requires
        cur.len() == prev.len() + 1,
        forall|i: int| 0 <= i < prev.len() ==> cur[i] == prev[i],
        cur[prev.len() as int]@ == pv,
    ensures
        view_pending_seq(cur) == view_pending_seq(prev).push(pv),
{
    lemma_view_pending_seq(prev);
    lemma_view_pending_seq(cur);
    assert(view_pending_seq(cur) =~= view_pending_seq(prev).push(pv));
}

/// Modelling a removed pending request removes its model.
pub proof fn lemma_view_pending_remove(prev: Seq<PendingRequest>, j: int)
    requires
        0 <= j < prev.len(),
    ensures
        view_pending_seq(prev.remove(j)) == view_pending_seq(prev).remove(j),
{
    lemma_view_pending_seq(prev);
    lemma_view_pending_seq(prev.remove(j));
    assert(view_pending_seq(prev.remove(j)) =~= view_pending_seq(prev).remove(j));
}

/// The first index whose id matches is what the index search names.
pub proof fn lemma_idx_of_first(s: Seq<PendingV>, n: u64, i: int)
    requires
        0 <= i < s.len(),
        s[i].id == n,
        forall|j: int| 0 <= j < i ==> (#[trigger] s[j]).id != n,
    ensures
        idx_of(s, n) == Some(i),
    decreases i,
{
    if i == 0 {
    } else {
        assert(s[0].id != n);
        assert forall|j: int| 0 <= j < i - 1 implies (#[trigger] s.skip(1)[j]).id != n by {
            assert(s.skip(1)[j] == s[j + 1]);
        }
        assert(s.skip(1)[i - 1] == s[i]);
        lemma_idx_of_first(s.skip(1), n, i - 1);
    }
}

} // verus!
