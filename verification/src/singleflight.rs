//! The in-flight fetch table: at most one upstream fetch per descriptor.
//!
//! The first request for a missing descriptor becomes the leader and
//! performs the fetch; every request arriving while that fetch is in
//! flight attaches to it instead of fetching again.
use vstd::prelude::*;
use crate::fileid::FileId;

verus! {

/// What a request must do about a missing descriptor.
#[derive(Clone, Copy, PartialEq, Eq, Structural, Debug)]
pub enum BeginFetch {
    /// No fetch was in flight: perform the upstream fetch.
    Lead,
    /// A fetch is already in flight: await its completion.
    Attach,
}

/// Is a fetch for `id` in flight?
pub open spec fn in_flight(s: Seq<FileId>, id: FileId) -> bool {
    exists|i: int| 0 <= i < s.len() && s[i].eqv(id)
}

/// The table of descriptors whose fetch is in flight.
pub struct FlightTable {
    pub inflight: Vec<FileId>,
}

impl FlightTable {
    /// Invariant: one slot per descriptor.
    pub open spec fn wf(&self) -> bool {
        forall|i: int, j: int|
            0 <= i < j < self.inflight@.len() ==> !self.inflight@[i].eqv(self.inflight@[j])
    }

    pub fn new() -> (r: FlightTable)
        ensures
            r.wf(),
            r.inflight@.len() == 0,
    {
        FlightTable { inflight: Vec::new() }
    }

    fn find(&self, id: &FileId) -> (r: Option<usize>)
        ensures
            r matches Some(i) ==> i < self.inflight@.len() && self.inflight@[i as int].eqv(*id),
            r is None ==> !in_flight(self.inflight@, *id),
    {
        let n = self.inflight.len();
        let mut i: usize = 0;
        while i < n
            invariant
                i <= n,
                n == self.inflight@.len(),
                forall|j: int| 0 <= j < i ==> !self.inflight@[j].eqv(*id),
            decreases n - i,
        {
            if self.inflight[i].same(id) {
                return Some(i);
            }
            i = i + 1;
        }
        None
    }

    /// Registers interest in fetching `id`.
    ///
    /// Leads exactly when no fetch for `id` was in flight; afterwards
    /// one is, either way.
    pub fn begin(&mut self, id: &FileId) -> (r: BeginFetch)
        requires
            old(self).wf(),
        ensures
            final(self).wf(),
            r == BeginFetch::Lead <==> !in_flight(old(self).inflight@, *id),
            in_flight(final(self).inflight@, *id),
            r == BeginFetch::Lead ==> final(self).inflight@.len() == old(self).inflight@.len()
                + 1 && final(self).inflight@.drop_last() == old(self).inflight@
                && final(self).inflight@.last().eqv(*id),
            r == BeginFetch::Attach ==> final(self).inflight@ == old(self).inflight@,
    {
        match self.find(id) {
            Some(i) => {
                proof {
                    assert(in_flight(self.inflight@, *id));
                }
                BeginFetch::Attach
            }
            None => {
                let c = id.clone_id();
                self.inflight.push(c);
                proof {
                    let s = self.inflight@;
                    assert(s[s.len() - 1].eqv(*id));
                    assert(s.drop_last() =~= old(self).inflight@);
                    assert forall|i: int, j: int|
                        0 <= i < j < s.len() implies !s[i].eqv(s[j]) by {
                        if j < s.len() - 1 {
                            assert(s[i] == old(self).inflight@[i] && s[j] == old(
                                self,
                            ).inflight@[j]);
                        } else {
                            assert(s[i] == old(self).inflight@[i]);
                            if s[i].eqv(s[j]) {
                                assert(in_flight(old(self).inflight@, *id));
                            }
                        }
                    }
                }
                BeginFetch::Lead
            }
        }
    }

    /// Marks the fetch of `id` finished, waking every attached awaiter.
    pub fn complete(&mut self, id: &FileId)
        requires
            old(self).wf(),
        ensures
            final(self).wf(),
            !in_flight(final(self).inflight@, *id),
            in_flight(old(self).inflight@, *id) ==> exists|i: int|
                0 <= i < old(self).inflight@.len() && old(self).inflight@[i].eqv(*id)
                    && final(self).inflight@ == old(self).inflight@.remove(i),
            !in_flight(old(self).inflight@, *id) ==> final(self).inflight@ == old(
                self,
            ).inflight@,
    {
        let idx = match self.find(id) {
            Some(i) => i,
            None => {
                return ;
            }
        };
        self.inflight.remove(idx);
        proof {
            let s = old(self).inflight@;
            assert(self.inflight@ =~= s.remove(idx as int));
            assert forall|j: int|
                0 <= j < self.inflight@.len() implies !(#[trigger] self.inflight@[j].eqv(
                *id,
            )) by {
                if j < idx {
                    assert(self.inflight@[j] == s[j]);
                    assert(!s[j].eqv(s[idx as int]));
                } else {
                    assert(self.inflight@[j] == s[j + 1]);
                    assert(!s[idx as int].eqv(s[j + 1]));
                }
            }
        }
    }
}

/// Single flight: once a request led the fetch of `id`, every request
/// that arrives before completion attaches; none leads a second fetch.
pub proof fn lemma_single_flight(t: FlightTable, id: FileId)
    requires
        t.wf(),
        in_flight(t.inflight@, id),
    ensures
        forall|u: FileId| u.eqv(id) ==> in_flight(t.inflight@, u),
{
    assert forall|u: FileId| u.eqv(id) implies in_flight(t.inflight@, u) by {
        let i = choose|i: int| 0 <= i < t.inflight@.len() && t.inflight@[i].eqv(id);
        assert(t.inflight@[i].eqv(u));
    }
}

} // verus!
