use vstd::prelude::*;
use vstd::seq_lib::group_to_multiset_ensures;
use vstd::multiset::group_multiset_axioms;

use crate::outcome::{ConnectAttempt, PortInformation, probe_outcome, status_of};

verus! {

broadcast use group_to_multiset_ensures, group_multiset_axioms;

/// The port numbers of a sequence of outcomes, in order.
pub open spec fn ids(s: Seq<PortInformation>) -> Seq<u16> {
    s.map_values(|p: PortInformation| p.id)
}

/// The schedule of one work group: the probes of one chunk of ports, at
/// most `limit` of them in flight at once. Whenever a probe completes and
/// ports are still waiting, the next one is started at once, so that the
/// group keeps `min(limit, remaining)` probes in flight.
pub struct WorkGroup {
    chunk: Vec<u16>,
    next: usize,
    limit: usize,
    in_flight: Vec<u16>,
    outcomes: Vec<PortInformation>,
}

impl WorkGroup {
    /// The ports of the chunk, in order.
    pub closed spec fn chunk(&self) -> Seq<u16> {
        self.chunk@
    }

    /// How many ports of the chunk have been started.
    pub closed spec fn started(&self) -> nat {
        self.next as nat
    }

    /// The bound on probes in flight.
    pub closed spec fn limit(&self) -> nat {
        self.limit as nat
    }

    /// The ports whose probes are in flight.
    pub closed spec fn in_flight(&self) -> Seq<u16> {
        self.in_flight@
    }

    /// The outcomes collected so far, in completion order.
    pub closed spec fn outcomes(&self) -> Seq<PortInformation> {
        self.outcomes@
    }

    /// The ports started so far are exactly those in flight and those with an
    /// outcome; at most `limit` are in flight, and fewer only once every
    /// port has been started.
    pub closed spec fn wf(&self) -> bool {
        &&& self.limit > 0
        &&& self.next <= self.chunk@.len()
        &&& self.in_flight@.len() <= self.limit
        &&& self.next < self.chunk@.len() ==> self.in_flight@.len() == self.limit
        &&& self.chunk@.take(self.next as int).to_multiset() =~= self.in_flight@.to_multiset().add(
            ids(self.outcomes@).to_multiset(),
        )
    }

    /// What a well-formed group keeps: never more than `limit` probes in
    /// flight, exactly `limit` while ports still wait, and every port
    /// started so far either in flight or among the outcomes, as often as
    /// the chunk holds it.
    pub proof fn lemma_schedule_bounds(&self)
        requires
            self.wf(),
        ensures
            self.limit() > 0,
            self.started() <= self.chunk().len(),
            self.in_flight().len() <= self.limit(),
            self.started() < self.chunk().len() ==> self.in_flight().len() == self.limit(),
            self.chunk().take(self.started() as int).to_multiset() == self.in_flight().to_multiset().add(
                ids(self.outcomes()).to_multiset(),
            ),
            self.in_flight().len() + self.outcomes().len() == self.started(),
    {
        assert(self.chunk@.take(self.next as int).to_multiset().len() == self.next);
        assert(ids(self.outcomes@).to_multiset().len() == self.outcomes@.len());
    }

    /// Every port has been started and every probe has completed.
    pub open spec fn done(&self) -> bool {
        &&& self.started() == self.chunk().len()
        &&& self.in_flight().len() == 0
    }

    /// Starts a group over `chunk`. The second part of the result holds the
    /// ports to probe at once: the first `min(limit, chunk.len())` of them.
    pub fn new(chunk: Vec<u16>, limit: usize) -> (r: (WorkGroup, Vec<u16>))
        requires
            limit > 0,
        ensures
            r.0.wf(),
            r.0.chunk() == chunk@,
            r.0.limit() == limit,
            r.0.outcomes().len() == 0,
            r.1@ == chunk@.take(
                if chunk@.len() < limit {
                    chunk@.len() as int
                } else {
                    limit as int
                },
            ),
            r.0.in_flight() == r.1@,
            r.0.started() == r.1@.len(),
    {
        let first: usize = if chunk.len() < limit {
            chunk.len()
        } else {
            limit
        };
        let mut in_flight: Vec<u16> = Vec::new();
        let mut launch: Vec<u16> = Vec::new();
        let mut i: usize = 0;
        while i < first
            invariant
                first <= chunk@.len(),
                i <= first,
                in_flight@ == chunk@.take(i as int),
                launch@ == in_flight@,
            decreases first - i,
        {
            in_flight.push(chunk[i]);
            launch.push(chunk[i]);
            i = i + 1;
            assert(in_flight@ =~= chunk@.take(i as int));
        }
        let outcomes: Vec<PortInformation> = Vec::new();
        let g = WorkGroup { chunk, next: first, limit, in_flight, outcomes };
        proof {
            assert(ids(g.outcomes@) =~= Seq::<u16>::empty());
            assert(g.chunk@.take(first as int).to_multiset() =~= g.in_flight@.to_multiset().add(
                ids(g.outcomes@).to_multiset(),
            ));
        }
        (g, launch)
    }

    /// Whether a probe of `port` is in flight.
    pub fn is_in_flight(&self, port: u16) -> (r: bool)
        ensures
            r == self.in_flight().contains(port),
    {
        let mut i: usize = 0;
        while i < self.in_flight.len()
            invariant
                i <= self.in_flight@.len(),
                forall|k: int| 0 <= k < i ==> self.in_flight@[k] != port,
            decreases self.in_flight@.len() - i,
        {
            if self.in_flight[i] == port {
                return true;
            }
            i = i + 1;
        }
        false
    }

    /// Whether every probe of the group has completed.
    pub fn is_done(&self) -> (r: bool)
        requires
            self.wf(),
        ensures
            r == self.done(),
    {
        self.next == self.chunk.len() && self.in_flight.len() == 0
    }

    /// Records that the probe of `port` ended with `attempt`, and returns the
    /// port to start next, if any is still waiting.
    pub fn complete(&mut self, port: u16, attempt: ConnectAttempt) -> (r: Option<u16>)
        requires
            old(self).wf(),
            old(self).in_flight().contains(port),
        ensures
            final(self).wf(),
            final(self).chunk() == old(self).chunk(),
            final(self).limit() == old(self).limit(),
            final(self).outcomes() == old(self).outcomes().push(
                PortInformation { id: port, status: status_of(attempt) },
            ),
            r == (if old(self).started() < old(self).chunk().len() {
                Some(old(self).chunk()[old(self).started() as int])
            } else {
                None
            }),
            final(self).started() == old(self).started() + (if r is Some {
                1nat
            } else {
                0nat
            }),
            final(self).in_flight().to_multiset() == (match r {
                Some(p) => old(self).in_flight().to_multiset().remove(port).insert(p),
                None => old(self).in_flight().to_multiset().remove(port),
            }),
            forall|q: u16|
                q != port ==> (#[trigger] final(self).in_flight().contains(q) <==> (old(
                    self,
                ).in_flight().contains(q) || r == Some(q))),
            final(self).in_flight().len() == old(self).in_flight().len() - (if r is Some {
                0int
            } else {
                1int
            }),
    {
        let ghost old_ids = ids(self.outcomes@);
        let ghost old_flight = self.in_flight@;
        let len = self.in_flight.len();
        let mut idx: usize = 0;
        while self.in_flight[idx] != port
            invariant
                len == self.in_flight@.len(),
                idx < len,
                exists|k: int| idx <= k < self.in_flight@.len() && self.in_flight@[k] == port,
            decreases self.in_flight@.len() - idx,
        {
            idx = idx + 1;
        }
        self.in_flight.remove(idx);
        let outcome = probe_outcome(port, attempt);
        self.outcomes.push(outcome);
        proof {
            assert(ids(self.outcomes@) =~= old_ids.push(port));
        }
        proof {
            assert forall|q: u16| q != port implies (self.in_flight@.contains(q) <==> old_flight.contains(q)) by {
                assert(self.in_flight@.to_multiset().count(q) == old_flight.to_multiset().count(q));
            }
        }
        if self.next < self.chunk.len() {
            let p = self.chunk[self.next];
            let ghost removed = self.in_flight@;
            self.in_flight.push(p);
            proof {
                assert forall|q: u16| #[trigger] self.in_flight@.contains(q) <==> (removed.contains(q) || q == p) by {
                    if removed.contains(q) {
                        let k = choose|k: int| 0 <= k < removed.len() && removed[k] == q;
                        assert(self.in_flight@[k] == q);
                    }
                    if q == p {
                        assert(self.in_flight@[removed.len() as int] == q);
                    }
                }
                assert(self.chunk@.take(self.next + 1) =~= self.chunk@.take(self.next as int).push(
                    p,
                ));
            }
            self.next = self.next + 1;
            Some(p)
        } else {
            None
        }
    }

    /// The outcomes of a finished group: one per port of the chunk, each
    /// port as often as the chunk holds it, in completion order.
    pub fn into_outcomes(self) -> (r: Vec<PortInformation>)
        requires
            self.wf(),
            self.done(),
        ensures
            r@ == self.outcomes(),
            ids(r@).to_multiset() == self.chunk().to_multiset(),
            r@.len() == self.chunk().len(),
    {
        proof {
            assert(self.chunk@.take(self.next as int) =~= self.chunk@);
            assert(ids(self.outcomes@).len() == self.outcomes@.len());
            assert(self.in_flight@.to_multiset().len() == 0);
            assert(ids(self.outcomes@).to_multiset().len() == ids(self.outcomes@).len());
            assert(self.chunk@.to_multiset().len() == self.chunk@.len());
        }
        self.outcomes
    }
}

} // verus!
