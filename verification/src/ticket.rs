use vstd::prelude::*;

verus! {

/// Issues and retires correlation tickets. A free-list allocator bounded
/// by the completion depth: it is the backpressure that keeps the number
/// of outstanding operations within what the completion ring can track.
pub struct TicketQueue {
    /// Tickets currently free for issue; a stack, top at the end.
    pub free: Vec<usize>,
    /// Total number of tickets, equal to the negotiated completion depth.
    pub depth: usize,
}

impl TicketQueue {
    /// Free tickets are distinct and within `0..depth`.
    pub open spec fn wf(self) -> bool {
        &&& 1 <= self.depth <= 65536
        &&& self.free@.len() <= self.depth
        &&& self.free@.no_duplicates()
        &&& forall|i: int| 0 <= i < self.free@.len() ==> self.free@[i] < self.depth
    }

    /// Ticket `t` is currently free for issue.
    pub open spec fn is_free(self, t: usize) -> bool {
        self.free@.contains(t)
    }

    /// All tickets free, none outstanding.
    pub fn new(depth: usize) -> (r: TicketQueue)
        requires
            1 <= depth <= 65536,
        ensures
            r.wf(),
            r.depth == depth,
            r.free@.len() == depth,
            forall|t: usize| r.is_free(t) <==> t < depth,
    {
        let mut free: Vec<usize> = Vec::new();
        let mut i: usize = 0;
        while i < depth
            invariant
                i <= depth,
                free@.len() == i,
                forall|j: int| 0 <= j < i ==> free@[j] == j,
            decreases depth - i,
        {
            free.push(i);
            i = i + 1;
        }
        let r = TicketQueue { free, depth };
        proof {
            assert forall|t: usize| r.is_free(t) <==> t < depth by {
                if t < depth {
                    assert(r.free@[t as int] == t);
                }
            }
        }
        r
    }

    pub fn free_count(&self) -> (n: usize)
        ensures
            n == self.free@.len(),
    {
        self.free.len()
    }

    /// Hand out the next free ticket, or report exhaustion. Exhaustion is
    /// backpressure, never silent loss: the caller blocks or fails by its
    /// own policy and retries.
    pub fn try_next(&mut self) -> (r: Option<usize>)
        requires
            old(self).wf(),
        ensures
            final(self).wf(),
            final(self).depth == old(self).depth,
            r is None <==> old(self).free@.len() == 0,
            r is None ==> final(self).free@ == old(self).free@,
            r matches Some(t) ==> {
                &&& t < old(self).depth
                &&& old(self).is_free(t)
                &&& !final(self).is_free(t)
                &&& final(self).free@ == old(self).free@.drop_last()
                &&& forall|u: usize| u != t ==> (final(self).is_free(u) <==> old(self).is_free(u))
            },
    {
        let r = self.free.pop();
        proof {
            if let Some(t) = r {
                let prior = old(self).free@;
                assert(prior[prior.len() - 1] == t);
                assert(!final(self).is_free(t)) by {
                    if final(self).free@.contains(t) {
                        let i = choose|i: int|
                            0 <= i < final(self).free@.len() && final(self).free@[i] == t;
                        assert(prior[i] == prior[prior.len() - 1]);
                    }
                }
                assert forall|u: usize| u != t implies (final(self).is_free(u) <==> old(
                    self,
                ).is_free(u)) by {
                    if final(self).free@.contains(u) {
                        let i = choose|i: int|
                            0 <= i < final(self).free@.len() && final(self).free@[i] == u;
                        assert(prior[i] == u);
                    }
                    if prior.contains(u) {
                        let i = choose|i: int| 0 <= i < prior.len() && prior[i] == u;
                        assert(i < prior.len() - 1);
                        assert(final(self).free@[i] == u);
                    }
                }
            }
        }
        r
    }

    /// Return a retired ticket to the free list. The caller must have
    /// taken it out of every tracking structure first: a ticket is never
    /// reissued while its prior in-flight entry still exists.
    pub fn retire(&mut self, t: usize)
        requires
            old(self).wf(),
            t < old(self).depth,
            !old(self).is_free(t),
            old(self).free@.len() < old(self).depth,
        ensures
            final(self).wf(),
            final(self).depth == old(self).depth,
            final(self).free@ == old(self).free@.push(t),
            final(self).is_free(t),
            forall|u: usize| u != t ==> (final(self).is_free(u) <==> old(self).is_free(u)),
    {
        self.free.push(t);
        proof {
            let now = final(self).free@;
            let prior = old(self).free@;
            assert(now[now.len() - 1] == t);
            assert(now.no_duplicates()) by {
                assert forall|i: int, j: int|
                    0 <= i < now.len() && 0 <= j < now.len() && i != j implies now[i] != now[j] by {
                    if i < now.len() - 1 && j < now.len() - 1 {
                        assert(prior[i] == now[i] && prior[j] == now[j]);
                    } else if i == now.len() - 1 && j < now.len() - 1 {
                        assert(prior.contains(prior[j]));
                    } else if j == now.len() - 1 && i < now.len() - 1 {
                        assert(prior.contains(prior[i]));
                    }
                }
            }
            assert forall|u: usize| u != t implies (final(self).is_free(u) <==> old(
                self,
            ).is_free(u)) by {
                if now.contains(u) {
                    let i = choose|i: int| 0 <= i < now.len() && now[i] == u;
                    assert(i < now.len() - 1);
                    assert(prior[i] == u);
                }
                if prior.contains(u) {
                    let i = choose|i: int| 0 <= i < prior.len() && prior[i] == u;
                    assert(now[i] == u);
                }
            }
        }
    }
}

} // verus!
