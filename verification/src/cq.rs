use vstd::prelude::*;

use crate::in_flight::InFlightTable;
use crate::ring::CompletionEntry;
use crate::ring::Ring;
use crate::ticket::TicketQueue;

verus! {

/// The tickets named by a stretch of completion ring entries.
pub open spec fn comp_tickets(s: Seq<CompletionEntry>) -> Seq<usize> {
    s.map_values(|e: CompletionEntry| e.ticket)
}

/// One resolved completion, handed to the waiting party: the ticket that
/// was issued at submission, the destination recorded for it, and the
/// result code the kernel reported.
#[derive(Clone, Copy, Debug, PartialEq, Eq, Structural)]
pub struct Delivery {
    pub ticket: usize,
    pub dest: u64,
    pub result: i32,
}

/// What draining the entry `e` delivers, given the in-flight table at
/// the start of the pass.
pub open spec fn resolution_of(e: CompletionEntry, inf: InFlightTable) -> Delivery {
    Delivery { ticket: e.ticket, dest: inf.dest_of(e.ticket), result: e.result }
}

/// Consumer side of the ring: drains published completion entries,
/// resolves their tickets against the in-flight table, and retires the
/// tickets. At most one drain of a given queue may run at any instant;
/// exclusive access (`&mut`) enforces that here.
pub struct CompletionQueue {
    pub ring: Ring<CompletionEntry>,
}

impl CompletionQueue {
    pub open spec fn wf(self) -> bool {
        self.ring.wf()
    }

    /// An empty queue of the negotiated completion depth.
    pub fn new(capacity: usize) -> (r: CompletionQueue)
        requires
            1 <= capacity <= 65536,
        ensures
            r.wf(),
            r.ring@ == Seq::<CompletionEntry>::empty(),
            r.ring.capacity() == capacity,
    {
        CompletionQueue { ring: Ring::new(capacity, CompletionEntry { ticket: 0, result: 0 }) }
    }

    pub fn available(&self) -> (n: usize)
        ensures
            n == self.ring@.len(),
    {
        self.ring.available()
    }

    /// One drain pass: consume every currently published completion
    /// entry, remove the matching in-flight slot, deliver the result,
    /// and retire the ticket. Returns the processed count.
    ///
    /// An entry whose ticket has no in-flight slot would be a protocol
    /// violation, to be reported and never dropped; the preconditions
    /// here say every published ticket is tracked, so the proof
    /// discharges that case as impossible rather than reachable.
    pub fn reaper_iter(
        &mut self,
        in_flight: &mut InFlightTable,
        tickets: &mut TicketQueue,
        delivered: &mut Vec<Delivery>,
    ) -> (n: usize)
        requires
            old(self).wf(),
            old(in_flight).wf(),
            old(tickets).wf(),
            old(in_flight).depth() == old(tickets).depth,
            comp_tickets(old(self).ring@).no_duplicates(),
            forall|i: int|
                0 <= i < old(self).ring@.len() ==> old(in_flight).waiting(
                    #[trigger] old(self).ring@[i].ticket,
                ),
            forall|t: usize| old(in_flight).waiting(t) ==> !old(tickets).is_free(t),
            old(tickets).free@.len() + old(self).ring@.len() <= old(tickets).depth,
        ensures
            final(self).wf(),
            final(in_flight).wf(),
            final(tickets).wf(),
            final(self).ring@.len() == 0,
            final(self).ring.capacity() == old(self).ring.capacity(),
            final(in_flight).depth() == old(in_flight).depth(),
            final(tickets).depth == old(tickets).depth,
            n == old(self).ring@.len(),
            final(delivered)@ == old(delivered)@ + Seq::new(
                n as nat,
                |j: int| resolution_of(old(self).ring@[j], *old(in_flight)),
            ),
            forall|t: usize|
                #![trigger final(in_flight).waiting(t)]
                #![trigger old(in_flight).waiting(t)]
                final(in_flight).waiting(t) <==> (old(in_flight).waiting(t) && !comp_tickets(
                    old(self).ring@,
                ).contains(t)),
            forall|t: usize|
                final(in_flight).waiting(t) ==> final(in_flight).dest_of(t) == old(
                    in_flight,
                ).dest_of(t),
            forall|t: usize|
                #![trigger final(tickets).is_free(t)]
                #![trigger old(tickets).is_free(t)]
                final(tickets).is_free(t) <==> (old(tickets).is_free(t) || comp_tickets(
                    old(self).ring@,
                ).contains(t)),
            final(tickets).free@.len() == old(tickets).free@.len() + n,
    {
        let ghost cq0 = old(self).ring@;
        let ghost inf0 = *old(in_flight);
        let ghost tq0 = *old(tickets);
        let ghost del0 = old(delivered)@;
        let ghost cap0 = old(self).ring.capacity();
        let mut n: usize = 0;
        while self.ring.len > 0
            invariant
                self.ring.wf(),
                in_flight.wf(),
                tickets.wf(),
                inf0.wf(),
                tq0.wf(),
                in_flight.depth() == tq0.depth,
                inf0.depth() == tq0.depth,
                tickets.depth == tq0.depth,
                self.ring.capacity() == cap0,
                n <= cq0.len(),
                self.ring@ == cq0.subrange(n as int, cq0.len() as int),
                delivered@ == del0 + Seq::new(n as nat, |j: int| resolution_of(cq0[j], inf0)),
                comp_tickets(cq0).no_duplicates(),
                forall|i: int| 0 <= i < cq0.len() ==> inf0.waiting(#[trigger] cq0[i].ticket),
                forall|t: usize| inf0.waiting(t) ==> !tq0.is_free(t),
                tq0.free@.len() + cq0.len() <= tq0.depth,
                forall|t: usize|
                    #![trigger in_flight.waiting(t)]
                    #![trigger inf0.waiting(t)]
                    in_flight.waiting(t) <==> (inf0.waiting(t) && !comp_tickets(
                        cq0.subrange(0, n as int),
                    ).contains(t)),
                forall|t: usize|
                    #![trigger in_flight.dest_of(t)]
                    #![trigger inf0.dest_of(t)]
                    in_flight.waiting(t) ==> in_flight.dest_of(t) == inf0.dest_of(t),
                forall|t: usize|
                    #![trigger tickets.is_free(t)]
                    #![trigger tq0.is_free(t)]
                    tickets.is_free(t) <==> (tq0.is_free(t) || comp_tickets(
                        cq0.subrange(0, n as int),
                    ).contains(t)),
                tickets.free@.len() == tq0.free@.len() + n,
            decreases self.ring.len,
        {
            let ghost pre = cq0.subrange(0, n as int);
            let e = self.ring.consume();
            let t = e.ticket;
            proof {
                assert(cq0.subrange(n as int, cq0.len() as int)[0] == cq0[n as int]);
                assert(e == cq0[n as int]);
                assert(inf0.waiting(t));
                // `t` is not among the already drained tickets: the
                // published tickets are distinct.
                assert(!comp_tickets(pre).contains(t)) by {
                    if comp_tickets(pre).contains(t) {
                        let i = choose|i: int|
                            0 <= i < comp_tickets(pre).len() && comp_tickets(pre)[i] == t;
                        assert(comp_tickets(cq0)[i] == t);
                        assert(comp_tickets(cq0)[n as int] == t);
                    }
                }
                assert(in_flight.waiting(t));
            }
            let got = in_flight.remove(t);
            match got {
                Some(dest) => {
                    proof {
                        assert(!tq0.is_free(t));
                        assert(!comp_tickets(pre).contains(t));
                        assert(!tickets.is_free(t));
                    }
                    tickets.retire(t);
                    delivered.push(Delivery { ticket: t, dest, result: e.result });
                    n = n + 1;
                    proof {
                        let prenew = cq0.subrange(0, n as int);
                        assert(prenew =~= pre.push(cq0[n - 1]));
                        assert forall|u: usize|
                            comp_tickets(prenew).contains(u) <==> (comp_tickets(pre).contains(u)
                                || u == t) by {
                            if comp_tickets(prenew).contains(u) {
                                let i = choose|i: int|
                                    0 <= i < comp_tickets(prenew).len() && comp_tickets(
                                        prenew,
                                    )[i] == u;
                                if i < pre.len() {
                                    assert(comp_tickets(pre)[i] == u);
                                }
                            }
                            if comp_tickets(pre).contains(u) {
                                let i = choose|i: int|
                                    0 <= i < comp_tickets(pre).len() && comp_tickets(pre)[i] == u;
                                assert(comp_tickets(prenew)[i] == u);
                            }
                            if u == t {
                                assert(comp_tickets(prenew)[prenew.len() - 1] == u);
                            }
                        }
                        assert(self.ring@ =~= cq0.subrange(n as int, cq0.len() as int));
                        assert(delivered@ =~= del0 + Seq::new(
                            n as nat,
                            |j: int| resolution_of(cq0[j], inf0),
                        ));
                    }
                },
                None => {
                    proof {
                        // Protocol violation: completion for an untracked
                        // ticket. The preconditions rule it out.
                        assert(false);
                    }
                },
            }
        }
        proof {
            assert(n == cq0.len());
            assert(cq0.subrange(0, n as int) =~= cq0);
        }
        n
    }
}

} // verus!
