use vstd::prelude::*;

use core::ops::ControlFlow;

use crate::config::has_flag;
use crate::config::Config;
use crate::config::RingParams;
use crate::config::IORING_SETUP_SQPOLL;
use crate::cq::comp_tickets;
use crate::cq::resolution_of;
use crate::cq::CompletionQueue;
use crate::cq::Delivery;
use crate::in_flight::InFlightTable;
use crate::ring::CompletionEntry;
use crate::ring::SubmissionEntry;
use crate::sq::sub_tickets;
use crate::sq::SubmissionQueue;
use crate::ticket::TicketQueue;

verus! {

/// Why a submission was refused. Capacity exhaustion is policy-driven
/// backpressure, never silent loss: the caller blocks and retries, or
/// gives up, by its own choice.
#[derive(Clone, Copy, Debug, PartialEq, Eq, Structural)]
pub enum SubmitError {
    /// The submission ring has no free slot until the kernel consumes one.
    SubmissionRingFull,
    /// Every ticket is outstanding: as many operations are in flight as
    /// the completion ring can track.
    NoFreeTickets,
}

/// The engine: the configuration snapshot, the negotiated flags, both
/// ring sides, the in-flight table and the ticket allocator, plus the
/// modeled kernel side of the rings (`running`) and the outbox of
/// resolved results (`delivered`).
///
/// Sharing between many submitting threads and one draining party is
/// the owner's business: exclusive access (`&mut`) stands for the
/// serialization that locks and atomics provide in a multithreaded
/// deployment.
pub struct Engine {
    pub config: Config,
    pub flags: u32,
    pub sq: SubmissionQueue,
    pub cq: CompletionQueue,
    pub in_flight: InFlightTable,
    pub tickets: TicketQueue,
    /// Operations the kernel has consumed from the submission ring and
    /// not yet completed; it completes them in any order.
    pub running: Vec<SubmissionEntry>,
    /// Results delivered by drain passes, awaiting pickup by the
    /// waiting parties.
    pub delivered: Vec<Delivery>,
    /// The ring has been torn down; no further work flows.
    pub shut_down: bool,
}

impl Engine {
    /// Number of tickets, equal to the negotiated completion depth.
    pub open spec fn depth(self) -> int {
        self.tickets.depth as int
    }

    pub open spec fn sq_tickets(self) -> Seq<usize> {
        sub_tickets(self.sq.ring@)
    }

    pub open spec fn run_tickets(self) -> Seq<usize> {
        sub_tickets(self.running@)
    }

    pub open spec fn cq_tickets(self) -> Seq<usize> {
        comp_tickets(self.cq.ring@)
    }

    /// Ticket `t` sits in some stage of the pipeline: published for
    /// submission, running in the kernel, or published for completion.
    pub open spec fn staged(self, t: usize) -> bool {
        self.sq_tickets().contains(t) || self.run_tickets().contains(t)
            || self.cq_tickets().contains(t)
    }

    /// Operations somewhere in the pipeline.
    pub open spec fn outstanding(self) -> int {
        self.sq.ring@.len() + self.running@.len() + self.cq.ring@.len() as int
    }

    /// The engine's invariant. Every outstanding ticket sits in exactly
    /// one stage; a ticket is free exactly when no operation holds it;
    /// and free tickets plus outstanding operations account for the
    /// whole depth, so the completion ring always has room for every
    /// completion the kernel can produce.
    pub open spec fn wf(self) -> bool {
        &&& self.tickets.wf()
        &&& self.in_flight.wf()
        &&& self.sq.wf()
        &&& self.cq.wf()
        &&& self.in_flight.depth() == self.tickets.depth
        &&& self.cq.ring.capacity() == self.tickets.depth
        &&& self.sq.sq_poll == has_flag(self.flags, IORING_SETUP_SQPOLL)
        &&& self.sq_tickets().no_duplicates()
        &&& self.run_tickets().no_duplicates()
        &&& self.cq_tickets().no_duplicates()
        &&& (forall|t: usize| #[trigger]
            self.run_tickets().contains(t) ==> !self.sq_tickets().contains(t))
        &&& (forall|t: usize| #[trigger]
            self.cq_tickets().contains(t) ==> !self.sq_tickets().contains(t)
                && !self.run_tickets().contains(t))
        &&& (forall|t: usize|
            #![trigger self.in_flight.waiting(t)]
            #![trigger self.sq_tickets().contains(t)]
            #![trigger self.run_tickets().contains(t)]
            #![trigger self.cq_tickets().contains(t)]
            self.in_flight.waiting(t) <==> (self.sq_tickets().contains(t)
                || self.run_tickets().contains(t) || self.cq_tickets().contains(t)))
        &&& (forall|t: usize|
            #![trigger self.tickets.is_free(t)]
            #![trigger self.in_flight.waiting(t)]
            t < self.tickets.depth ==> (self.tickets.is_free(t) <==> !self.in_flight.waiting(t)))
        &&& self.tickets.free@.len() + self.outstanding() == self.depth()
    }

    /// Wire the components to the granted ring parameters: tables and
    /// completion ring sized to the granted completion depth, submission
    /// ring to the granted submission depth, everything empty, every
    /// ticket free.
    pub fn assemble(config: Config, granted: RingParams) -> (e: Engine)
        requires
            1 <= granted.sq_entries <= 65536,
            1 <= granted.cq_entries <= 65536,
        ensures
            e.wf(),
            e.config == config,
            e.flags == granted.flags,
            !e.shut_down,
            e.tickets.depth == granted.cq_entries,
            e.sq.ring.capacity() == granted.sq_entries,
            e.cq.ring.capacity() == granted.cq_entries,
            e.sq.sq_poll == has_flag(granted.flags, IORING_SETUP_SQPOLL),
            e.sq.poller_awake,
            e.sq.ring@.len() == 0,
            e.cq.ring@.len() == 0,
            e.running@.len() == 0,
            e.delivered@.len() == 0,
            e.tickets.free@.len() == granted.cq_entries,
            forall|t: usize| e.tickets.is_free(t) <==> t < granted.cq_entries,
            forall|t: usize| !e.in_flight.waiting(t),
    {
        let depth = granted.cq_entries as usize;
        let sq_poll = granted.flags & IORING_SETUP_SQPOLL != 0;
        let e = Engine {
            config,
            flags: granted.flags,
            sq: SubmissionQueue::new(granted.sq_entries as usize, sq_poll),
            cq: CompletionQueue::new(depth),
            in_flight: InFlightTable::new(depth),
            tickets: TicketQueue::new(depth),
            running: Vec::new(),
            delivered: Vec::new(),
            shut_down: false,
        };
        proof {
            assert(e.sq_tickets().len() == 0);
            assert(e.run_tickets().len() == 0);
            assert(e.cq_tickets().len() == 0);
            assert(e.wf());
        }
        e
    }

    /// Submit one operation: allocate a ticket, record the delivery
    /// destination (atomic with submission), and publish the descriptor.
    /// Refusals are backpressure, and leave the engine exactly as it
    /// was.
    pub fn submit(&mut self, op: u64, dest: u64) -> (r: Result<usize, SubmitError>)
        requires
            old(self).wf(),
            !old(self).shut_down,
        ensures
            final(self).wf(),
            final(self).config == old(self).config,
            final(self).flags == old(self).flags,
            final(self).shut_down == old(self).shut_down,
            final(self).tickets.depth == old(self).tickets.depth,
            final(self).sq.ring.capacity() == old(self).sq.ring.capacity(),
            final(self).sq.sq_poll == old(self).sq.sq_poll,
            final(self).cq.ring@ == old(self).cq.ring@,
            final(self).cq.ring.capacity() == old(self).cq.ring.capacity(),
            final(self).running@ == old(self).running@,
            final(self).delivered@ == old(self).delivered@,
            (r matches Err(x) && x == SubmitError::SubmissionRingFull) <==> old(self).sq.ring@.len()
                == old(self).sq.ring.capacity(),
            (r matches Err(x) && x == SubmitError::NoFreeTickets) <==> (old(self).sq.ring@.len()
                < old(self).sq.ring.capacity() && old(self).tickets.free@.len() == 0),
            r is Err ==> final(self).sq.ring@ == old(self).sq.ring@ && final(self).in_flight.slots@
                == old(self).in_flight.slots@ && final(self).tickets.free@ == old(
                self,
            ).tickets.free@ && final(self).sq.poller_awake == old(self).sq.poller_awake,
            r matches Ok(t) ==> {
                &&& t < old(self).depth()
                &&& old(self).tickets.is_free(t)
                &&& !final(self).tickets.is_free(t)
                &&& (forall|u: usize|
                    u != t ==> (final(self).tickets.is_free(u) <==> old(self).tickets.is_free(u)))
                &&& final(self).tickets.free@.len() + 1 == old(self).tickets.free@.len()
                &&& final(self).in_flight.waiting(t)
                &&& final(self).in_flight.dest_of(t) == dest
                &&& (forall|u: usize|
                    u != t ==> final(self).in_flight.waiting(u) == old(self).in_flight.waiting(u))
                &&& (forall|u: usize|
                    u != t && old(self).in_flight.waiting(u) ==> final(self).in_flight.dest_of(u)
                        == old(self).in_flight.dest_of(u))
                &&& final(self).sq.ring@ == old(self).sq.ring@.push(
                    SubmissionEntry { ticket: t, op },
                )
                &&& (old(self).sq.sq_poll ==> final(self).sq.poller_awake)
                &&& (!old(self).sq.sq_poll ==> final(self).sq.poller_awake == old(
                    self,
                ).sq.poller_awake)
            },
    {
        let ghost pre = *old(self);
        if self.sq.is_full() {
            return Err(SubmitError::SubmissionRingFull);
        }
        let got = self.tickets.try_next();
        match got {
            None => Err(SubmitError::NoFreeTickets),
            Some(t) => {
                proof {
                    assert(pre.tickets.is_free(t));
                    assert(t < pre.tickets.depth);
                    assert(!pre.in_flight.waiting(t));
                }
                self.in_flight.insert(t, dest);
                let e = SubmissionEntry { ticket: t, op };
                self.sq.publish(e);
                proof {
                    lemma_sub_tickets_push(pre.sq.ring@, e);
                    lemma_push_contains(pre.sq_tickets(), t);
                    lemma_push_no_dup(pre.sq_tickets(), t);
                    assert(!pre.staged(t));
                    assert(self.sq_tickets() =~= pre.sq_tickets().push(t));
                    assert forall|u: usize| #[trigger]
                        self.in_flight.waiting(u) <==> (self.sq_tickets().contains(u)
                            || self.run_tickets().contains(u) || self.cq_tickets().contains(
                            u,
                        )) by {
                        if u != t {
                            assert(self.in_flight.waiting(u) == pre.in_flight.waiting(u));
                        }
                    }
                    assert forall|u: usize| #[trigger]
                        self.run_tickets().contains(u) implies !self.sq_tickets().contains(u) by {
                        assert(pre.in_flight.waiting(u));
                        assert(u != t);
                    }
                    assert forall|u: usize| #[trigger]
                        self.cq_tickets().contains(u) implies !self.sq_tickets().contains(u)
                        && !self.run_tickets().contains(u) by {
                        assert(pre.in_flight.waiting(u));
                        assert(u != t);
                    }
                    assert(self.wf());
                }
                Ok(t)
            },
        }
    }

    /// The kernel side consumes the oldest published submission into its
    /// running set; with nothing published, a privileged polling thread
    /// goes idle instead, to be woken by the next submission.
    pub fn kernel_fetch(&mut self) -> (moved: bool)
        requires
            old(self).wf(),
            !old(self).shut_down,
        ensures
            final(self).wf(),
            final(self).config == old(self).config,
            final(self).flags == old(self).flags,
            final(self).shut_down == old(self).shut_down,
            final(self).tickets.depth == old(self).tickets.depth,
            final(self).sq.ring.capacity() == old(self).sq.ring.capacity(),
            final(self).sq.sq_poll == old(self).sq.sq_poll,
            final(self).cq.ring@ == old(self).cq.ring@,
            final(self).cq.ring.capacity() == old(self).cq.ring.capacity(),
            final(self).in_flight.slots@ == old(self).in_flight.slots@,
            final(self).tickets.free@ == old(self).tickets.free@,
            final(self).delivered@ == old(self).delivered@,
            moved <==> old(self).sq.ring@.len() > 0,
            moved ==> {
                &&& final(self).sq.ring@ == old(self).sq.ring@.drop_first()
                &&& final(self).running@ == old(self).running@.push(old(self).sq.ring@[0])
                &&& final(self).sq.poller_awake == old(self).sq.poller_awake
            },
            !moved ==> {
                &&& final(self).sq.ring@ == old(self).sq.ring@
                &&& final(self).running@ == old(self).running@
                &&& (old(self).sq.sq_poll ==> !final(self).sq.poller_awake)
                &&& (!old(self).sq.sq_poll ==> final(self).sq.poller_awake == old(
                    self,
                ).sq.poller_awake)
            },
    {
        let ghost pre = *old(self);
        if self.sq.ring.len > 0 {
            let e = self.sq.ring.consume();
            self.running.push(e);
            proof {
                let t = e.ticket;
                assert(pre.sq_tickets().len() > 0);
                assert(pre.sq_tickets()[0] == t);
                lemma_drop_first_contains(pre.sq_tickets());
                lemma_sub_tickets_drop_first(pre.sq.ring@);
                lemma_sub_tickets_push(pre.running@, e);
                lemma_push_contains(pre.run_tickets(), t);
                lemma_push_no_dup(pre.run_tickets(), t);
                lemma_drop_first_no_dup(pre.sq_tickets());
                assert(self.sq_tickets() =~= pre.sq_tickets().drop_first());
                assert(self.run_tickets() =~= pre.run_tickets().push(t));
                assert(pre.sq_tickets().contains(t));
                assert(!pre.run_tickets().contains(t));
                assert(!pre.cq_tickets().contains(t));
                assert forall|u: usize| #[trigger]
                    self.in_flight.waiting(u) <==> (self.sq_tickets().contains(u)
                        || self.run_tickets().contains(u) || self.cq_tickets().contains(u)) by {
                    assert(pre.in_flight.waiting(u) <==> (pre.sq_tickets().contains(u)
                        || pre.run_tickets().contains(u) || pre.cq_tickets().contains(u)));
                }
                assert forall|u: usize| #[trigger]
                    self.run_tickets().contains(u) implies !self.sq_tickets().contains(u) by {
                    if u == t {
                        assert(!pre.sq_tickets().drop_first().contains(t));
                    }
                }
                assert forall|u: usize| #[trigger]
                    self.cq_tickets().contains(u) implies !self.sq_tickets().contains(u)
                    && !self.run_tickets().contains(u) by {
                    assert(u != t);
                    assert(!pre.sq_tickets().contains(u) && !pre.run_tickets().contains(u));
                }
                assert(self.wf());
            }
            true
        } else {
            if self.sq.sq_poll {
                self.sq.poller_awake = false;
            }
            false
        }
    }

    /// The kernel side finishes any one of its running operations —
    /// completions are delivered out of order — and publishes the
    /// completion entry. The engine invariant guarantees the completion
    /// ring has room.
    pub fn kernel_complete(&mut self, idx: usize, result: i32)
        requires
            old(self).wf(),
            !old(self).shut_down,
            idx < old(self).running@.len(),
        ensures
            final(self).wf(),
            final(self).config == old(self).config,
            final(self).flags == old(self).flags,
            final(self).shut_down == old(self).shut_down,
            final(self).tickets.depth == old(self).tickets.depth,
            final(self).sq.ring@ == old(self).sq.ring@,
            final(self).sq.ring.capacity() == old(self).sq.ring.capacity(),
            final(self).sq.sq_poll == old(self).sq.sq_poll,
            final(self).sq.poller_awake == old(self).sq.poller_awake,
            final(self).cq.ring.capacity() == old(self).cq.ring.capacity(),
            final(self).in_flight.slots@ == old(self).in_flight.slots@,
            final(self).tickets.free@ == old(self).tickets.free@,
            final(self).delivered@ == old(self).delivered@,
            final(self).running@ == old(self).running@.remove(idx as int),
            final(self).cq.ring@ == old(self).cq.ring@.push(
                CompletionEntry { ticket: old(self).running@[idx as int].ticket, result },
            ),
    {
        let ghost pre = *old(self);
        let e = self.running.remove(idx);
        proof {
            assert(pre.cq.ring@.len() < pre.cq.ring.capacity());
        }
        let c = CompletionEntry { ticket: e.ticket, result };
        self.cq.ring.publish(c);
        proof {
            let t = e.ticket;
            assert(pre.run_tickets()[idx as int] == t);
            assert(pre.run_tickets().contains(t));
            assert(!pre.cq_tickets().contains(t));
            assert(!pre.sq_tickets().contains(t));
            lemma_sub_tickets_remove(pre.running@, idx as int);
            lemma_remove_contains(pre.run_tickets(), idx as int);
            lemma_remove_no_dup(pre.run_tickets(), idx as int);
            lemma_comp_tickets_push(pre.cq.ring@, c);
            lemma_push_contains(pre.cq_tickets(), t);
            lemma_push_no_dup(pre.cq_tickets(), t);
            assert(self.run_tickets() =~= pre.run_tickets().remove(idx as int));
            assert(self.cq_tickets() =~= pre.cq_tickets().push(t));
            assert forall|u: usize| #[trigger]
                self.in_flight.waiting(u) <==> (self.sq_tickets().contains(u)
                    || self.run_tickets().contains(u) || self.cq_tickets().contains(u)) by {
                assert(pre.in_flight.waiting(u) <==> (pre.sq_tickets().contains(u)
                    || pre.run_tickets().contains(u) || pre.cq_tickets().contains(u)));
            }
            assert forall|u: usize| #[trigger]
                self.run_tickets().contains(u) implies !self.sq_tickets().contains(u) by {
                assert(pre.run_tickets().contains(u));
            }
            assert forall|u: usize| #[trigger]
                self.cq_tickets().contains(u) implies !self.sq_tickets().contains(u)
                && !self.run_tickets().contains(u) by {
                if u == t {
                    assert(!self.run_tickets().contains(t));
                } else {
                    assert(pre.cq_tickets().contains(u));
                }
            }
            assert(self.wf());
        }
    }

    /// One reaper pass over the completion queue: a terminal stop once
    /// the ring is shut down, otherwise a full drain of the published
    /// completions with the processed count.
    pub(crate) fn reap(&mut self) -> (r: ControlFlow<(), usize>)
        requires
            old(self).wf(),
        ensures
            final(self).wf(),
            reap_post(*old(self), *final(self), r),
    {
        if self.shut_down {
            return ControlFlow::Break(());
        }
        let ghost pre = *self;
        proof {
            assert forall|i: int| 0 <= i < self.cq.ring@.len() implies self.in_flight.waiting(
                #[trigger] self.cq.ring@[i].ticket,
            ) by {
                assert(comp_tickets(self.cq.ring@)[i] == self.cq.ring@[i].ticket);
                assert(comp_tickets(self.cq.ring@).contains(self.cq.ring@[i].ticket));
            }
            assert forall|t: usize| self.in_flight.waiting(t) implies !self.tickets.is_free(
                t,
            ) by {
                assert(t < self.tickets.depth);
            }
        }
        let n = self.cq.reaper_iter(&mut self.in_flight, &mut self.tickets, &mut self.delivered);
        proof {
            assert(self.cq_tickets().len() == 0);
            assert forall|u: usize| #[trigger]
                self.in_flight.waiting(u) <==> (self.sq_tickets().contains(u)
                    || self.run_tickets().contains(u) || self.cq_tickets().contains(u)) by {
                assert(pre.in_flight.waiting(u) <==> (pre.sq_tickets().contains(u)
                    || pre.run_tickets().contains(u) || pre.cq_tickets().contains(u)));
                if pre.sq_tickets().contains(u) || pre.run_tickets().contains(u) {
                    assert(!pre.cq_tickets().contains(u));
                }
            }
            assert forall|t: usize|
                t < self.tickets.depth implies (self.tickets.is_free(t)
                <==> !self.in_flight.waiting(t)) by {
                assert(pre.tickets.is_free(t) <==> !pre.in_flight.waiting(t));
            }
            assert(self.wf());
        }
        ControlFlow::Continue(n)
    }

    /// Tear the ring down. Idempotent; all later reaper passes return
    /// the stop signal, and nothing touches the rings again.
    pub fn shutdown(&mut self)
        ensures
            final(self).shut_down,
            old(self).wf() ==> final(self).wf(),
            final(self).config == old(self).config,
            final(self).flags == old(self).flags,
            final(self).tickets.depth == old(self).tickets.depth,
            final(self).sq.ring@ == old(self).sq.ring@,
            final(self).sq.ring.capacity() == old(self).sq.ring.capacity(),
            final(self).sq.sq_poll == old(self).sq.sq_poll,
            final(self).sq.poller_awake == old(self).sq.poller_awake,
            final(self).cq.ring@ == old(self).cq.ring@,
            final(self).cq.ring.capacity() == old(self).cq.ring.capacity(),
            final(self).in_flight.slots@ == old(self).in_flight.slots@,
            final(self).tickets.free@ == old(self).tickets.free@,
            final(self).running@ == old(self).running@,
            final(self).delivered@ == old(self).delivered@,
    {
        self.shut_down = true;
    }

    /// Hand the drained results over to the waiting parties: the outbox,
    /// emptied.
    pub fn take_deliveries(&mut self) -> (out: Vec<Delivery>)
        ensures
            out@ == old(self).delivered@,
            final(self).delivered@.len() == 0,
            old(self).wf() ==> final(self).wf(),
            final(self).config == old(self).config,
            final(self).flags == old(self).flags,
            final(self).shut_down == old(self).shut_down,
            final(self).tickets.depth == old(self).tickets.depth,
            final(self).sq.ring@ == old(self).sq.ring@,
            final(self).sq.ring.capacity() == old(self).sq.ring.capacity(),
            final(self).sq.sq_poll == old(self).sq.sq_poll,
            final(self).sq.poller_awake == old(self).sq.poller_awake,
            final(self).cq.ring@ == old(self).cq.ring@,
            final(self).cq.ring.capacity() == old(self).cq.ring.capacity(),
            final(self).in_flight.slots@ == old(self).in_flight.slots@,
            final(self).tickets.free@ == old(self).tickets.free@,
            final(self).running@ == old(self).running@,
    {
        let mut out: Vec<Delivery> = Vec::new();
        core::mem::swap(&mut out, &mut self.delivered);
        out
    }
}

/// What a reaper pass leaves untouched, whatever its outcome.
pub open spec fn reap_frame(pre: Engine, post: Engine) -> bool {
    &&& post.config == pre.config
    &&& post.flags == pre.flags
    &&& post.shut_down == pre.shut_down
    &&& post.tickets.depth == pre.tickets.depth
    &&& post.sq.ring@ == pre.sq.ring@
    &&& post.sq.ring.capacity() == pre.sq.ring.capacity()
    &&& post.sq.sq_poll == pre.sq.sq_poll
    &&& post.sq.poller_awake == pre.sq.poller_awake
    &&& post.running@ == pre.running@
    &&& post.cq.ring.capacity() == pre.cq.ring.capacity()
}

/// The effect of one full drain of the published completions: every
/// published entry resolved against the in-flight table it was issued
/// under, in ring order; its ticket taken out of the table and returned
/// to the free list; nothing else moved.
pub open spec fn reap_drained(pre: Engine, post: Engine) -> bool {
    &&& post.cq.ring@.len() == 0
    &&& post.delivered@ == pre.delivered@ + Seq::new(
        pre.cq.ring@.len(),
        |j: int| resolution_of(pre.cq.ring@[j], pre.in_flight),
    )
    &&& (forall|t: usize|
        #![trigger post.in_flight.waiting(t)]
        #![trigger pre.in_flight.waiting(t)]
        post.in_flight.waiting(t) <==> (pre.in_flight.waiting(t) && !comp_tickets(
            pre.cq.ring@,
        ).contains(t)))
    &&& (forall|t: usize| #[trigger]
        post.in_flight.waiting(t) ==> post.in_flight.dest_of(t) == pre.in_flight.dest_of(t))
    &&& (forall|t: usize|
        #![trigger post.tickets.is_free(t)]
        #![trigger pre.tickets.is_free(t)]
        post.tickets.is_free(t) <==> (pre.tickets.is_free(t) || comp_tickets(
            pre.cq.ring@,
        ).contains(t)))
    &&& post.tickets.free@.len() == pre.tickets.free@.len() + pre.cq.ring@.len()
}

/// Contract of one reaper pass: after shutdown a terminal stop with
/// nothing touched; otherwise a full drain and the processed count.
pub open spec fn reap_post(pre: Engine, post: Engine, r: ControlFlow<(), usize>) -> bool {
    &&& reap_frame(pre, post)
    &&& pre.shut_down ==> r == ControlFlow::<(), usize>::Break(()) && post.cq.ring@ == pre.cq.ring@
        && post.in_flight.slots@ == pre.in_flight.slots@ && post.tickets.free@ == pre.tickets.free@
        && post.delivered@ == pre.delivered@
    &&& !pre.shut_down ==> r == ControlFlow::<(), usize>::Continue(pre.cq.ring@.len() as usize)
        && reap_drained(pre, post)
}

/// A free ticket has no in-flight entry and sits in no pipeline stage: a
/// ticket freed by resolution may be reissued, but never while its prior
/// in-flight entry still exists.
pub proof fn lemma_free_ticket_not_in_flight(e: Engine, t: usize)
    requires
        e.wf(),
        e.tickets.is_free(t),
    ensures
        !e.in_flight.waiting(t),
        !e.staged(t),
{
    let i = choose|i: int| 0 <= i < e.tickets.free@.len() && e.tickets.free@[i] == t;
    assert(t < e.tickets.depth);
}

/// The published completions name distinct tickets, and every one of
/// them is tracked in the in-flight table: a full drain resolves each
/// issued ticket exactly once, and a completion for an untracked ticket
/// cannot arise.
pub proof fn lemma_completions_distinct_and_tracked(e: Engine)
    requires
        e.wf(),
    ensures
        e.cq_tickets().no_duplicates(),
        forall|i: int|
            0 <= i < e.cq_tickets().len() ==> e.in_flight.waiting(#[trigger] e.cq_tickets()[i]),
{
    assert forall|i: int|
        0 <= i < e.cq_tickets().len() implies e.in_flight.waiting(
        #[trigger] e.cq_tickets()[i],
    ) by {
        assert(e.cq_tickets().contains(e.cq_tickets()[i]));
    }
}

/// Conservation: free tickets and pipeline stages account for the whole
/// depth. Absent shutdown no operation is lost — each is either still
/// staged or already resolved — and outstanding operations never exceed
/// the completion depth.
pub proof fn lemma_outstanding_conserved(e: Engine)
    requires
        e.wf(),
    ensures
        e.tickets.free@.len() + e.outstanding() == e.depth(),
        e.outstanding() <= e.depth(),
{
}

proof fn lemma_push_contains(s: Seq<usize>, x: usize)
    ensures
        forall|u: usize| #[trigger] s.push(x).contains(u) <==> (s.contains(u) || u == x),
{
    assert forall|u: usize| #[trigger]
        s.push(x).contains(u) <==> (s.contains(u) || u == x) by {
        if s.push(x).contains(u) {
            let i = choose|i: int| 0 <= i < s.push(x).len() && s.push(x)[i] == u;
            if i < s.len() {
                assert(s[i] == u);
            }
        }
        if s.contains(u) {
            let i = choose|i: int| 0 <= i < s.len() && s[i] == u;
            assert(s.push(x)[i] == u);
        }
        if u == x {
            assert(s.push(x)[s.len() as int] == u);
        }
    }
}

proof fn lemma_push_no_dup(s: Seq<usize>, x: usize)
    requires
        s.no_duplicates(),
        !s.contains(x),
    ensures
        s.push(x).no_duplicates(),
{
    assert forall|i: int, j: int|
        0 <= i < s.push(x).len() && 0 <= j < s.push(x).len() && i != j implies s.push(x)[i]
        != s.push(x)[j] by {
        if i < s.len() && j < s.len() {
        } else if i == s.len() && j < s.len() {
            assert(s.contains(s[j]));
        } else if j == s.len() && i < s.len() {
            assert(s.contains(s[i]));
        }
    }
}

proof fn lemma_drop_first_contains(s: Seq<usize>)
    requires
        s.len() > 0,
        s.no_duplicates(),
    ensures
        forall|u: usize| #[trigger]
            s.drop_first().contains(u) <==> (s.contains(u) && u != s[0]),
{
    assert forall|u: usize| #[trigger]
        s.drop_first().contains(u) <==> (s.contains(u) && u != s[0]) by {
        if s.drop_first().contains(u) {
            let i = choose|i: int| 0 <= i < s.drop_first().len() && s.drop_first()[i] == u;
            assert(s[i + 1] == u);
        }
        if s.contains(u) && u != s[0] {
            let i = choose|i: int| 0 <= i < s.len() && s[i] == u;
            assert(i != 0);
            assert(s.drop_first()[i - 1] == u);
        }
    }
}

proof fn lemma_drop_first_no_dup(s: Seq<usize>)
    requires
        s.len() > 0,
        s.no_duplicates(),
    ensures
        s.drop_first().no_duplicates(),
{
    assert forall|i: int, j: int|
        0 <= i < s.drop_first().len() && 0 <= j < s.drop_first().len() && i != j implies s.drop_first()[i]
        != s.drop_first()[j] by {
        assert(s.drop_first()[i] == s[i + 1]);
        assert(s.drop_first()[j] == s[j + 1]);
    }
}

proof fn lemma_remove_contains(s: Seq<usize>, k: int)
    requires
        0 <= k < s.len(),
        s.no_duplicates(),
    ensures
        forall|u: usize| #[trigger] s.remove(k).contains(u) <==> (s.contains(u) && u != s[k]),
{
    s.remove_ensures(k);
    assert forall|u: usize| #[trigger]
        s.remove(k).contains(u) <==> (s.contains(u) && u != s[k]) by {
        if s.remove(k).contains(u) {
            let i = choose|i: int| 0 <= i < s.remove(k).len() && s.remove(k)[i] == u;
            if i < k {
                assert(s[i] == u);
            } else {
                assert(s[i + 1] == u);
            }
        }
        if s.contains(u) && u != s[k] {
            let i = choose|i: int| 0 <= i < s.len() && s[i] == u;
            if i < k {
                assert(s.remove(k)[i] == u);
            } else {
                assert(i > k);
                assert(s.remove(k)[i - 1] == u);
            }
        }
    }
}

proof fn lemma_remove_no_dup(s: Seq<usize>, k: int)
    requires
        0 <= k < s.len(),
        s.no_duplicates(),
    ensures
        s.remove(k).no_duplicates(),
{
    s.remove_ensures(k);
    assert forall|i: int, j: int|
        0 <= i < s.remove(k).len() && 0 <= j < s.remove(k).len() && i != j implies s.remove(k)[i]
        != s.remove(k)[j] by {
        let i0: int = if i < k {
            i
        } else {
            i + 1
        };
        let j0: int = if j < k {
            j
        } else {
            j + 1
        };
        assert(s.remove(k)[i] == s[i0]);
        assert(s.remove(k)[j] == s[j0]);
    }
}

proof fn lemma_sub_tickets_push(s: Seq<SubmissionEntry>, e: SubmissionEntry)
    ensures
        sub_tickets(s.push(e)) =~= sub_tickets(s).push(e.ticket),
{
}

proof fn lemma_sub_tickets_drop_first(s: Seq<SubmissionEntry>)
    requires
        s.len() > 0,
    ensures
        sub_tickets(s.drop_first()) =~= sub_tickets(s).drop_first(),
{
}

proof fn lemma_sub_tickets_remove(s: Seq<SubmissionEntry>, k: int)
    requires
        0 <= k < s.len(),
    ensures
        sub_tickets(s.remove(k)) =~= sub_tickets(s).remove(k),
{
    s.remove_ensures(k);
    sub_tickets(s).remove_ensures(k);
}

proof fn lemma_comp_tickets_push(s: Seq<CompletionEntry>, e: CompletionEntry)
    ensures
        comp_tickets(s.push(e)) =~= comp_tickets(s).push(e.ticket),
{
}

} // verus!
