use vstd::prelude::*;

use crate::ring::Ring;
use crate::ring::SubmissionEntry;

verus! {

/// The tickets named by a stretch of submission ring entries.
pub open spec fn sub_tickets(s: Seq<SubmissionEntry>) -> Seq<usize> {
    s.map_values(|e: SubmissionEntry| e.ticket)
}

/// Producer side of the ring. Reserving the next slot, writing the
/// descriptor and publishing the new tail happen as one atomic pair
/// here; concurrent submitters must serialize around the whole queue,
/// which exclusive access (`&mut`) enforces.
pub struct SubmissionQueue {
    pub ring: Ring<SubmissionEntry>,
    /// Privileged polling negotiated: a kernel-side thread polls for
    /// submissions instead of being told about each one.
    pub sq_poll: bool,
    /// Whether that polling thread is currently awake. Publishing while
    /// it idles must wake it, or the entry would sit unseen.
    pub poller_awake: bool,
}

impl SubmissionQueue {
    pub open spec fn wf(self) -> bool {
        self.ring.wf()
    }

    /// An empty queue of the negotiated submission depth.
    pub fn new(capacity: usize, sq_poll: bool) -> (r: SubmissionQueue)
        requires
            1 <= capacity <= 65536,
        ensures
            r.wf(),
            r.ring@ == Seq::<SubmissionEntry>::empty(),
            r.ring.capacity() == capacity,
            r.sq_poll == sq_poll,
            r.poller_awake,
    {
        SubmissionQueue {
            ring: Ring::new(capacity, SubmissionEntry { ticket: 0, op: 0 }),
            sq_poll,
            // Under privileged polling the kernel thread starts out
            // running; without it the flag is simply never consulted.
            poller_awake: true,
        }
    }

    pub fn is_full(&self) -> (b: bool)
        ensures
            b == (self.ring@.len() == self.ring.capacity()),
    {
        self.ring.is_full()
    }

    /// Write the descriptor into the next free slot and publish it.
    /// Under privileged polling this additionally wakes the kernel's
    /// polling thread if it has gone idle.
    pub fn publish(&mut self, e: SubmissionEntry)
        requires
            old(self).wf(),
            old(self).ring@.len() < old(self).ring.capacity(),
        ensures
            final(self).wf(),
            final(self).ring@ == old(self).ring@.push(e),
            final(self).ring.capacity() == old(self).ring.capacity(),
            final(self).sq_poll == old(self).sq_poll,
            old(self).sq_poll ==> final(self).poller_awake,
            !old(self).sq_poll ==> final(self).poller_awake == old(self).poller_awake,
    {
        self.ring.publish(e);
        if self.sq_poll && !self.poller_awake {
            self.poller_awake = true;
        }
    }
}

} // verus!
