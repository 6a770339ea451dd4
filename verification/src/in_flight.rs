use vstd::prelude::*;

verus! {

/// Table of outstanding operations awaiting completion, indexed by
/// ticket. Each occupied slot records the delivery destination for the
/// result: an opaque token the submitting party chose, by which the
/// drained result finds its way back. A slot is created at submission
/// and destroyed at resolution, and a ticket is never reissued while its
/// slot still exists.
pub struct InFlightTable {
    /// One slot per ticket; `Some(dest)` while the operation is outstanding.
    pub slots: Vec<Option<u64>>,
}

impl InFlightTable {
    pub open spec fn wf(self) -> bool {
        1 <= self.slots.len() <= 65536
    }

    pub open spec fn depth(self) -> int {
        self.slots.len() as int
    }

    /// Ticket `t` has an outstanding operation.
    pub open spec fn waiting(self, t: usize) -> bool {
        t < self.slots.len() && self.slots@[t as int] is Some
    }

    /// The delivery destination recorded for ticket `t`.
    pub open spec fn dest_of(self, t: usize) -> u64 {
        self.slots@[t as int]->Some_0
    }

    /// An empty table sized to the completion depth.
    pub fn new(depth: usize) -> (r: InFlightTable)
        requires
            1 <= depth <= 65536,
        ensures
            r.wf(),
            r.depth() == depth,
            forall|t: usize| !r.waiting(t),
    {
        let r = InFlightTable { slots: vec![None; depth] };
        r
    }

    /// Record the delivery destination for a freshly issued ticket;
    /// atomic with submission.
    pub fn insert(&mut self, t: usize, dest: u64)
        requires
            old(self).wf(),
            t < old(self).depth(),
            !old(self).waiting(t),
        ensures
            final(self).wf(),
            final(self).depth() == old(self).depth(),
            final(self).waiting(t),
            final(self).dest_of(t) == dest,
            forall|u: usize| u != t ==> final(self).waiting(u) == old(self).waiting(u),
            forall|u: usize|
                u != t && old(self).waiting(u) ==> final(self).dest_of(u) == old(self).dest_of(u),
    {
        self.slots[t] = Some(dest);
    }

    /// Take the entry for a completed ticket out of the table; atomic
    /// with resolution. `None` means no such entry exists: on a drained
    /// completion that is a protocol violation, which the caller must
    /// report, never drop.
    pub fn remove(&mut self, t: usize) -> (r: Option<u64>)
        requires
            old(self).wf(),
        ensures
            final(self).wf(),
            final(self).depth() == old(self).depth(),
            r is Some <==> old(self).waiting(t),
            r is None ==> *final(self) == *old(self),
            r matches Some(dest) ==> {
                &&& dest == old(self).dest_of(t)
                &&& !final(self).waiting(t)
                &&& forall|u: usize| u != t ==> final(self).waiting(u) == old(self).waiting(u)
                &&& forall|u: usize|
                    u != t && old(self).waiting(u) ==> final(self).dest_of(u) == old(
                        self,
                    ).dest_of(u)
            },
    {
        if t < self.slots.len() {
            let s = self.slots[t];
            match s {
                Some(dest) => {
                    self.slots[t] = None;
                    Some(dest)
                },
                None => None,
            }
        } else {
            None
        }
    }
}

} // verus!
