use vstd::prelude::*;

verus! {

/// One descriptor in submission ring memory: the correlation ticket and
/// the encoded operation. Encoding of concrete operation kinds into the
/// payload is the business of the submitting caller, not of this core.
#[derive(Clone, Copy, Debug, PartialEq, Eq, Structural)]
pub struct SubmissionEntry {
    pub ticket: usize,
    pub op: u64,
}

/// One entry in completion ring memory: the ticket of the finished
/// operation and its result code.
#[derive(Clone, Copy, Debug, PartialEq, Eq, Structural)]
pub struct CompletionEntry {
    pub ticket: usize,
    pub result: i32,
}

/// Fixed-capacity circular buffer: the in-memory model of one side of
/// the ring, with a consumer position (`head`) and a published count
/// (`len`). The producer writes a slot fully before `publish` moves the
/// count past it, and `consume` reads only slots the count covers, which
/// is the write-before-publish / publish-before-read discipline that
/// shared ring memory demands.
pub struct Ring<T> {
    pub slots: Vec<T>,
    pub head: usize,
    pub len: usize,
}

impl<T> Ring<T> {
    /// Capacity is positive and bounded, and both cursors stay inside it.
    pub open spec fn wf(self) -> bool {
        &&& 1 <= self.slots.len() <= 65536
        &&& self.head < self.slots.len()
        &&& self.len <= self.slots.len()
    }

    pub open spec fn capacity(self) -> int {
        self.slots.len() as int
    }

    /// Slot index that the `i`-th unconsumed entry occupies.
    pub open spec fn slot_at(self, i: int) -> int {
        if self.head + i < self.slots.len() {
            self.head + i
        } else {
            self.head + i - self.slots.len()
        }
    }
}

impl<T> View for Ring<T> {
    type V = Seq<T>;

    /// The published, not yet consumed entries, oldest first.
    open spec fn view(&self) -> Seq<T> {
        Seq::new(self.len as nat, |i: int| self.slots@[self.slot_at(i)])
    }
}

impl<T: Copy> Ring<T> {
    /// An empty ring of the given capacity; `fill` is the initial content
    /// of the (unpublished, hence invisible) slots.
    pub fn new(capacity: usize, fill: T) -> (r: Ring<T>)
        requires
            1 <= capacity <= 65536,
        ensures
            r.wf(),
            r@ == Seq::<T>::empty(),
            r.capacity() == capacity,
    {
        let r = Ring { slots: vec![fill; capacity], head: 0, len: 0 };
        proof {
            assert(r@ =~= Seq::<T>::empty());
        }
        r
    }

    pub fn available(&self) -> (n: usize)
        ensures
            n == self@.len(),
    {
        self.len
    }

    pub fn is_full(&self) -> (b: bool)
        ensures
            b == (self@.len() == self.capacity()),
    {
        self.len == self.slots.len()
    }

    /// Producer side: write the entry into the next free slot, then
    /// publish it by advancing the count.
    pub fn publish(&mut self, x: T)
        requires
            old(self).wf(),
            old(self)@.len() < old(self).capacity(),
        ensures
            final(self).wf(),
            final(self)@ == old(self)@.push(x),
            final(self).capacity() == old(self).capacity(),
    {
        let cap = self.slots.len();
        let mut idx = self.head + self.len;
        if idx >= cap {
            idx = idx - cap;
        }
        self.slots[idx] = x;
        self.len = self.len + 1;
        proof {
            assert(final(self)@ =~= old(self)@.push(x));
        }
    }

    /// Consumer side: read the oldest published entry, then advance and
    /// publish the consumed position.
    pub fn consume(&mut self) -> (x: T)
        requires
            old(self).wf(),
            old(self)@.len() > 0,
        ensures
            final(self).wf(),
            x == old(self)@[0],
            final(self)@ == old(self)@.drop_first(),
            final(self).capacity() == old(self).capacity(),
    {
        let x = self.slots[self.head];
        self.head = self.head + 1;
        if self.head == self.slots.len() {
            self.head = 0;
        }
        self.len = self.len - 1;
        proof {
            assert(final(self)@ =~= old(self)@.drop_first());
        }
        x
    }
}

} // verus!
