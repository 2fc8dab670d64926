use vstd::prelude::*;

verus! {

/// A subscriber's read position in a channel: the sequence number of the
/// next event it has not seen.
#[derive(Clone, Copy, Debug, PartialEq, Eq, Structural)]
pub struct EventCursor {
    pub next: u64,
}

impl EventCursor {
    pub fn new() -> (r: EventCursor)
        ensures
            r.next == 0,
    {
        EventCursor { next: 0 }
    }
}

/// A broadcast log of events of one type. Events stay readable during the
/// tick they are sent in and the following one; each subscriber reads with a
/// cursor of its own, so no subscriber takes events from another.
pub struct Channel<T> {
    /// Retained events, oldest first.
    pub events: Vec<T>,
    /// Sequence number of `events[0]`.
    pub first: u64,
    /// How many of the retained events were sent before the current tick.
    pub previous: usize,
}

impl<T: Copy> Channel<T> {
    pub open spec fn wf(&self) -> bool {
        self.previous <= self.events.len() && self.first + self.events.len() <= u64::MAX
    }

    /// Sequence number the next sent event gets.
    pub open spec fn end(&self) -> int {
        self.first + self.events.len()
    }

    pub fn new() -> (r: Channel<T>)
        ensures
            r.wf(),
            r.events@.len() == 0,
            r.first == 0,
            r.previous == 0,
    {
        Channel { events: Vec::new(), first: 0, previous: 0 }
    }

    /// Appends an event; a channel whose sequence numbers are used up keeps
    /// what it has and returns false.
    pub fn send(&mut self, e: T) -> (sent: bool)
        requires
            old(self).wf(),
        ensures
            final(self).wf(),
            sent == (old(self).end() < u64::MAX),
            sent ==> final(self).events@ == old(self).events@.push(e),
            !sent ==> final(self).events@ == old(self).events@,
            final(self).first == old(self).first,
            final(self).previous == old(self).previous,
    {
        let room = self.first < u64::MAX - self.events.len() as u64;
        if room {
            self.events.push(e);
        }
        room
    }

    /// Tick boundary: drops the events sent before the previous tick.
    pub fn update(&mut self)
        requires
            old(self).wf(),
        ensures
            final(self).wf(),
            final(self).events@ == old(self).events@.subrange(
                old(self).previous as int,
                old(self).events@.len() as int,
            ),
            final(self).first == old(self).first + old(self).previous,
            final(self).previous == final(self).events@.len(),
    {
        let mut kept: Vec<T> = Vec::new();
        let mut i: usize = self.previous;
        while i < self.events.len()
            invariant
                self.wf(),
                self.previous <= i <= self.events.len(),
                kept@ == self.events@.subrange(self.previous as int, i as int),
            decreases self.events.len() - i,
        {
            kept.push(self.events[i]);
            proof {
                assert(kept@ =~= self.events@.subrange(self.previous as int, i + 1));
            }
            i = i + 1;
        }
        self.first = self.first + self.previous as u64;
        self.events = kept;
        self.previous = self.events.len();
    }

    /// Index in `events` where a cursor at `next` starts reading.
    pub open spec fn start_of(&self, next: u64) -> int {
        if next <= self.first {
            0
        } else if next >= self.end() {
            self.events.len() as int
        } else {
            next - self.first
        }
    }

    /// The retained events the cursor has not seen yet; the cursor then
    /// stands after the last event sent.
    pub fn read(&self, cursor: &mut EventCursor) -> (r: Vec<T>)
        requires
            self.wf(),
        ensures
            r@ == self.events@.subrange(self.start_of(old(cursor).next), self.events@.len() as int),
            final(cursor).next == self.end(),
    {
        let len = self.events.len();
        let mut i: usize = if cursor.next <= self.first {
            0
        } else if cursor.next - self.first >= len as u64 {
            len
        } else {
            (cursor.next - self.first) as usize
        };
        let ghost start = i as int;
        let mut out: Vec<T> = Vec::new();
        while i < len
            invariant
                len == self.events.len(),
                0 <= start <= i <= len,
                start == self.start_of(old(cursor).next),
                cursor.next == old(cursor).next,
                out@ == self.events@.subrange(start, i as int),
            decreases len - i,
        {
            out.push(self.events[i]);
            proof {
                assert(out@ =~= self.events@.subrange(start, i + 1));
            }
            i = i + 1;
        }
        cursor.next = self.first + len as u64;
        out
    }
}

} // verus!
