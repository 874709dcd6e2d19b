//! The server's lossy broadcast policy: a bounded buffer where a send beyond
//! capacity drops the oldest message, and a subscriber that fell behind is
//! told how much it missed and resumes at the oldest surviving message.
//! Freshness beats completeness: a delivered message is always among the last
//! `capacity` sent.

use vstd::prelude::*;

verus! {

#[derive(Clone, Copy, Debug, PartialEq, Eq, Structural)]
pub enum RecvError {
    /// Nothing new yet; try again later.
    Empty,
    /// The subscriber lagged: this many messages were dropped for it.
    Lagged(u64),
    /// The channel was closed and everything was delivered.
    Closed,
}

/// One subscriber's cursor: the sequence number it will read next.
#[derive(Clone, Copy, Debug, PartialEq, Eq, Structural)]
pub struct Subscriber {
    pub next: u64,
}

/// A broadcast channel buffering the last `capacity` messages.
pub struct Broadcast<T> {
    capacity: usize,
    next_seq: u64,
    closed: bool,
    buf: Vec<T>,
}

impl<T> Broadcast<T> {
    /// Buffered messages, oldest first.
    pub closed spec fn msgs(&self) -> Seq<T> {
        self.buf@
    }

    /// Sequence number of the next message to be sent.
    pub closed spec fn next(&self) -> u64 {
        self.next_seq
    }

    pub closed spec fn cap(&self) -> usize {
        self.capacity
    }

    pub closed spec fn is_closed(&self) -> bool {
        self.closed
    }

    /// Sequence number of the oldest buffered message.
    pub open spec fn oldest(&self) -> int {
        self.next() - self.msgs().len()
    }

    pub open spec fn wf(&self) -> bool {
        &&& 1 <= self.cap()
        &&& self.msgs().len() <= self.cap()
        &&& self.msgs().len() <= self.next()
    }

    pub fn new(capacity: usize) -> (r: Self)
        requires
            1 <= capacity,
        ensures
            r.wf(),
            r.cap() == capacity,
            r.next() == 0,
            r.msgs() == Seq::<T>::empty(),
            !r.is_closed(),
    {
        Broadcast { capacity, next_seq: 0, closed: false, buf: Vec::new() }
    }

    /// A subscriber joining now: it will see only messages sent after this.
    pub fn subscribe(&self) -> (r: Subscriber)
        ensures
            r.next == self.next(),
    {
        Subscriber { next: self.next_seq }
    }

    /// Publish a message, dropping the oldest buffered one when full.
    pub fn send(&mut self, v: T)
        requires
            old(self).wf(),
            !old(self).is_closed(),
            old(self).next() < u64::MAX,
        ensures
            final(self).wf(),
            final(self).cap() == old(self).cap(),
            !final(self).is_closed(),
            final(self).next() == old(self).next() + 1,
            final(self).msgs() == if old(self).msgs().len() == old(self).cap() {
                old(self).msgs().skip(1).push(v)
            } else {
                old(self).msgs().push(v)
            },
            final(self).oldest() >= old(self).oldest(),
    {
        if self.buf.len() == self.capacity {
            self.buf.remove(0);
            proof {
                assert(self.buf@ =~= old(self).buf@.skip(1));
            }
        }
        self.buf.push(v);
        self.next_seq = self.next_seq + 1;
    }

    /// No further sends; subscribers that drain the buffer see `Closed`.
    pub fn close(&mut self)
        requires
            old(self).wf(),
        ensures
            final(self).wf(),
            final(self).is_closed(),
            final(self).cap() == old(self).cap(),
            final(self).next() == old(self).next(),
            final(self).msgs() == old(self).msgs(),
    {
        self.closed = true;
    }

    /// One receive for `sub`: the message at its cursor, or how it fell
    /// behind. A delivered message is never older than the last `capacity`
    /// sends (the backpressure guarantee).
    pub fn recv(&self, sub: &mut Subscriber) -> (r: Result<&T, RecvError>)
        requires
            self.wf(),
            old(sub).next <= self.next(),
        ensures
            final(sub).next <= self.next(),
            match r {
                Result::Ok(v) => {
                    &&& self.oldest() <= old(sub).next < self.next()
                    &&& old(sub).next >= self.next() - self.cap()
                    &&& *v == self.msgs()[old(sub).next - self.oldest()]
                    &&& final(sub).next == old(sub).next + 1
                },
                Result::Err(e) => match e {
                    RecvError::Empty => !self.is_closed() && old(sub).next == self.next()
                        && final(sub).next == old(sub).next,
                    RecvError::Lagged(n) => old(sub).next < self.oldest() && n == self.oldest()
                        - old(sub).next && final(sub).next == self.oldest(),
                    RecvError::Closed => self.is_closed() && old(sub).next == self.next()
                        && final(sub).next == old(sub).next,
                },
            },
    {
        let oldest = self.next_seq - self.buf.len() as u64;
        if sub.next >= self.next_seq {
            if self.closed {
                return Err(RecvError::Closed);
            }
            return Err(RecvError::Empty);
        }
        if sub.next < oldest {
            let missed = oldest - sub.next;
            sub.next = oldest;
            return Err(RecvError::Lagged(missed));
        }
        let idx = (sub.next - oldest) as usize;
        let v = &self.buf[idx];
        sub.next = sub.next + 1;
        Ok(v)
    }
}

/// Backpressure window: everything still buffered — hence everything any
/// subscriber can still receive — is among the last `capacity` sends; a
/// subscriber behind that window is lagged, never served stale data.
pub proof fn lemma_backpressure_window<T>(chan: Broadcast<T>)
    requires
        chan.wf(),
    ensures
        chan.oldest() >= chan.next() - chan.cap(),
{
}

} // verus!
