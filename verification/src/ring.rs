//! Bounded FIFO byte store holding the most recent terminal output of one
//! local session. Appending evicts the oldest bytes once the fixed capacity
//! is reached, so the stored content is always the newest suffix of
//! everything ever appended.

use vstd::prelude::*;
use std::collections::VecDeque;

verus! {

/// Fixed capacity of the replay buffer of one local session.
pub const RING_BUFFER_MAX_BYTES: usize = 65536;

/// The number of bytes retained out of a full append history `h`.
pub open spec fn retained_len(h: Seq<u8>) -> int {
    if h.len() <= RING_BUFFER_MAX_BYTES {
        h.len() as int
    } else {
        RING_BUFFER_MAX_BYTES as int
    }
}

/// The suffix of the append history `h` that a ring buffer retains.
pub open spec fn retained(h: Seq<u8>) -> Seq<u8> {
    h.skip(h.len() - retained_len(h))
}

pub struct RingBuffer {
    buf: VecDeque<u8>,
    history: Ghost<Seq<u8>>,
}

impl RingBuffer {
    /// The bytes currently stored, oldest first.
    pub closed spec fn view(&self) -> Seq<u8> {
        self.buf@
    }

    /// Every byte ever appended, in order.
    pub closed spec fn history(&self) -> Seq<u8> {
        self.history@
    }

    /// The stored content is exactly the newest retained suffix of the
    /// history; in particular it never exceeds the fixed capacity.
    pub open spec fn wf(&self) -> bool {
        self@ == retained(self.history())
    }

    pub fn new() -> (r: RingBuffer)
        ensures
            r.wf(),
            r@ == Seq::<u8>::empty(),
            r.history() == Seq::<u8>::empty(),
    {
        let r = RingBuffer { buf: VecDeque::new(), history: Ghost(Seq::empty()) };
        proof {
            assert(r@ =~= retained(r.history()));
        }
        r
    }

    pub fn len(&self) -> (n: usize)
        ensures
            n == self@.len(),
    {
        self.buf.len()
    }

    pub fn is_empty(&self) -> (b: bool)
        ensures
            b == (self@.len() == 0),
    {
        self.buf.len() == 0
    }

    /// Append one chunk, evicting the oldest bytes over capacity.
    pub fn push_chunk(&mut self, data: &[u8])
        requires
            old(self).wf(),
        ensures
            final(self).wf(),
            final(self).history() == old(self).history() + data@,
            final(self)@ == retained(old(self).history() + data@),
    {
        let ghost h0 = self.history();
        let mut i: usize = 0;
        while i < data.len()
            invariant
                i <= data.len(),
                self.history() == h0 + data@.take(i as int),
                self.wf(),
            decreases data.len() - i,
        {
            let ghost h_pre = self.history();
            let b = data[i];
            if self.buf.len() >= RING_BUFFER_MAX_BYTES {
                self.buf.pop_front();
            }
            self.buf.push_back(b);
            proof {
                self.history@ = h_pre + seq![b];
                assert(h_pre + seq![b] =~= h0 + data@.take(i as int + 1));
                lemma_retained_push(h_pre, b);
                assert(self.buf@ =~= retained(h_pre + seq![b]));
            }
            i = i + 1;
        }
        proof {
            assert(h0 + data@.take(data@.len() as int) =~= h0 + data@);
        }
    }

    /// The stored bytes as one vector, oldest first: the replay snapshot
    /// handed to a newly attached subscriber.
    pub fn contents(&self) -> (r: Vec<u8>)
        ensures
            r@ == self@,
    {
        let mut r: Vec<u8> = Vec::new();
        let n = self.buf.len();
        let mut i: usize = 0;
        while i < n
            invariant
                i <= n,
                n == self@.len(),
                r@ == self@.take(i as int),
            decreases n - i,
        {
            r.push(*(&self.buf[i]));
            proof {
                assert(r@ =~= self@.take(i as int + 1));
            }
            i = i + 1;
        }
        proof {
            assert(r@ =~= self@);
        }
        r
    }
}

/// Appending one byte keeps the retained content the retained suffix:
/// the new byte enters at the back and, at capacity, the oldest byte leaves.
proof fn lemma_retained_push(h: Seq<u8>, b: u8)
    ensures
        h.len() < RING_BUFFER_MAX_BYTES ==> retained(h + seq![b]) =~= retained(h) + seq![b],
        h.len() >= RING_BUFFER_MAX_BYTES ==> retained(h + seq![b]) =~= retained(h).skip(1)
            + seq![b],
{
}

/// The stored byte count of a well-formed ring buffer never exceeds the
/// capacity, and the content equals the newest suffix of the full input of
/// that length.
pub proof fn lemma_ring_buffer_bound(r: &RingBuffer)
    requires
        r.wf(),
    ensures
        r@.len() <= RING_BUFFER_MAX_BYTES,
        r@ == r.history().skip(r.history().len() - retained_len(r.history())),
        r@.len() == retained_len(r.history()),
{
}

} // verus!
