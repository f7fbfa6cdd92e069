//! Model of the session daemon's streaming contract, as the client relies on
//! it: offset-based resume and credit-based flow control.
//!
//! The daemon keeps, per attach stream, the resume offset the stream was
//! opened at, the bytes delivered so far and the cumulative acknowledged
//! count. Delivery consumes credit; only an acknowledgement replenishes it,
//! so a client that stops acknowledging stops receiving — that is the
//! backpressure contract. The model is executable so a fake daemon in tests
//! can run it against the client-side tracking.

use vstd::prelude::*;

verus! {

/// Daemon-side retained output of one session: every byte produced, in
/// order. The daemon reports `next_offset` — the length produced so far — as
/// the offset at which a later attach may resume without gap or repetition.
pub struct DaemonSession {
    history: Vec<u8>,
}

impl DaemonSession {
    pub closed spec fn history(&self) -> Seq<u8> {
        self.history@
    }

    pub fn new() -> (r: DaemonSession)
        ensures
            r.history() == Seq::<u8>::empty(),
    {
        DaemonSession { history: Vec::new() }
    }

    /// The session produced more output.
    pub fn append(&mut self, data: &[u8])
        ensures
            final(self).history() == old(self).history() + data@,
    {
        let mut i: usize = 0;
        while i < data.len()
            invariant
                i <= data.len(),
                self.history@ == old(self).history@ + data@.take(i as int),
            decreases data.len() - i,
        {
            self.history.push(data[i]);
            proof {
                assert(old(self).history@ + data@.take(i as int) + seq![data@[i as int]] =~= old(
                    self,
                ).history@ + data@.take(i as int + 1));
            }
            i = i + 1;
        }
        proof {
            assert(old(self).history@ + data@.take(data@.len() as int) =~= old(self).history@
                + data@);
        }
    }

    /// The offset a bootstrap reports now: resuming here skips exactly the
    /// bytes produced so far.
    pub fn next_offset(&self) -> (r: usize)
        ensures
            r == self.history().len(),
    {
        self.history.len()
    }

    /// Open an attach stream resuming at `since` with an initial delivery
    /// credit. `since` must be an offset the daemon's backlog still covers
    /// (otherwise the daemon signals truncation instead of serving the
    /// stream).
    pub fn open_stream(&self, since: usize, initial_credit: u64) -> (r: DaemonStream)
        requires
            since <= self.history().len(),
        ensures
            r.wf(self.history()),
            r.since() == since,
            r.sent() == 0,
            r.acked() == 0,
            r.initial_credit() == initial_credit,
            r.delivered(self.history()) == Seq::<u8>::empty(),
    {
        let r = DaemonStream { since, sent: 0, acked: 0, initial_credit };
        proof {
            assert(r.delivered(self.history()) =~= Seq::<u8>::empty());
        }
        r
    }
}

/// Daemon-side per-stream flow-control state.
pub struct DaemonStream {
    since: usize,
    sent: usize,
    acked: u64,
    initial_credit: u64,
}

impl DaemonStream {
    /// Resume offset this stream was opened at.
    pub closed spec fn since(&self) -> int {
        self.since as int
    }

    /// Bytes delivered on this stream so far.
    pub closed spec fn sent(&self) -> int {
        self.sent as int
    }

    /// Cumulative bytes the client has acknowledged on this stream.
    pub closed spec fn acked(&self) -> int {
        self.acked as int
    }

    /// Credit granted before any acknowledgement.
    pub closed spec fn initial_credit(&self) -> int {
        self.initial_credit as int
    }

    /// Stream invariant against the session history `h` it serves: the
    /// delivery cursor stays inside the history, the client never
    /// acknowledges more than it received, and — the flow-control bound —
    /// delivery never outruns the initial credit plus what was acknowledged.
    pub open spec fn wf(&self, h: Seq<u8>) -> bool {
        &&& self.since() + self.sent() <= h.len()
        &&& self.acked() <= self.sent()
        &&& self.sent() - self.acked() <= self.initial_credit()
    }

    /// The bytes delivered on this stream so far: the history from the
    /// resume offset, as far as delivery has progressed.
    pub open spec fn delivered(&self, h: Seq<u8>) -> Seq<u8> {
        h.subrange(self.since(), self.since() + self.sent())
    }

    /// One delivery step: push as much undelivered output as the remaining
    /// credit allows. Returns `None` — no data message — exactly when
    /// nothing is pending or the credit is spent.
    pub fn poll(&mut self, session: &DaemonSession) -> (r: Option<Vec<u8>>)
        requires
            old(self).wf(session.history()),
        ensures
            final(self).wf(session.history()),
            final(self).since() == old(self).since(),
            final(self).acked() == old(self).acked(),
            final(self).initial_credit() == old(self).initial_credit(),
            r is None <==> (old(self).since() + old(self).sent() == session.history().len() || old(
                self,
            ).sent() == old(self).initial_credit() + old(self).acked()),
            r matches Some(chunk) ==> ({
                &&& chunk@.len() > 0
                &&& final(self).sent() == old(self).sent() + chunk@.len()
                &&& chunk@ == session.history().subrange(
                    old(self).since() + old(self).sent(),
                    old(self).since() + final(self).sent(),
                )
                &&& final(self).delivered(session.history()) == old(self).delivered(
                    session.history(),
                ) + chunk@
            }),
            r is None ==> *final(self) == *old(self),
    {
        let avail: usize = session.history.len() - self.since - self.sent;
        let used: u64 = (self.sent as u64) - self.acked;
        let allowed_u64: u64 = self.initial_credit - used;
        let n: usize = if (avail as u64) <= allowed_u64 {
            avail
        } else {
            allowed_u64 as usize
        };
        if n == 0 {
            return None;
        }
        let from = self.since + self.sent;
        let mut chunk: Vec<u8> = Vec::new();
        let mut i: usize = 0;
        while i < n
            invariant
                i <= n,
                from + n <= session.history@.len(),
                from + n <= usize::MAX,
                chunk@ == session.history@.subrange(from as int, from as int + i as int),
            decreases n - i,
        {
            chunk.push(session.history[from + i]);
            proof {
                assert(session.history@.subrange(from as int, from as int + i as int) + seq![
                    session.history@[from as int + i as int],
                ] =~= session.history@.subrange(from as int, from as int + i as int + 1));
            }
            i = i + 1;
        }
        self.sent = self.sent + n;
        proof {
            assert(self.delivered(session.history()) =~= old(self).delivered(session.history())
                + chunk@);
        }
        Some(chunk)
    }

    /// Record an acknowledgement carrying the cumulative consumed byte
    /// count. Accepted only if non-decreasing and not ahead of delivery;
    /// only an accepted acknowledgement replenishes credit.
    pub fn ack(&mut self, bytes: u64) -> (r: bool)
        ensures
            r == (old(self).acked() <= bytes as int <= old(self).sent()),
            r ==> final(self).acked() == bytes as int,
            !r ==> *final(self) == *old(self),
            final(self).since() == old(self).since(),
            final(self).sent() == old(self).sent(),
            final(self).initial_credit() == old(self).initial_credit(),
    {
        if self.acked <= bytes && bytes <= (self.sent as u64) {
            self.acked = bytes;
            true
        } else {
            false
        }
    }
}

/// Credit exhaustion: on a stream whose client has acknowledged nothing,
/// delivery never exceeds the initial credit; by `poll`'s contract, once
/// `sent` reaches that bound no further data message is produced until an
/// acknowledgement is accepted.
pub proof fn lemma_credit_exhaustion(st: &DaemonStream, h: Seq<u8>)
    requires
        st.wf(h),
        st.acked() == 0,
    ensures
        st.sent() <= st.initial_credit(),
        st.delivered(h).len() <= st.initial_credit(),
{
}

/// Resume round trip: take a bootstrap after `h1` was produced, whose next
/// offset is `h1.len()`; let the session produce `h2` more bytes; a stream
/// opened with `since` equal to that offset delivers, over its whole life,
/// exactly a prefix of `h2` — none of the first bytes is re-delivered, and
/// none is skipped.
pub proof fn lemma_resume_round_trip(st: &DaemonStream, h1: Seq<u8>, h2: Seq<u8>)
    requires
        st.wf(h1 + h2),
        st.since() == h1.len(),
    ensures
        st.delivered(h1 + h2) == h2.take(st.sent()),
        forall|p: int|
            0 <= p < st.delivered(h1 + h2).len() ==> st.delivered(h1 + h2)[p] == h2[p],
{
    assert(st.delivered(h1 + h2) =~= h2.take(st.sent()));
}

/// Client-side acknowledgement guard: the cumulative count sent in `ack`
/// must never decrease for one (session, stream) pair.
pub struct AckTracker {
    last: i64,
}

impl AckTracker {
    /// The last cumulative count sent.
    pub closed spec fn last(&self) -> int {
        self.last as int
    }

    pub fn new() -> (r: AckTracker)
        ensures
            r.last() == 0,
    {
        AckTracker { last: 0 }
    }

    /// Whether an acknowledgement with this cumulative count may be sent
    /// now; recording it moves the floor up, keeping the sequence of sent
    /// counts non-decreasing.
    pub fn record(&mut self, bytes: i64) -> (r: bool)
        ensures
            r == (bytes as int >= old(self).last()),
            r ==> final(self).last() == bytes as int,
            !r ==> *final(self) == *old(self),
    {
        if bytes >= self.last {
            self.last = bytes;
            true
        } else {
            false
        }
    }
}

} // verus!
