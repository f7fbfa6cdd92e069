//! Local session manager: owns, per terminal identifier, a liveness flag, a
//! bounded replay ring buffer and an ordered list of subscribers, and fans
//! terminal output out to every subscriber.
//!
//! The manager holds the session *state*; the surrounding application owns
//! the operating-system pseudo-terminal handles and runs one reader thread
//! per session, feeding each chunk it reads into [`TerminalManager::on_output_chunk`]
//! and draining per-subscriber event queues into its transport channels.
//!
//! The central invariant: the bytes delivered to a subscriber are exactly
//! the session's output history from the subscriber's join point on — the
//! replay snapshot a subscriber receives on attach and the live broadcasts
//! afterwards never overlap and never leave a gap.

use vstd::prelude::*;
use vstd::string::StringExecFns;
use crate::ring::RingBuffer;
use crate::ring::retained;

verus! {

/// Event pushed to one subscriber of a local session. Output is kept as raw
/// bytes; decoding for a UI sink happens outside the manager.
#[derive(Debug)]
pub enum PtyEvent {
    Data { data: Vec<u8> },
    Closed { exit_code: Option<i32> },
    Error { message: String },
}

/// The output bytes an event carries: the payload of a `Data` event,
/// nothing for the others.
pub open spec fn event_bytes(e: PtyEvent) -> Seq<u8> {
    match e {
        PtyEvent::Data { data } => data@,
        _ => Seq::empty(),
    }
}

/// The output bytes a sequence of events carries, in order.
pub open spec fn data_bytes(events: Seq<PtyEvent>) -> Seq<u8>
    decreases events.len(),
{
    if events.len() == 0 {
        Seq::empty()
    } else {
        event_bytes(events[0]) + data_bytes(events.skip(1))
    }
}

proof fn lemma_data_bytes_push(events: Seq<PtyEvent>, e: PtyEvent)
    ensures
        data_bytes(events.push(e)) == data_bytes(events) + event_bytes(e),
    decreases events.len(),
{
    if events.len() == 0 {
        assert(events.push(e)[0] == e);
        assert(events.push(e).skip(1) =~= Seq::<PtyEvent>::empty());
        assert(data_bytes(events.push(e)) == event_bytes(e) + data_bytes(Seq::<PtyEvent>::empty()));
        assert(event_bytes(e) + Seq::<u8>::empty() =~= event_bytes(e));
        assert(data_bytes(events) + event_bytes(e) =~= event_bytes(e));
    } else {
        assert(events.push(e).skip(1) =~= events.skip(1).push(e));
        lemma_data_bytes_push(events.skip(1), e);
        assert(events.push(e)[0] == events[0]);
        assert(data_bytes(events.push(e)) == event_bytes(events[0]) + data_bytes(
            events.skip(1).push(e),
        ));
        assert(event_bytes(events[0]) + (data_bytes(events.skip(1)) + event_bytes(e)) =~= (
        event_bytes(events[0]) + data_bytes(events.skip(1))) + event_bytes(e));
    }
}

/// One output sink attached to a session. `queue` holds the events not yet
/// handed to the transport; the ghost `taken` records the output bytes of
/// events already handed over, so `delivered()` is the full byte record.
pub struct Subscriber {
    sub_id: u64,
    queue: Vec<PtyEvent>,
    start: Ghost<int>,
    taken: Ghost<Seq<u8>>,
}

impl Subscriber {
    pub closed spec fn sub_id(&self) -> u64 {
        self.sub_id
    }

    pub closed spec fn queue(&self) -> Seq<PtyEvent> {
        self.queue@
    }

    /// Index into the session's output history at which this subscriber
    /// joined: bytes before it were never delivered to it.
    pub closed spec fn start(&self) -> int {
        self.start@
    }

    /// Output bytes of events already drained from the queue.
    pub closed spec fn taken(&self) -> Seq<u8> {
        self.taken@
    }

    /// Every output byte ever routed to this subscriber, in delivery order:
    /// the drained bytes followed by the bytes still queued.
    pub open spec fn delivered(&self) -> Seq<u8> {
        self.taken() + data_bytes(self.queue())
    }

    pub fn id(&self) -> (r: u64)
        ensures
            r == self.sub_id(),
    {
        self.sub_id
    }
}

/// One local terminal session: identity, liveness, current size, the replay
/// ring buffer and the subscriber list.
pub struct TermSession {
    id: String,
    alive: bool,
    cols: u32,
    rows: u32,
    ring: RingBuffer,
    subs: Vec<Subscriber>,
}

impl TermSession {
    pub closed spec fn id(&self) -> Seq<char> {
        self.id@
    }

    pub closed spec fn alive(&self) -> bool {
        self.alive
    }

    pub closed spec fn cols(&self) -> u32 {
        self.cols
    }

    pub closed spec fn rows(&self) -> u32 {
        self.rows
    }

    /// Every output byte the session ever produced, in order.
    pub closed spec fn history(&self) -> Seq<u8> {
        self.ring.history()
    }

    /// The bytes currently retained for replay.
    pub closed spec fn ring_view(&self) -> Seq<u8> {
        self.ring@
    }

    pub closed spec fn subs(&self) -> Seq<Subscriber> {
        self.subs@
    }

    /// Session invariant: the ring retains the newest suffix of the history,
    /// subscriber identifiers are distinct, and every subscriber has been
    /// delivered exactly the history from its join point on.
    pub open spec fn wf(&self) -> bool {
        &&& self.ring_view() == retained(self.history())
        &&& forall|j: int, k: int|
            0 <= j < self.subs().len() && 0 <= k < self.subs().len() && j != k
                ==> self.subs()[j].sub_id() != self.subs()[k].sub_id()
        &&& forall|j: int|
            0 <= j < self.subs().len() ==> {
                &&& 0 <= (#[trigger] self.subs()[j]).start() <= self.history().len()
                &&& self.subs()[j].delivered() == self.history().skip(self.subs()[j].start())
            }
    }
}

/// No two sessions share an identifier.
pub open spec fn distinct_ids(s: Seq<TermSession>) -> bool {
    forall|i: int, k: int|
        0 <= i < s.len() && 0 <= k < s.len() && i != k ==> s[i].id() != s[k].id()
}

/// Every session satisfies its own invariant.
pub open spec fn all_wf(s: Seq<TermSession>) -> bool {
    forall|i: int| 0 <= i < s.len() ==> (#[trigger] s[i]).wf()
}

/// Every subscriber identifier already handed out lies below `bound`.
pub open spec fn subs_bounded(s: Seq<TermSession>, bound: u64) -> bool {
    forall|i: int, j: int|
        0 <= i < s.len() && 0 <= j < s[i].subs().len() ==> (#[trigger] s[i].subs()[j]).sub_id()
            < bound
}

/// Some session carries this identifier.
pub open spec fn has_id(s: Seq<TermSession>, id: Seq<char>) -> bool {
    exists|i: int| 0 <= i < s.len() && (#[trigger] s[i]).id() == id
}

proof fn lemma_subs_bounded_mono(s: Seq<TermSession>, b1: u64, b2: u64)
    requires
        subs_bounded(s, b1),
        b1 <= b2,
    ensures
        subs_bounded(s, b2),
{
    assert forall|i: int, j: int|
        0 <= i < s.len() && 0 <= j < s[i].subs().len() implies (#[trigger] s[i].subs()[j]).sub_id()
        < b2 by {
        assert(s[i].subs()[j].sub_id() < b1);
    }
}

/// Removing one session keeps the registry invariants; with distinct
/// identifiers the removed identifier is gone and every other one stays.
proof fn lemma_remove_keeps_invariants(s: Seq<TermSession>, i: int, bound: u64)
    requires
        0 <= i < s.len(),
        distinct_ids(s),
        all_wf(s),
        subs_bounded(s, bound),
    ensures
        distinct_ids(s.remove(i)),
        all_wf(s.remove(i)),
        subs_bounded(s.remove(i), bound),
        !has_id(s.remove(i), s[i].id()),
        forall|o: Seq<char>| o != s[i].id() ==> (#[trigger] has_id(s.remove(i), o) <==> has_id(s, o)),
{
    let r = s.remove(i);
    s.remove_ensures(i);
    assert forall|j: int| 0 <= j < r.len() implies #[trigger] r[j] == s[if j < i {
        j
    } else {
        j + 1
    }] by {}
    assert forall|j: int, k: int|
        0 <= j < r.len() && 0 <= k < r.len() && j != k implies r[j].id() != r[k].id() by {
        let j0 = if j < i { j } else { j + 1 };
        let k0 = if k < i { k } else { k + 1 };
        assert(r[j] == s[j0] && r[k] == s[k0]);
    }
    assert forall|j: int| 0 <= j < r.len() implies (#[trigger] r[j]).wf() by {
        assert(r[j] == s[if j < i { j } else { j + 1 }]);
    }
    assert forall|j: int, q: int|
        0 <= j < r.len() && 0 <= q < r[j].subs().len() implies (#[trigger] r[j].subs()[q]).sub_id()
        < bound by {
        assert(r[j] == s[if j < i { j } else { j + 1 }]);
    }
    assert forall|j: int| 0 <= j < r.len() implies (#[trigger] r[j]).id() != s[i].id() by {
        let j0 = if j < i { j } else { j + 1 };
        assert(r[j] == s[j0]);
        assert(s[j0].id() != s[i].id());
    }
    assert forall|o: Seq<char>| o != s[i].id() implies (#[trigger] has_id(r, o) <==> has_id(
        s,
        o,
    )) by {
        if has_id(r, o) {
            let j = choose|j: int| 0 <= j < r.len() && (#[trigger] r[j]).id() == o;
            let j0 = if j < i { j } else { j + 1 };
            assert(s[j0] == r[j]);
            assert(has_id(s, o));
        }
        if has_id(s, o) {
            let j0 = choose|j0: int| 0 <= j0 < s.len() && (#[trigger] s[j0]).id() == o;
            let j = if j0 < i { j0 } else { j0 - 1 };
            assert(r[j] == s[j0]);
            assert(has_id(r, o));
        }
    }
}

/// Appending a well-formed session with a fresh identifier keeps the
/// registry invariants.
proof fn lemma_push_keeps_invariants(s: Seq<TermSession>, t: TermSession, bound: u64)
    requires
        distinct_ids(s),
        all_wf(s),
        subs_bounded(s, bound),
        !has_id(s, t.id()),
        t.wf(),
        forall|j: int| 0 <= j < t.subs().len() ==> (#[trigger] t.subs()[j]).sub_id() < bound,
    ensures
        distinct_ids(s.push(t)),
        all_wf(s.push(t)),
        subs_bounded(s.push(t), bound),
        has_id(s.push(t), t.id()),
        forall|o: Seq<char>| o != t.id() ==> (#[trigger] has_id(s.push(t), o) <==> has_id(s, o)),
{
    let r = s.push(t);
    let n = s.len() as int;
    assert(r[n] == t);
    assert forall|j: int, k: int|
        0 <= j < r.len() && 0 <= k < r.len() && j != k implies r[j].id() != r[k].id() by {
        if j < n && k < n {
            assert(r[j] == s[j] && r[k] == s[k]);
        } else if j == n {
            assert(r[k] == s[k]);
            if r[j].id() == r[k].id() {
                assert(has_id(s, t.id()));
            }
        } else {
            assert(r[j] == s[j]);
            if r[j].id() == r[k].id() {
                assert(has_id(s, t.id()));
            }
        }
    }
    assert forall|j: int| 0 <= j < r.len() implies (#[trigger] r[j]).wf() by {
        if j < n {
            assert(r[j] == s[j]);
        }
    }
    assert forall|j: int, q: int|
        0 <= j < r.len() && 0 <= q < r[j].subs().len() implies (#[trigger] r[j].subs()[q]).sub_id()
        < bound by {
        if j < n {
            assert(r[j] == s[j]);
        }
    }
    assert forall|o: Seq<char>| o != t.id() implies (#[trigger] has_id(r, o) <==> has_id(s, o)) by {
        if has_id(r, o) {
            let j = choose|j: int| 0 <= j < r.len() && (#[trigger] r[j]).id() == o;
            assert(j < n);
            assert(s[j] == r[j]);
            assert(has_id(s, o));
        }
        if has_id(s, o) {
            let j = choose|j: int| 0 <= j < s.len() && (#[trigger] s[j]).id() == o;
            assert(r[j] == s[j]);
            assert(has_id(r, o));
        }
    }
}

/// Replacing one session by a well-formed one with the same identifier keeps
/// the registry invariants and registers exactly the same identifiers.
proof fn lemma_update_keeps_invariants(s: Seq<TermSession>, i: int, t: TermSession, bound: u64)
    requires
        0 <= i < s.len(),
        distinct_ids(s),
        all_wf(s),
        subs_bounded(s, bound),
        t.wf(),
        t.id() == s[i].id(),
        forall|j: int| 0 <= j < t.subs().len() ==> (#[trigger] t.subs()[j]).sub_id() < bound,
    ensures
        distinct_ids(s.update(i, t)),
        all_wf(s.update(i, t)),
        subs_bounded(s.update(i, t), bound),
        forall|o: Seq<char>| #[trigger] has_id(s.update(i, t), o) <==> has_id(s, o),
{
    let r = s.update(i, t);
    assert forall|j: int, k: int|
        0 <= j < r.len() && 0 <= k < r.len() && j != k implies r[j].id() != r[k].id() by {
        assert(r[j] == if j == i { t } else { s[j] });
        assert(r[k] == if k == i { t } else { s[k] });
    }
    assert forall|j: int| 0 <= j < r.len() implies (#[trigger] r[j]).wf() by {
        assert(r[j] == if j == i { t } else { s[j] });
    }
    assert forall|j: int, q: int|
        0 <= j < r.len() && 0 <= q < r[j].subs().len() implies (#[trigger] r[j].subs()[q]).sub_id()
        < bound by {
        assert(r[j] == if j == i { t } else { s[j] });
    }
    assert forall|o: Seq<char>| #[trigger] has_id(r, o) <==> has_id(s, o) by {
        if has_id(r, o) {
            let j = choose|j: int| 0 <= j < r.len() && (#[trigger] r[j]).id() == o;
            assert(r[j] == if j == i { t } else { s[j] });
            assert(s[j].id() == o);
            assert(has_id(s, o));
        }
        if has_id(s, o) {
            let j = choose|j: int| 0 <= j < s.len() && (#[trigger] s[j]).id() == o;
            assert(r[j] == if j == i { t } else { s[j] });
            assert(r[j].id() == o);
            assert(has_id(r, o));
        }
    }
}

/// Registry of local sessions, keyed by terminal identifier.
pub struct TerminalManager {
    sessions: Vec<TermSession>,
    next_sub_id: u64,
}

impl TerminalManager {
    pub closed spec fn sessions(&self) -> Seq<TermSession> {
        self.sessions@
    }

    pub closed spec fn next_sub_id(&self) -> u64 {
        self.next_sub_id
    }

    /// Registry invariant: identifiers are distinct, every session is
    /// well-formed, and subscriber identifiers already handed out are below
    /// the allocation counter.
    pub open spec fn wf(&self) -> bool {
        &&& distinct_ids(self.sessions())
        &&& all_wf(self.sessions())
        &&& subs_bounded(self.sessions(), self.next_sub_id())
    }

    /// Whether a session with this identifier is registered.
    pub open spec fn spec_exists(&self, id: Seq<char>) -> bool {
        has_id(self.sessions(), id)
    }

    /// The registered session with this identifier (meaningful only when
    /// `spec_exists` holds; unique by the registry invariant).
    pub open spec fn session(&self, id: Seq<char>) -> TermSession {
        self.sessions()[self.session_index(id)]
    }

    /// The index of the registered session with this identifier.
    pub open spec fn session_index(&self, id: Seq<char>) -> int {
        choose|i: int| 0 <= i < self.sessions().len() && (#[trigger] self.sessions()[i]).id() == id
    }

    pub fn new() -> (r: TerminalManager)
        ensures
            r.wf(),
            r.sessions().len() == 0,
    {
        TerminalManager { sessions: Vec::new(), next_sub_id: 0 }
    }

    /// Index of the session with this identifier, if any.
    fn find_session(&self, terminal_id: &str) -> (r: Option<usize>)
        ensures
            match r {
                Some(i) => i < self.sessions().len() && self.sessions()[i as int].id()
                    == terminal_id@,
                None => !self.spec_exists(terminal_id@),
            },
    {
        let key = terminal_id.to_owned();
        let n = self.sessions.len();
        let mut i: usize = 0;
        while i < n
            invariant
                i <= n,
                n == self.sessions().len(),
                key@ == terminal_id@,
                forall|j: int| 0 <= j < i ==> (#[trigger] self.sessions()[j]).id() != terminal_id@,
            decreases n - i,
        {
            if self.sessions[i].id == key {
                return Some(i);
            }
            i = i + 1;
        }
        None
    }

    pub fn session_exists(&self, terminal_id: &str) -> (r: bool)
        ensures
            r == self.spec_exists(terminal_id@),
    {
        self.find_session(terminal_id).is_some()
    }

    pub fn is_alive(&self, terminal_id: &str) -> (r: bool)
        requires
            self.wf(),
        ensures
            r == (self.spec_exists(terminal_id@) && self.session(terminal_id@).alive()),
    {
        match self.find_session(terminal_id) {
            Some(i) => {
                proof {
                    self.lemma_session_index_unique(terminal_id@, i as int);
                }
                self.sessions[i].alive
            },
            None => false,
        }
    }

    /// Register a fresh session for this identifier: alive, at the default
    /// size of 80 columns by 24 rows, with an empty output history and the
    /// initiating subscriber already attached. An existing session with the
    /// same identifier is superseded (removed), never kept beside the new
    /// one. Returns the initiating subscriber's identifier.
    pub fn spawn(&mut self, terminal_id: &str, cwd: &str) -> (r: Result<u64, String>)
        requires
            old(self).wf(),
            old(self).next_sub_id() < u64::MAX,
        ensures
            final(self).wf(),
            r matches Ok(sid) && sid == old(self).next_sub_id(),
            final(self).next_sub_id() == old(self).next_sub_id() + 1,
            final(self).spec_exists(terminal_id@),
            ({
                let s = final(self).session(terminal_id@);
                &&& s.id() == terminal_id@
                &&& s.alive()
                &&& s.cols() == 80u32
                &&& s.rows() == 24u32
                &&& s.history() == Seq::<u8>::empty()
                &&& s.subs().len() == 1
                &&& s.subs()[0].sub_id() == old(self).next_sub_id()
                &&& s.subs()[0].delivered() == Seq::<u8>::empty()
                &&& s.subs()[0].queue() == Seq::<PtyEvent>::empty()
            }),
            forall|o: Seq<char>|
                o != terminal_id@ ==> (#[trigger] final(self).spec_exists(o) <==> old(
                    self,
                ).spec_exists(o)),
    {
        let sid = self.next_sub_id;
        match self.find_session(terminal_id) {
            Some(i) => {
                proof {
                    self.lemma_session_index_unique(terminal_id@, i as int);
                    lemma_remove_keeps_invariants(self.sessions@, i as int, sid);
                }
                self.sessions.remove(i);
            },
            None => {},
        }
        let ghost mid = self.sessions@;
        proof {
            assert(distinct_ids(mid) && all_wf(mid) && subs_bounded(mid, sid) && !has_id(
                mid,
                terminal_id@,
            ));
        }
        let sub = Subscriber {
            sub_id: sid,
            queue: Vec::new(),
            start: Ghost(0),
            taken: Ghost(Seq::empty()),
        };
        let mut subs: Vec<Subscriber> = Vec::new();
        subs.push(sub);
        let session = TermSession {
            id: terminal_id.to_owned(),
            alive: true,
            cols: 80,
            rows: 24,
            ring: RingBuffer::new(),
            subs,
        };
        proof {
            assert(session.subs() =~= seq![sub]);
            assert(sub.delivered() =~= Seq::<u8>::empty());
            assert(session.history().skip(0) =~= Seq::<u8>::empty());
            assert(retained(session.history()) =~= Seq::<u8>::empty());
            assert(session.wf());
        }
        self.sessions.push(session);
        self.next_sub_id = sid + 1;
        proof {
            lemma_subs_bounded_mono(mid, sid, self.next_sub_id);
            lemma_push_keeps_invariants(mid, session, self.next_sub_id);
            assert(self.sessions@ == mid.push(session));
            let n = self.sessions().len() as int;
            assert(self.sessions()[n - 1] == session);
            self.lemma_session_index_unique(terminal_id@, n - 1);
        }
        Ok(sid)
    }

    /// Attach a new subscriber to an existing session. In one atomic step
    /// the current ring buffer content is queued to it as a single replay
    /// delivery, a close notice is queued if the session already ended, and
    /// the subscriber joins the list — so its delivered bytes are exactly
    /// the retained output suffix, with nothing repeated and nothing lost.
    pub fn attach(&mut self, terminal_id: &str) -> (r: Result<u64, String>)
        requires
            old(self).wf(),
            old(self).next_sub_id() < u64::MAX,
        ensures
            final(self).wf(),
            r is Ok <==> old(self).spec_exists(terminal_id@),
            r matches Err(m) ==> m@ == "No terminal with id: "@ + terminal_id@ && *final(self)
                == *old(self),
            forall|o: Seq<char>| #[trigger]
                final(self).spec_exists(o) <==> old(self).spec_exists(o),
            r matches Ok(sid) ==> ({
                let i = old(self).session_index(terminal_id@);
                let s0 = old(self).sessions()[i];
                let s1 = final(self).sessions()[i];
                let sub = s1.subs().last();
                &&& sid == old(self).next_sub_id()
                &&& final(self).next_sub_id() == old(self).next_sub_id() + 1
                &&& final(self).sessions().len() == old(self).sessions().len()
                &&& (forall|j: int|
                    0 <= j < old(self).sessions().len() && j != i ==> final(self).sessions()[j]
                        == old(self).sessions()[j])
                &&& s1.id() == s0.id()
                &&& s1.alive() == s0.alive()
                &&& s1.cols() == s0.cols()
                &&& s1.rows() == s0.rows()
                &&& s1.history() == s0.history()
                &&& s1.ring_view() == s0.ring_view()
                &&& s1.subs() == s0.subs().push(sub)
                &&& sub.sub_id() == sid
                &&& sub.start() == s0.history().len() - s0.ring_view().len()
                &&& sub.delivered() == s0.ring_view()
                &&& sub.queue().len() == (if s0.ring_view().len() > 0 {
                    1int
                } else {
                    0int
                }) + (if s0.alive() {
                    0int
                } else {
                    1int
                })
                &&& (s0.ring_view().len() > 0 ==> (sub.queue()[0] matches PtyEvent::Data { data }
                    && data@ == s0.ring_view()))
                &&& (!s0.alive() ==> sub.queue().len() > 0 && sub.queue().last() matches
                    PtyEvent::Closed { exit_code: None })
            }),
    {
        match self.find_session(terminal_id) {
            Some(i) => {
                proof {
                    self.lemma_session_index_unique(terminal_id@, i as int);
                }
                let sid = self.next_sub_id;
                let ghost s0 = self.sessions()[i as int];
                let mut queue: Vec<PtyEvent> = Vec::new();
                if !self.sessions[i].ring.is_empty() {
                    let replay = self.sessions[i].ring.contents();
                    proof {
                        lemma_data_bytes_push(queue@, PtyEvent::Data { data: replay });
                    }
                    queue.push(PtyEvent::Data { data: replay });
                }
                if !self.sessions[i].alive {
                    proof {
                        lemma_data_bytes_push(queue@, PtyEvent::Closed { exit_code: None });
                    }
                    queue.push(PtyEvent::Closed { exit_code: None });
                }
                proof {
                    assert(Seq::<u8>::empty() + s0.ring_view() =~= s0.ring_view());
                    assert(s0.ring_view() + Seq::<u8>::empty() =~= s0.ring_view());
                    assert(data_bytes(queue@) == s0.ring_view());
                }
                let ghost start = s0.history().len() - s0.ring_view().len();
                let sub = Subscriber {
                    sub_id: sid,
                    queue,
                    start: Ghost(start),
                    taken: Ghost(Seq::empty()),
                };
                self.sessions[i].subs.push(sub);
                self.next_sub_id = sid + 1;
                proof {
                    let s1 = self.sessions()[i as int];
                    assert(s1.subs() == s0.subs().push(sub));
                    assert(s1.subs().last() == sub);
                    assert(sub.delivered() =~= s0.ring_view());
                    assert(s0.ring_view() == retained(s0.history()));
                    assert(sub.delivered() == s1.history().skip(sub.start()));
                    assert(s1.wf()) by {
                        assert forall|q: int| 0 <= q < s1.subs().len() implies {
                            &&& 0 <= (#[trigger] s1.subs()[q]).start() <= s1.history().len()
                            &&& s1.subs()[q].delivered() == s1.history().skip(s1.subs()[q].start())
                        } by {
                            if q < s0.subs().len() {
                                assert(s1.subs()[q] == s0.subs()[q]);
                            }
                        }
                        assert forall|p2: int, q2: int|
                            0 <= p2 < s1.subs().len() && 0 <= q2 < s1.subs().len() && p2
                                != q2 implies s1.subs()[p2].sub_id() != s1.subs()[q2].sub_id() by {
                            if p2 < s0.subs().len() && q2 < s0.subs().len() {
                                assert(s1.subs()[p2] == s0.subs()[p2]);
                                assert(s1.subs()[q2] == s0.subs()[q2]);
                            } else if p2 < s0.subs().len() {
                                assert(s1.subs()[p2] == s0.subs()[p2]);
                                assert(s0.subs()[p2].sub_id() < sid);
                            } else if q2 < s0.subs().len() {
                                assert(s1.subs()[q2] == s0.subs()[q2]);
                                assert(s0.subs()[q2].sub_id() < sid);
                            }
                        }
                    }
                    assert(self.sessions@ == old(self).sessions@.update(i as int, s1));
                    assert forall|q: int| 0 <= q < s1.subs().len() implies (
                    #[trigger] s1.subs()[q]).sub_id() < sid + 1 by {
                        if q < s0.subs().len() {
                            assert(s1.subs()[q] == s0.subs()[q]);
                            assert(s0.subs()[q].sub_id() < sid);
                        }
                    }
                    lemma_subs_bounded_mono(old(self).sessions@, sid, self.next_sub_id);
                    lemma_update_keeps_invariants(old(self).sessions@, i as int, s1, self.next_sub_id);
                }
                Ok(sid)
            },
            None => Err(not_found_message(terminal_id)),
        }
    }

    /// Remove the most recently added subscriber, if any; the session and
    /// its underlying process keep running.
    pub fn detach(&mut self, terminal_id: &str) -> (r: Result<(), String>)
        requires
            old(self).wf(),
        ensures
            final(self).wf(),
            r is Ok <==> old(self).spec_exists(terminal_id@),
            r matches Err(m) ==> m@ == "No terminal with id: "@ + terminal_id@ && *final(self)
                == *old(self),
            forall|o: Seq<char>| #[trigger]
                final(self).spec_exists(o) <==> old(self).spec_exists(o),
            r is Ok ==> ({
                let i = old(self).session_index(terminal_id@);
                let s0 = old(self).sessions()[i];
                let s1 = final(self).sessions()[i];
                &&& final(self).sessions().len() == old(self).sessions().len()
                &&& final(self).next_sub_id() == old(self).next_sub_id()
                &&& (forall|j: int|
                    0 <= j < old(self).sessions().len() && j != i ==> final(self).sessions()[j]
                        == old(self).sessions()[j])
                &&& s1.id() == s0.id()
                &&& s1.alive() == s0.alive()
                &&& s1.cols() == s0.cols()
                &&& s1.rows() == s0.rows()
                &&& s1.history() == s0.history()
                &&& s1.ring_view() == s0.ring_view()
                &&& s1.subs() == (if s0.subs().len() > 0 {
                    s0.subs().drop_last()
                } else {
                    s0.subs()
                })
            }),
    {
        match self.find_session(terminal_id) {
            Some(i) => {
                proof {
                    self.lemma_session_index_unique(terminal_id@, i as int);
                }
                let ghost s0 = self.sessions()[i as int];
                if self.sessions[i].subs.len() > 0 {
                    self.sessions[i].subs.pop();
                }
                proof {
                    let s1 = self.sessions()[i as int];
                    if s0.subs().len() > 0 {
                        assert(s1.subs() =~= s0.subs().drop_last());
                    }
                    assert(s1.wf()) by {
                        assert forall|q: int| 0 <= q < s1.subs().len() implies {
                            &&& 0 <= (#[trigger] s1.subs()[q]).start() <= s1.history().len()
                            &&& s1.subs()[q].delivered() == s1.history().skip(s1.subs()[q].start())
                        } by {
                            assert(s1.subs()[q] == s0.subs()[q]);
                        }
                        assert forall|p2: int, q2: int|
                            0 <= p2 < s1.subs().len() && 0 <= q2 < s1.subs().len() && p2
                                != q2 implies s1.subs()[p2].sub_id() != s1.subs()[q2].sub_id() by {
                            assert(s1.subs()[p2] == s0.subs()[p2]);
                            assert(s1.subs()[q2] == s0.subs()[q2]);
                        }
                    }
                    assert(self.sessions@ == old(self).sessions@.update(i as int, s1));
                    assert forall|q: int| 0 <= q < s1.subs().len() implies (
                    #[trigger] s1.subs()[q]).sub_id() < self.next_sub_id() by {
                        assert(s1.subs()[q] == s0.subs()[q]);
                    }
                    lemma_update_keeps_invariants(
                        old(self).sessions@,
                        i as int,
                        s1,
                        self.next_sub_id,
                    );
                }
                Ok(())
            },
            None => Err(not_found_message(terminal_id)),
        }
    }

    /// Accept input for forwarding to the session's pseudo-terminal. The
    /// manager only rules on the identifier; the surrounding application
    /// performs the write on the operating-system handle it owns.
    pub fn write(&mut self, terminal_id: &str, data: &str) -> (r: Result<(), String>)
        requires
            old(self).wf(),
        ensures
            *final(self) == *old(self),
            r is Ok <==> old(self).spec_exists(terminal_id@),
            r matches Err(m) ==> m@ == "No terminal with id: "@ + terminal_id@,
    {
        match self.find_session(terminal_id) {
            Some(_) => Ok(()),
            None => Err(not_found_message(terminal_id)),
        }
    }

    /// Record a terminal size change. The surrounding application propagates
    /// the new size to the pseudo-terminal it owns.
    pub fn resize(&mut self, terminal_id: &str, cols: u32, rows: u32) -> (r: Result<(), String>)
        requires
            old(self).wf(),
        ensures
            final(self).wf(),
            r is Ok <==> old(self).spec_exists(terminal_id@),
            r matches Err(m) ==> m@ == "No terminal with id: "@ + terminal_id@ && *final(self)
                == *old(self),
            forall|o: Seq<char>| #[trigger]
                final(self).spec_exists(o) <==> old(self).spec_exists(o),
            r is Ok ==> ({
                let i = old(self).session_index(terminal_id@);
                let s0 = old(self).sessions()[i];
                let s1 = final(self).sessions()[i];
                &&& final(self).sessions().len() == old(self).sessions().len()
                &&& final(self).next_sub_id() == old(self).next_sub_id()
                &&& (forall|j: int|
                    0 <= j < old(self).sessions().len() && j != i ==> final(self).sessions()[j]
                        == old(self).sessions()[j])
                &&& s1.cols() == cols
                &&& s1.rows() == rows
                &&& s1.id() == s0.id()
                &&& s1.alive() == s0.alive()
                &&& s1.history() == s0.history()
                &&& s1.ring_view() == s0.ring_view()
                &&& s1.subs() == s0.subs()
            }),
    {
        match self.find_session(terminal_id) {
            Some(i) => {
                proof {
                    self.lemma_session_index_unique(terminal_id@, i as int);
                }
                let ghost s0 = self.sessions()[i as int];
                self.sessions[i].cols = cols;
                self.sessions[i].rows = rows;
                proof {
                    let s1 = self.sessions()[i as int];
                    assert(self.sessions@ =~= old(self).sessions@.update(i as int, s1));
                    assert(s1.wf()) by {
                        assert(s1.subs() == s0.subs());
                    }
                    lemma_update_keeps_invariants(
                        old(self).sessions@,
                        i as int,
                        s1,
                        self.next_sub_id,
                    );
                }
                Ok(())
            },
            None => Err(not_found_message(terminal_id)),
        }
    }

    /// Remove the session, handing back, per subscriber, its identifier and
    /// its pending events — with exactly one close notice appended when the
    /// session was still alive, so every subscriber learns of the teardown
    /// once and only once (a session already marked closed has notified its
    /// subscribers and gets no second notice). The surrounding application
    /// signals the reader thread, drops the pseudo-terminal handles — which
    /// ends the child process — and flushes the returned events to the
    /// sinks. Fails with not-found exactly when the identifier is unknown.
    pub fn kill(&mut self, terminal_id: &str) -> (r: Result<Vec<(u64, Vec<PtyEvent>)>, String>)
        requires
            old(self).wf(),
        ensures
            final(self).wf(),
            r is Ok <==> old(self).spec_exists(terminal_id@),
            r matches Err(m) ==> m@ == "No terminal with id: "@ + terminal_id@ && *final(self)
                == *old(self),
            !final(self).spec_exists(terminal_id@),
            final(self).next_sub_id() == old(self).next_sub_id(),
            old(self).spec_exists(terminal_id@) ==> final(self).sessions() == old(
                self,
            ).sessions().remove(old(self).session_index(terminal_id@)),
            forall|o: Seq<char>|
                o != terminal_id@ ==> (#[trigger] final(self).spec_exists(o) <==> old(
                    self,
                ).spec_exists(o)),
            r matches Ok(out) ==> ({
                let s0 = old(self).sessions()[old(self).session_index(terminal_id@)];
                &&& out@.len() == s0.subs().len()
                &&& (forall|q: int|
                    0 <= q < s0.subs().len() ==> {
                        &&& (#[trigger] out@[q]).0 == s0.subs()[q].sub_id()
                        &&& (s0.alive() ==> out@[q].1@.len() == s0.subs()[q].queue().len() + 1
                            && out@[q].1@.take(s0.subs()[q].queue().len() as int)
                            == s0.subs()[q].queue() && (out@[q].1@.last() matches
                        PtyEvent::Closed { exit_code: None }))
                        &&& (!s0.alive() ==> out@[q].1@ == s0.subs()[q].queue())
                    })
            }),
    {
        match self.find_session(terminal_id) {
            Some(i) => {
                proof {
                    self.lemma_session_index_unique(terminal_id@, i as int);
                    lemma_remove_keeps_invariants(self.sessions@, i as int, self.next_sub_id);
                }
                let ghost s0 = self.sessions@[i as int];
                let session = self.sessions.remove(i);
                let alive = session.alive;
                let mut subs = session.subs;
                let ghost osubs = s0.subs();
                let mut out: Vec<(u64, Vec<PtyEvent>)> = Vec::new();
                while subs.len() > 0
                    invariant
                        out@.len() + subs@.len() == osubs.len(),
                        subs@ == osubs.skip(out@.len() as int),
                        alive == s0.alive(),
                        forall|q: int|
                            0 <= q < out@.len() ==> {
                                &&& (#[trigger] out@[q]).0 == osubs[q].sub_id()
                                &&& (s0.alive() ==> out@[q].1@.len() == osubs[q].queue().len() + 1
                                    && out@[q].1@.take(osubs[q].queue().len() as int)
                                    == osubs[q].queue() && (out@[q].1@.last() matches
                                PtyEvent::Closed { exit_code: None }))
                                &&& (!s0.alive() ==> out@[q].1@ == osubs[q].queue())
                            },
                    decreases subs@.len(),
                {
                    let ghost k = out@.len() as int;
                    let mut sub = subs.remove(0);
                    proof {
                        assert(sub == osubs[k]);
                        assert(subs@ =~= osubs.skip(k + 1));
                    }
                    let ghost q0 = sub.queue@;
                    if alive {
                        sub.queue.push(PtyEvent::Closed { exit_code: None });
                        proof {
                            assert(sub.queue@.take(q0.len() as int) =~= q0);
                        }
                    }
                    let ghost pre = out@;
                    out.push((sub.sub_id, sub.queue));
                    proof {
                        assert forall|q: int| 0 <= q < out@.len() implies {
                            &&& (#[trigger] out@[q]).0 == osubs[q].sub_id()
                            &&& (s0.alive() ==> out@[q].1@.len() == osubs[q].queue().len() + 1
                                && out@[q].1@.take(osubs[q].queue().len() as int)
                                == osubs[q].queue() && (out@[q].1@.last() matches
                            PtyEvent::Closed { exit_code: None }))
                            &&& (!s0.alive() ==> out@[q].1@ == osubs[q].queue())
                        } by {
                            if q < k {
                                assert(out@[q] == pre[q]);
                            }
                        }
                    }
                }
                Ok(out)
            },
            None => Err(not_found_message(terminal_id)),
        }
    }

    /// The next subscriber identifier the registry would hand out; callers
    /// can check it against the counter's upper bound before a spawn or an
    /// attach.
    pub fn next_subscriber_id(&self) -> (r: u64)
        ensures
            r == self.next_sub_id(),
    {
        self.next_sub_id
    }

    /// One reader-loop step, taken under the registry lock: append the chunk
    /// to the session's ring buffer and queue one data event carrying the
    /// same bytes to every current subscriber — the append and the broadcast
    /// are one atomic step relative to `attach`. Returns whether the session
    /// still exists; a chunk read for a session torn down meanwhile is
    /// dropped.
    pub fn on_output_chunk(&mut self, terminal_id: &str, chunk: &[u8]) -> (r: bool)
        requires
            old(self).wf(),
        ensures
            final(self).wf(),
            r == old(self).spec_exists(terminal_id@),
            !r ==> *final(self) == *old(self),
            forall|o: Seq<char>| #[trigger]
                final(self).spec_exists(o) <==> old(self).spec_exists(o),
            final(self).next_sub_id() == old(self).next_sub_id(),
            r ==> ({
                let i = old(self).session_index(terminal_id@);
                let s0 = old(self).sessions()[i];
                let s1 = final(self).sessions()[i];
                &&& final(self).sessions().len() == old(self).sessions().len()
                &&& (forall|j: int|
                    0 <= j < old(self).sessions().len() && j != i ==> final(self).sessions()[j]
                        == old(self).sessions()[j])
                &&& s1.id() == s0.id()
                &&& s1.alive() == s0.alive()
                &&& s1.cols() == s0.cols()
                &&& s1.rows() == s0.rows()
                &&& s1.history() == s0.history() + chunk@
                &&& s1.ring_view() == retained(s0.history() + chunk@)
                &&& s1.subs().len() == s0.subs().len()
                &&& (forall|q: int|
                    0 <= q < s0.subs().len() ==> {
                        &&& (#[trigger] s1.subs()[q]).sub_id() == s0.subs()[q].sub_id()
                        &&& s1.subs()[q].start() == s0.subs()[q].start()
                        &&& s1.subs()[q].taken() == s0.subs()[q].taken()
                        &&& s1.subs()[q].delivered() == s0.subs()[q].delivered() + chunk@
                        &&& s1.subs()[q].queue().len() == s0.subs()[q].queue().len() + 1
                        &&& s1.subs()[q].queue().take(s0.subs()[q].queue().len() as int)
                            == s0.subs()[q].queue()
                        &&& event_bytes(s1.subs()[q].queue().last()) == chunk@
                        &&& (s1.subs()[q].queue().last() matches PtyEvent::Data { data })
                    })
            }),
    {
        match self.find_session(terminal_id) {
            Some(i) => {
                proof {
                    self.lemma_session_index_unique(terminal_id@, i as int);
                }
                let ghost s0 = self.sessions()[i as int];
                self.sessions[i].ring.push_chunk(chunk);
                let n_subs = self.sessions[i].subs.len();
                let mut q: usize = 0;
                while q < n_subs
                    invariant
                        0 <= i < self.sessions@.len(),
                        self.sessions@.len() == old(self).sessions@.len(),
                        q <= n_subs,
                        n_subs == s0.subs().len(),
                        s0 == old(self).sessions@[i as int],
                        forall|j: int|
                            0 <= j < old(self).sessions@.len() && j != i ==> self.sessions@[j]
                                == old(self).sessions@[j],
                        self.sessions@[i as int].id() == s0.id(),
                        self.sessions@[i as int].alive() == s0.alive(),
                        self.sessions@[i as int].cols() == s0.cols(),
                        self.sessions@[i as int].rows() == s0.rows(),
                        self.sessions@[i as int].history() == s0.history() + chunk@,
                        self.sessions@[i as int].ring_view() == retained(s0.history() + chunk@),
                        self.sessions@[i as int].subs().len() == s0.subs().len(),
                        forall|p: int|
                            q <= p < s0.subs().len() ==> (#[trigger] self.sessions@[i as int].subs()[p])
                                == s0.subs()[p],
                        forall|p: int|
                            0 <= p < q ==> {
                                let sb1 = #[trigger] self.sessions@[i as int].subs()[p];
                                let sb0 = s0.subs()[p];
                                &&& sb1.sub_id() == sb0.sub_id()
                                &&& sb1.start() == sb0.start()
                                &&& sb1.taken() == sb0.taken()
                                &&& sb1.delivered() == sb0.delivered() + chunk@
                                &&& sb1.queue().len() == sb0.queue().len() + 1
                                &&& sb1.queue().take(sb0.queue().len() as int) == sb0.queue()
                                &&& event_bytes(sb1.queue().last()) == chunk@
                                &&& (sb1.queue().last() matches PtyEvent::Data { data })
                            },
                        self.next_sub_id == old(self).next_sub_id,
                    decreases n_subs - q,
                {
                    let data = vstd::slice::slice_to_vec(chunk);
                    let ghost sb0 = self.sessions@[i as int].subs()[q as int];
                    proof {
                        lemma_data_bytes_push(sb0.queue(), PtyEvent::Data { data });
                    }
                    self.sessions[i].subs[q].queue.push(PtyEvent::Data { data });
                    proof {
                        let sb1 = self.sessions@[i as int].subs()[q as int];
                        assert(sb1.queue() == sb0.queue().push(PtyEvent::Data { data }));
                        assert(sb1.queue().take(sb0.queue().len() as int) =~= sb0.queue());
                        assert(sb1.delivered() == sb0.taken() + (data_bytes(sb0.queue())
                            + chunk@));
                        assert(sb0.taken() + (data_bytes(sb0.queue()) + chunk@) =~= (sb0.taken()
                            + data_bytes(sb0.queue())) + chunk@);
                    }
                    q = q + 1;
                }
                proof {
                    let s1 = self.sessions@[i as int];
                    assert(s1.wf()) by {
                        assert forall|p: int| 0 <= p < s1.subs().len() implies {
                            &&& 0 <= (#[trigger] s1.subs()[p]).start() <= s1.history().len()
                            &&& s1.subs()[p].delivered() == s1.history().skip(s1.subs()[p].start())
                        } by {
                            let sb0 = s0.subs()[p];
                            assert(sb0.delivered() == s0.history().skip(sb0.start()));
                            assert((s0.history() + chunk@).skip(sb0.start()) =~= s0.history().skip(
                                sb0.start(),
                            ) + chunk@);
                        }
                        assert forall|p2: int, q2: int|
                            0 <= p2 < s1.subs().len() && 0 <= q2 < s1.subs().len() && p2
                                != q2 implies s1.subs()[p2].sub_id() != s1.subs()[q2].sub_id() by {
                            assert(s1.subs()[p2].sub_id() == s0.subs()[p2].sub_id());
                            assert(s1.subs()[q2].sub_id() == s0.subs()[q2].sub_id());
                        }
                    }
                    assert(self.sessions@ =~= old(self).sessions@.update(i as int, s1));
                    assert forall|p: int| 0 <= p < s1.subs().len() implies (
                    #[trigger] s1.subs()[p]).sub_id() < self.next_sub_id() by {
                        assert(s1.subs()[p].sub_id() == s0.subs()[p].sub_id());
                    }
                    lemma_update_keeps_invariants(
                        old(self).sessions@,
                        i as int,
                        s1,
                        self.next_sub_id,
                    );
                }
                true
            },
            None => false,
        }
    }

    /// End-of-stream step of a reader loop: mark the session closed and
    /// queue one close event, carrying the child's exit status, to every
    /// current subscriber. Returns whether the session still exists.
    pub fn on_reader_closed(&mut self, terminal_id: &str, exit_code: Option<i32>) -> (r: bool)
        requires
            old(self).wf(),
        ensures
            final(self).wf(),
            r == old(self).spec_exists(terminal_id@),
            !r ==> *final(self) == *old(self),
            forall|o: Seq<char>| #[trigger]
                final(self).spec_exists(o) <==> old(self).spec_exists(o),
            final(self).next_sub_id() == old(self).next_sub_id(),
            r ==> ({
                let i = old(self).session_index(terminal_id@);
                let s0 = old(self).sessions()[i];
                let s1 = final(self).sessions()[i];
                &&& final(self).sessions().len() == old(self).sessions().len()
                &&& (forall|j: int|
                    0 <= j < old(self).sessions().len() && j != i ==> final(self).sessions()[j]
                        == old(self).sessions()[j])
                &&& s1.id() == s0.id()
                &&& !s1.alive()
                &&& s1.cols() == s0.cols()
                &&& s1.rows() == s0.rows()
                &&& s1.history() == s0.history()
                &&& s1.ring_view() == s0.ring_view()
                &&& s1.subs().len() == s0.subs().len()
                &&& (forall|q: int|
                    0 <= q < s0.subs().len() ==> {
                        &&& (#[trigger] s1.subs()[q]).sub_id() == s0.subs()[q].sub_id()
                        &&& s1.subs()[q].start() == s0.subs()[q].start()
                        &&& s1.subs()[q].delivered() == s0.subs()[q].delivered()
                        &&& s1.subs()[q].queue().len() == s0.subs()[q].queue().len() + 1
                        &&& s1.subs()[q].queue().take(s0.subs()[q].queue().len() as int)
                            == s0.subs()[q].queue()
                        &&& (s1.subs()[q].queue().last() matches PtyEvent::Closed { exit_code: e }
                            && e == exit_code)
                    })
            }),
    {
        match self.find_session(terminal_id) {
            Some(i) => {
                proof {
                    self.lemma_session_index_unique(terminal_id@, i as int);
                }
                let ghost s0 = self.sessions()[i as int];
                self.sessions[i].alive = false;
                let n_subs = self.sessions[i].subs.len();
                let mut q: usize = 0;
                while q < n_subs
                    invariant
                        0 <= i < self.sessions@.len(),
                        self.sessions@.len() == old(self).sessions@.len(),
                        q <= n_subs,
                        n_subs == s0.subs().len(),
                        s0 == old(self).sessions@[i as int],
                        forall|j: int|
                            0 <= j < old(self).sessions@.len() && j != i ==> self.sessions@[j]
                                == old(self).sessions@[j],
                        self.sessions@[i as int].id() == s0.id(),
                        !self.sessions@[i as int].alive(),
                        self.sessions@[i as int].cols() == s0.cols(),
                        self.sessions@[i as int].rows() == s0.rows(),
                        self.sessions@[i as int].history() == s0.history(),
                        self.sessions@[i as int].ring_view() == s0.ring_view(),
                        self.sessions@[i as int].subs().len() == s0.subs().len(),
                        forall|p: int|
                            q <= p < s0.subs().len() ==> (#[trigger] self.sessions@[i as int].subs()[p])
                                == s0.subs()[p],
                        forall|p: int|
                            0 <= p < q ==> {
                                let sb1 = #[trigger] self.sessions@[i as int].subs()[p];
                                let sb0 = s0.subs()[p];
                                &&& sb1.sub_id() == sb0.sub_id()
                                &&& sb1.start() == sb0.start()
                                &&& sb1.taken() == sb0.taken()
                                &&& sb1.delivered() == sb0.delivered()
                                &&& sb1.queue().len() == sb0.queue().len() + 1
                                &&& sb1.queue().take(sb0.queue().len() as int) == sb0.queue()
                                &&& (sb1.queue().last() matches PtyEvent::Closed { exit_code: e }
                                    && e == exit_code)
                            },
                        self.next_sub_id == old(self).next_sub_id,
                    decreases n_subs - q,
                {
                    let ghost sb0 = self.sessions@[i as int].subs()[q as int];
                    proof {
                        lemma_data_bytes_push(sb0.queue(), PtyEvent::Closed { exit_code });
                    }
                    self.sessions[i].subs[q].queue.push(PtyEvent::Closed { exit_code });
                    proof {
                        let sb1 = self.sessions@[i as int].subs()[q as int];
                        assert(sb1.queue() == sb0.queue().push(PtyEvent::Closed { exit_code }));
                        assert(sb1.queue().take(sb0.queue().len() as int) =~= sb0.queue());
                        assert(data_bytes(sb0.queue()) + Seq::<u8>::empty() =~= data_bytes(
                            sb0.queue(),
                        ));
                        assert(sb1.delivered() == sb0.delivered());
                    }
                    q = q + 1;
                }
                proof {
                    let s1 = self.sessions@[i as int];
                    assert(s1.wf()) by {
                        assert forall|p: int| 0 <= p < s1.subs().len() implies {
                            &&& 0 <= (#[trigger] s1.subs()[p]).start() <= s1.history().len()
                            &&& s1.subs()[p].delivered() == s1.history().skip(s1.subs()[p].start())
                        } by {
                            assert(s0.subs()[p].delivered() == s0.history().skip(
                                s0.subs()[p].start(),
                            ));
                        }
                        assert forall|p2: int, q2: int|
                            0 <= p2 < s1.subs().len() && 0 <= q2 < s1.subs().len() && p2
                                != q2 implies s1.subs()[p2].sub_id() != s1.subs()[q2].sub_id() by {
                            assert(s1.subs()[p2].sub_id() == s0.subs()[p2].sub_id());
                            assert(s1.subs()[q2].sub_id() == s0.subs()[q2].sub_id());
                        }
                    }
                    assert(self.sessions@ =~= old(self).sessions@.update(i as int, s1));
                    assert forall|p: int| 0 <= p < s1.subs().len() implies (
                    #[trigger] s1.subs()[p]).sub_id() < self.next_sub_id() by {
                        assert(s1.subs()[p].sub_id() == s0.subs()[p].sub_id());
                    }
                    lemma_update_keeps_invariants(
                        old(self).sessions@,
                        i as int,
                        s1,
                        self.next_sub_id,
                    );
                }
                true
            },
            None => false,
        }
    }

    /// Hand the pending events of one subscriber to the transport, emptying
    /// its queue. The record of bytes delivered to the subscriber is
    /// unchanged: the bytes only move from "queued" to "handed over".
    pub fn take_events(&mut self, terminal_id: &str, sub_id: u64) -> (r: Result<
        Vec<PtyEvent>,
        String,
    >)
        requires
            old(self).wf(),
        ensures
            final(self).wf(),
            forall|o: Seq<char>| #[trigger]
                final(self).spec_exists(o) <==> old(self).spec_exists(o),
            final(self).next_sub_id() == old(self).next_sub_id(),
            r is Err ==> *final(self) == *old(self),
            r is Ok <==> (old(self).spec_exists(terminal_id@) && exists|q: int|
                0 <= q < old(self).session(terminal_id@).subs().len() && (#[trigger] old(
                    self,
                ).session(terminal_id@).subs()[q]).sub_id() == sub_id),
            r matches Ok(events) ==> ({
                let i = old(self).session_index(terminal_id@);
                let s0 = old(self).sessions()[i];
                let s1 = final(self).sessions()[i];
                &&& final(self).sessions().len() == old(self).sessions().len()
                &&& (forall|j: int|
                    0 <= j < old(self).sessions().len() && j != i ==> final(self).sessions()[j]
                        == old(self).sessions()[j])
                &&& s1.id() == s0.id()
                &&& s1.alive() == s0.alive()
                &&& s1.history() == s0.history()
                &&& s1.ring_view() == s0.ring_view()
                &&& s1.subs().len() == s0.subs().len()
                &&& exists|q: int|
                    0 <= q < s0.subs().len() && (#[trigger] s0.subs()[q]).sub_id() == sub_id && {
                        &&& events@ == s0.subs()[q].queue()
                        &&& s1.subs() == s0.subs().update(q, s1.subs()[q])
                        &&& s1.subs()[q].sub_id() == sub_id
                        &&& s1.subs()[q].start() == s0.subs()[q].start()
                        &&& s1.subs()[q].queue().len() == 0
                        &&& s1.subs()[q].delivered() == s0.subs()[q].delivered()
                    }
            }),
    {
        match self.find_session(terminal_id) {
            Some(i) => {
                proof {
                    self.lemma_session_index_unique(terminal_id@, i as int);
                }
                let ghost s0 = self.sessions()[i as int];
                let n_subs = self.sessions[i].subs.len();
                let mut q: usize = 0;
                while q < n_subs
                    invariant
                        0 <= i < self.sessions@.len(),
                        q <= n_subs,
                        n_subs == s0.subs().len(),
                        s0 == self.sessions@[i as int],
                        *self == *old(self),
                        old(self).wf(),
                        old(self).spec_exists(terminal_id@),
                        i as int == old(self).session_index(terminal_id@),
                        s0.id() == terminal_id@,
                        forall|p: int|
                            0 <= p < q ==> (#[trigger] s0.subs()[p]).sub_id() != sub_id,
                    decreases n_subs - q,
                {
                    if self.sessions[i].subs[q].sub_id == sub_id {
                        let ghost sb0 = s0.subs()[q as int];
                        proof {
                            assert(sb0.sub_id() == sub_id);
                        }
                        let mut out: Vec<PtyEvent> = Vec::new();
                        core::mem::swap(&mut self.sessions[i].subs[q].queue, &mut out);
                        self.sessions[i].subs[q].taken = Ghost(sb0.taken() + data_bytes(
                            sb0.queue(),
                        ));
                        proof {
                            let sb1 = self.sessions@[i as int].subs()[q as int];
                            assert(sb1.queue() =~= Seq::<PtyEvent>::empty());
                            assert(data_bytes(sb1.queue()) =~= Seq::<u8>::empty());
                            assert(sb1.delivered() =~= sb0.delivered());
                            let s1 = self.sessions@[i as int];
                            assert(s1.subs() =~= s0.subs().update(q as int, sb1));
                            assert(s1.id() == s0.id());
                            assert(s1.alive() == s0.alive());
                            assert(s1.history() == s0.history());
                            assert(s1.ring_view() == s0.ring_view());
                            assert(sb1.start() == sb0.start());
                            assert(s0.wf());
                            assert(s1.wf()) by {
                                assert forall|p: int| 0 <= p < s1.subs().len() implies {
                                    &&& 0 <= (#[trigger] s1.subs()[p]).start()
                                        <= s1.history().len()
                                    &&& s1.subs()[p].delivered() == s1.history().skip(
                                        s1.subs()[p].start(),
                                    )
                                } by {
                                    if p != q as int {
                                        assert(s1.subs()[p] == s0.subs()[p]);
                                    }
                                }
                                assert forall|p2: int, q2: int|
                                    0 <= p2 < s1.subs().len() && 0 <= q2 < s1.subs().len() && p2
                                        != q2 implies s1.subs()[p2].sub_id()
                                    != s1.subs()[q2].sub_id() by {
                                    assert(s1.subs()[p2].sub_id() == s0.subs()[p2].sub_id());
                                    assert(s1.subs()[q2].sub_id() == s0.subs()[q2].sub_id());
                                }
                            }
                            assert(self.sessions@ =~= old(self).sessions@.update(i as int, s1));
                            assert forall|p: int| 0 <= p < s1.subs().len() implies (
                            #[trigger] s1.subs()[p]).sub_id() < self.next_sub_id() by {
                                assert(s1.subs()[p].sub_id() == s0.subs()[p].sub_id());
                            }
                            lemma_update_keeps_invariants(
                                old(self).sessions@,
                                i as int,
                                s1,
                                self.next_sub_id,
                            );
                            assert(old(self).session(terminal_id@) == s0);
                            assert((old(self).session(terminal_id@).subs()[q as int]).sub_id()
                                == sub_id);
                        }
                        return Ok(out);
                    }
                    q = q + 1;
                }
                Err(no_subscriber_message(terminal_id))
            },
            None => Err(not_found_message(terminal_id)),
        }
    }

    /// With distinct identifiers, any matching index is the chosen one.
    proof fn lemma_session_index_unique(&self, id: Seq<char>, i: int)
        requires
            self.wf(),
            0 <= i < self.sessions().len(),
            self.sessions()[i].id() == id,
        ensures
            self.session_index(id) == i,
            self.session(id) == self.sessions()[i],
            self.spec_exists(id),
    {
        assert(self.spec_exists(id));
        let wi = self.session_index(id);
        assert(0 <= wi < self.sessions().len() && self.sessions()[wi].id() == id);
        if wi != i {
            assert(self.sessions()[wi].id() != self.sessions()[i].id());
        }
    }
}

/// The error text for an operation on an unknown terminal identifier.
pub fn not_found_message(terminal_id: &str) -> (r: String)
    ensures
        r@ == "No terminal with id: "@ + terminal_id@,
{
    let mut s = String::from_str("No terminal with id: ");
    s.append(terminal_id);
    s
}

/// The error text for draining an unknown subscriber of a session.
pub fn no_subscriber_message(terminal_id: &str) -> (r: String)
    ensures
        r@ == "No subscriber for terminal: "@ + terminal_id@,
{
    let mut s = String::from_str("No subscriber for terminal: ");
    s.append(terminal_id);
    s
}

/// Gap-free replay and delivery order: what a subscriber has been delivered
/// is exactly the session's output history from its join point to the
/// present, in order — the replay received on attach and the following live
/// broadcasts leave no gap.
pub proof fn lemma_gap_free_delivery(m: &TerminalManager, id: Seq<char>, q: int)
    requires
        m.wf(),
        m.spec_exists(id),
        0 <= q < m.session(id).subs().len(),
    ensures
        m.session(id).subs()[q].delivered() == m.session(id).history().skip(
            m.session(id).subs()[q].start(),
        ),
        m.session(id).subs()[q].delivered().len() == m.session(id).history().len() - m.session(
            id,
        ).subs()[q].start(),
        forall|p: int|
            0 <= p < m.session(id).subs()[q].delivered().len() ==> m.session(id).subs()[q].delivered()[p]
                == m.session(id).history()[m.session(id).subs()[q].start() + p],
{
    let i = m.session_index(id);
    assert(0 <= i < m.sessions().len() && m.sessions()[i].id() == id);
    assert(m.sessions()[i].wf());
}

/// No duplicate delivery: a byte of the session's output at position `k`,
/// produced after a subscriber joined, occupies exactly one position in the
/// subscriber's delivered sequence, namely `k - start`.
pub proof fn lemma_no_duplicate_delivery(m: &TerminalManager, id: Seq<char>, q: int, k: int)
    requires
        m.wf(),
        m.spec_exists(id),
        0 <= q < m.session(id).subs().len(),
        m.session(id).subs()[q].start() <= k < m.session(id).history().len(),
    ensures
        m.session(id).subs()[q].delivered()[k - m.session(id).subs()[q].start()] == m.session(
            id,
        ).history()[k],
        m.session(id).subs()[q].delivered().len() == m.session(id).history().len() - m.session(
            id,
        ).subs()[q].start(),
{
    lemma_gap_free_delivery(m, id, q);
}

} // verus!
