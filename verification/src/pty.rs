//! State behind the daemon-backed terminal commands: the registry of active
//! streaming sessions, session identifier composition, and the shaping of a
//! bootstrap response for the UI layer.
//!
//! The surrounding application owns the socket connections and the one
//! streaming thread per session; the registry decides which stream belongs
//! to which session, which old stream a new start supersedes, and when an
//! acknowledgement has no active stream to go to.

use vstd::prelude::*;
use vstd::string::StringExecFns;
use crate::error::ErrorEnvelope;
use crate::protocol::BootstrapResponse;
use crate::types::BootstrapPayload;
use crate::types::PtyCreateResult;

verus! {

/// One active daemon-backed session: its composite identifier, the parts it
/// was composed from, and the stream opened for it. `cancelled` mirrors the
/// stop signal the application sends its streaming thread.
pub struct PtySession {
    pub session_id: String,
    pub workspace_name: String,
    pub terminal_id: String,
    pub stream_id: String,
    pub cancelled: bool,
}

/// The composite session identifier: workspace name, `:`, terminal
/// identifier.
pub fn make_session_id(workspace_name: &str, terminal_id: &str) -> (r: String)
    ensures
        r@ == workspace_name@ + ":"@ + terminal_id@,
{
    let mut s = workspace_name.to_owned();
    s.append(":");
    s.append(terminal_id);
    s
}

/// Relies on `uuid::Uuid::new_v4` and its display form: a fresh random
/// identifier, rendered as 36 hyphenated hexadecimal characters.
#[verifier::external_body]
fn new_uuid_string() -> (r: String)
    ensures
        r@.len() == 36,
{
    uuid::Uuid::new_v4().to_string()
}

/// A fresh terminal identifier for a view about to start a session.
pub fn pty_create() -> (r: PtyCreateResult)
    ensures
        r.terminal_id@.len() == 36,
{
    PtyCreateResult { terminal_id: new_uuid_string() }
}

/// No two registered sessions share an identifier.
pub open spec fn distinct_session_ids(s: Seq<PtySession>) -> bool {
    forall|i: int, k: int|
        0 <= i < s.len() && 0 <= k < s.len() && i != k ==> s[i].session_id@ != s[k].session_id@
}

/// Some registered session carries this identifier.
pub open spec fn has_session_id(s: Seq<PtySession>, id: Seq<char>) -> bool {
    exists|i: int| 0 <= i < s.len() && (#[trigger] s[i]).session_id@ == id
}

/// Registry of active daemon-backed sessions, keyed by composite session
/// identifier.
pub struct PtySessionRegistry {
    sessions: Vec<PtySession>,
}

impl PtySessionRegistry {
    pub closed spec fn sessions(&self) -> Seq<PtySession> {
        self.sessions@
    }

    pub open spec fn wf(&self) -> bool {
        distinct_session_ids(self.sessions())
    }

    pub open spec fn spec_has(&self, id: Seq<char>) -> bool {
        has_session_id(self.sessions(), id)
    }

    /// The index of the registered session with this identifier.
    pub open spec fn session_index(&self, id: Seq<char>) -> int {
        choose|i: int|
            0 <= i < self.sessions().len() && (#[trigger] self.sessions()[i]).session_id@ == id
    }

    /// The registered session with this identifier (meaningful only when
    /// `spec_has` holds; unique by the registry invariant).
    pub open spec fn session(&self, id: Seq<char>) -> PtySession {
        self.sessions()[self.session_index(id)]
    }

    pub fn new() -> (r: PtySessionRegistry)
        ensures
            r.wf(),
            r.sessions().len() == 0,
    {
        PtySessionRegistry { sessions: Vec::new() }
    }

    /// With distinct identifiers, any matching index is the chosen one.
    proof fn lemma_index_unique(&self, id: Seq<char>, i: int)
        requires
            self.wf(),
            0 <= i < self.sessions().len(),
            self.sessions()[i].session_id@ == id,
        ensures
            self.session_index(id) == i,
            self.session(id) == self.sessions()[i],
            self.spec_has(id),
    {
        assert(self.spec_has(id));
        let wi = self.session_index(id);
        if wi != i {
            assert(self.sessions()[wi].session_id@ != self.sessions()[i].session_id@);
        }
    }

    /// Index of the session with this identifier, if any.
    fn find(&self, session_id: &str) -> (r: Option<usize>)
        ensures
            match r {
                Some(i) => i < self.sessions().len() && self.sessions()[i as int].session_id@
                    == session_id@,
                None => !self.spec_has(session_id@),
            },
    {
        let key = session_id.to_owned();
        let n = self.sessions.len();
        let mut i: usize = 0;
        while i < n
            invariant
                i <= n,
                n == self.sessions().len(),
                key@ == session_id@,
                forall|j: int|
                    0 <= j < i ==> (#[trigger] self.sessions()[j]).session_id@ != session_id@,
            decreases n - i,
        {
            if self.sessions[i].session_id == key {
                return Some(i);
            }
            i = i + 1;
        }
        None
    }

    /// Start of a streaming session: compose the session identifier, draw a
    /// fresh stream identifier, and install the record. A session already
    /// registered under the same identifier is superseded — removed and
    /// handed back so the caller can signal its streaming thread to stop.
    pub fn register(&mut self, workspace_name: &str, terminal_id: &str) -> (r: (
        String,
        Option<PtySession>,
    ))
        requires
            old(self).wf(),
        ensures
            final(self).wf(),
            ({
                let sid = workspace_name@ + ":"@ + terminal_id@;
                &&& r.0@.len() == 36
                &&& final(self).spec_has(sid)
                &&& ({
                    let s = final(self).session(sid);
                    &&& s.session_id@ == sid
                    &&& s.workspace_name@ == workspace_name@
                    &&& s.terminal_id@ == terminal_id@
                    &&& s.stream_id == r.0
                    &&& !s.cancelled
                })
                &&& (r.1 matches Some(p) ==> old(self).spec_has(sid) && p == old(self).session(sid))
                &&& (r.1 is None <==> !old(self).spec_has(sid))
                &&& (old(self).spec_has(sid) ==> final(self).sessions() == old(
                    self,
                ).sessions().remove(old(self).session_index(sid)).push(
                    final(self).sessions().last(),
                ))
                &&& (!old(self).spec_has(sid) ==> final(self).sessions() == old(
                    self,
                ).sessions().push(final(self).sessions().last()))
            }),
    {
        let session_id = make_session_id(workspace_name, terminal_id);
        let stream_id = new_uuid_string();
        let removed: Option<PtySession> = match self.find(session_id.as_str()) {
            Some(i) => {
                proof {
                    self.lemma_index_unique(session_id@, i as int);
                }
                let p = self.sessions.remove(i);
                proof {
                    self.lemma_removed_clean(old(self).sessions@, i as int, session_id@);
                }
                Some(p)
            },
            None => None,
        };
        let ghost mid = self.sessions@;
        let record = PtySession {
            session_id,
            workspace_name: workspace_name.to_owned(),
            terminal_id: terminal_id.to_owned(),
            stream_id: stream_id.clone(),
            cancelled: false,
        };
        self.sessions.push(record);
        proof {
            let n = self.sessions@.len() as int;
            assert(self.sessions@[n - 1].session_id@ == workspace_name@ + ":"@ + terminal_id@);
            assert forall|j: int, k: int|
                0 <= j < n && 0 <= k < n && j != k implies self.sessions@[j].session_id@
                != self.sessions@[k].session_id@ by {
                if j < n - 1 && k < n - 1 {
                    assert(self.sessions@[j] == mid[j]);
                    assert(self.sessions@[k] == mid[k]);
                } else if j == n - 1 {
                    assert(self.sessions@[k] == mid[k]);
                } else {
                    assert(self.sessions@[j] == mid[j]);
                }
            }
            self.lemma_index_unique(workspace_name@ + ":"@ + terminal_id@, n - 1);
            assert(self.sessions@.last() == self.sessions@[n - 1]);
        }
        (stream_id, removed)
    }

    /// After removing the one session with this identifier from a registry
    /// with distinct identifiers, none carries it, and the rest keep theirs.
    proof fn lemma_removed_clean(&self, s0: Seq<PtySession>, i: int, id: Seq<char>)
        requires
            distinct_session_ids(s0),
            0 <= i < s0.len(),
            s0[i].session_id@ == id,
            self.sessions() == s0.remove(i),
        ensures
            self.wf(),
            !self.spec_has(id),
            forall|j: int|
                0 <= j < self.sessions().len() ==> (#[trigger] self.sessions()[j]) == s0[if j < i {
                    j
                } else {
                    j + 1
                }],
    {
        let r = self.sessions();
        s0.remove_ensures(i);
        assert forall|j: int| 0 <= j < r.len() implies (#[trigger] r[j]) == s0[if j < i {
            j
        } else {
            j + 1
        }] by {}
        assert forall|j: int, k: int|
            0 <= j < r.len() && 0 <= k < r.len() && j != k implies r[j].session_id@
            != r[k].session_id@ by {
            let j0 = if j < i { j } else { j + 1 };
            let k0 = if k < i { k } else { k + 1 };
            assert(r[j] == s0[j0] && r[k] == s0[k0]);
        }
        assert forall|j: int| 0 <= j < r.len() implies (#[trigger] r[j]).session_id@ != id by {
            let j0 = if j < i { j } else { j + 1 };
            assert(r[j] == s0[j0]);
            assert(s0[j0].session_id@ != s0[i].session_id@);
        }
    }

    /// The stream an acknowledgement for this session must go to: the
    /// registered stream identifier. Fails — as the command layer reports,
    /// with a `sessiond` envelope saying `No active session` — exactly when
    /// no session is registered under the identifier.
    pub fn ack_stream(&self, session_id: &str) -> (r: Result<String, ErrorEnvelope>)
        requires
            self.wf(),
        ensures
            r is Ok <==> self.spec_has(session_id@),
            r matches Ok(s) ==> s == self.session(session_id@).stream_id,
            r matches Err(e) ==> e.category@ == "sessiond"@ && e.operation@ == "pty.ack"@
                && e.message@ == "No active session"@,
    {
        match self.find(session_id) {
            Some(i) => {
                proof {
                    self.lemma_index_unique(session_id@, i as int);
                }
                Ok(self.sessions[i].stream_id.clone())
            },
            None => Err(ErrorEnvelope::new("sessiond", "pty.ack", "No active session")),
        }
    }

    /// Stop of a streaming session: remove the record, handing it back so
    /// the caller can signal its streaming thread. Removing an unknown
    /// identifier removes nothing.
    pub fn remove(&mut self, session_id: &str) -> (r: Option<PtySession>)
        requires
            old(self).wf(),
        ensures
            final(self).wf(),
            !final(self).spec_has(session_id@),
            r matches Some(p) ==> old(self).spec_has(session_id@) && p == old(self).session(
                session_id@,
            ) && final(self).sessions() == old(self).sessions().remove(
                old(self).session_index(session_id@),
            ),
            r is None <==> !old(self).spec_has(session_id@),
            r is None ==> *final(self) == *old(self),
    {
        match self.find(session_id) {
            Some(i) => {
                proof {
                    self.lemma_index_unique(session_id@, i as int);
                }
                let p = self.sessions.remove(i);
                proof {
                    self.lemma_removed_clean(old(self).sessions@, i as int, session_id@);
                }
                Some(p)
            },
            None => None,
        }
    }
}

/// Shape a bootstrap response for the UI layer, field for field; offsets and
/// credits are reinterpreted as unsigned counts.
pub fn bootstrap_payload(workspace_name: String, terminal_id: String, resp: BootstrapResponse) -> (r:
    BootstrapPayload)
    ensures
        r.workspace_name == workspace_name,
        r.terminal_id == terminal_id,
        r.snapshot == resp.snapshot,
        r.backlog == resp.backlog,
        r.backlog_truncated == Some(resp.backlog_truncated),
        r.next_offset == (match resp.next_offset {
            Some(n) => Some(n as u64),
            None => None::<u64>,
        }),
        r.alt_screen == Some(resp.alt_screen),
        r.mouse == Some(resp.mouse),
        r.mouse_sgr == Some(resp.mouse_sgr),
        r.safe_to_replay == Some(resp.safe_to_replay),
        r.initial_credit == (match resp.initial_credit {
            Some(n) => Some(n as u64),
            None => None::<u64>,
        }),
{
    BootstrapPayload {
        workspace_name,
        terminal_id,
        snapshot: resp.snapshot,
        backlog: resp.backlog,
        backlog_truncated: Some(resp.backlog_truncated),
        next_offset: match resp.next_offset {
            Some(n) => Some(n as u64),
            None => None,
        },
        alt_screen: Some(resp.alt_screen),
        mouse: Some(resp.mouse),
        mouse_sgr: Some(resp.mouse_sgr),
        safe_to_replay: Some(resp.safe_to_replay),
        initial_credit: match resp.initial_credit {
            Some(n) => Some(n as u64),
            None => None,
        },
    }
}

} // verus!
