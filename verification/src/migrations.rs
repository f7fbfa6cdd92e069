//! Migration jobs: adding or removing a repository across a set of
//! workspaces. The run itself — one external command per workspace — is the
//! application's; the per-workspace status progression, cancellation
//! semantics and final-state rule live here, together with the store of
//! active job handles.

use vstd::prelude::*;
use vstd::string::StringExecFns;
use crate::error::ErrorEnvelope;
use crate::types::MigrationProgress;
use crate::types::WorkspaceMigrationStatus;

verus! {

/// Options of a repository removal.
pub struct RemoveOptions {
    pub delete_worktrees: bool,
    pub delete_local: bool,
}

/// Handle of a started migration job; `cancelled` mirrors the stop signal
/// the application shares with the job's worker thread.
pub struct MigrationJobHandle {
    pub job_id: String,
    pub cancelled: bool,
}

/// Tracks active and completed migration jobs.
pub struct MigrationStore {
    pub active_jobs: Vec<MigrationJobHandle>,
    pub history: Vec<MigrationProgress>,
}

impl MigrationStore {
    pub fn new() -> (r: MigrationStore)
        ensures
            r.active_jobs@.len() == 0,
            r.history@.len() == 0,
    {
        MigrationStore { active_jobs: Vec::new(), history: Vec::new() }
    }

    /// Record a started job.
    pub fn insert(&mut self, handle: MigrationJobHandle)
        ensures
            final(self).active_jobs@ == old(self).active_jobs@.push(handle),
            final(self).history@ == old(self).history@,
    {
        self.active_jobs.push(handle);
    }

    /// Mark every handle carrying this job identifier cancelled. Reports
    /// whether any was found.
    pub fn cancel(&mut self, job_id: &str) -> (r: bool)
        ensures
            final(self).history@ == old(self).history@,
            final(self).active_jobs@.len() == old(self).active_jobs@.len(),
            r == (exists|j: int|
                0 <= j < old(self).active_jobs@.len() && (#[trigger] old(
                    self,
                ).active_jobs@[j]).job_id@ == job_id@),
            forall|j: int|
                0 <= j < old(self).active_jobs@.len() ==> {
                    let h0 = old(self).active_jobs@[j];
                    let h1 = #[trigger] final(self).active_jobs@[j];
                    &&& h1.job_id == h0.job_id
                    &&& (h0.job_id@ == job_id@ ==> h1.cancelled)
                    &&& (h0.job_id@ != job_id@ ==> h1.cancelled == h0.cancelled)
                },
    {
        let key = job_id.to_owned();
        let n = self.active_jobs.len();
        let mut found = false;
        let mut i: usize = 0;
        while i < n
            invariant
                i <= n,
                n == self.active_jobs@.len(),
                self.active_jobs@.len() == old(self).active_jobs@.len(),
                self.history@ == old(self).history@,
                key@ == job_id@,
                found == (exists|j: int|
                    0 <= j < i && (#[trigger] old(self).active_jobs@[j]).job_id@ == job_id@),
                forall|j: int|
                    i <= j < n ==> (#[trigger] self.active_jobs@[j]) == old(self).active_jobs@[j],
                forall|j: int|
                    0 <= j < i ==> {
                        let h0 = old(self).active_jobs@[j];
                        let h1 = #[trigger] self.active_jobs@[j];
                        &&& h1.job_id == h0.job_id
                        &&& (h0.job_id@ == job_id@ ==> h1.cancelled)
                        &&& (h0.job_id@ != job_id@ ==> h1.cancelled == h0.cancelled)
                    },
            decreases n - i,
        {
            if self.active_jobs[i].job_id == key {
                self.active_jobs[i].cancelled = true;
                found = true;
            }
            i = i + 1;
        }
        found
    }
}

/// Whether two per-workspace statuses agree on name, state and the content
/// of any error envelope.
pub open spec fn status_like(a: WorkspaceMigrationStatus, b: WorkspaceMigrationStatus) -> bool {
    &&& a.workspace_name == b.workspace_name
    &&& a.state == b.state
    &&& (match (a.error, b.error) {
        (None, None) => true,
        (Some(x), Some(y)) => {
            &&& x.category == y.category
            &&& x.operation == y.operation
            &&& x.message == y.message
            &&& x.details == y.details
            &&& x.retryable == y.retryable
            &&& x.suggested_actions@ == y.suggested_actions@
        },
        _ => false,
    })
}

/// The per-workspace progression of one migration job: every workspace
/// starts `pending`, is marked `running` when its turn comes, then
/// `success` or `failed`; a cancellation fails every workspace not yet
/// finished, and the job ends `failed` exactly when some workspace failed.
pub struct MigrationRun {
    job_id: String,
    action: String,
    statuses: Vec<WorkspaceMigrationStatus>,
}

impl MigrationRun {
    pub closed spec fn job_id(&self) -> Seq<char> {
        self.job_id@
    }

    pub closed spec fn action(&self) -> Seq<char> {
        self.action@
    }

    pub closed spec fn statuses(&self) -> Seq<WorkspaceMigrationStatus> {
        self.statuses@
    }

    /// A fresh run: one `pending` status per workspace, no errors.
    pub fn new(job_id: &str, action: &str, workspace_names: &Vec<String>) -> (r: MigrationRun)
        ensures
            r.job_id() == job_id@,
            r.action() == action@,
            r.statuses().len() == workspace_names@.len(),
            forall|j: int|
                0 <= j < workspace_names@.len() ==> {
                    let st = #[trigger] r.statuses()[j];
                    &&& st.workspace_name@ == workspace_names@[j]@
                    &&& st.state@ == "pending"@
                    &&& st.error is None
                },
    {
        let n = workspace_names.len();
        let mut statuses: Vec<WorkspaceMigrationStatus> = Vec::new();
        let mut i: usize = 0;
        while i < n
            invariant
                i <= n,
                n == workspace_names@.len(),
                statuses@.len() == i,
                forall|j: int|
                    0 <= j < i ==> {
                        let st = #[trigger] statuses@[j];
                        &&& st.workspace_name@ == workspace_names@[j]@
                        &&& st.state@ == "pending"@
                        &&& st.error is None
                    },
            decreases n - i,
        {
            statuses.push(
                WorkspaceMigrationStatus {
                    workspace_name: workspace_names[i].clone(),
                    state: "pending".to_owned(),
                    error: None,
                },
            );
            i = i + 1;
        }
        MigrationRun { job_id: job_id.to_owned(), action: action.to_owned(), statuses }
    }

    /// The workspace at `i` is being worked on now.
    pub fn begin(&mut self, i: usize)
        requires
            i < old(self).statuses().len(),
        ensures
            final(self).job_id() == old(self).job_id(),
            final(self).action() == old(self).action(),
            final(self).statuses().len() == old(self).statuses().len(),
            forall|j: int|
                0 <= j < old(self).statuses().len() && j != i ==> final(self).statuses()[j] == old(
                    self,
                ).statuses()[j],
            final(self).statuses()[i as int].workspace_name == old(
                self,
            ).statuses()[i as int].workspace_name,
            final(self).statuses()[i as int].state@ == "running"@,
            final(self).statuses()[i as int].error == old(self).statuses()[i as int].error,
    {
        self.statuses[i].state = "running".to_owned();
        proof {
            assert(self.statuses@ =~= old(self).statuses@.update(
                i as int,
                self.statuses@[i as int],
            ));
        }
    }

    /// The workspace at `i` finished: `success` on a clean run; on an error
    /// `failed`, with a `migration` envelope carrying the action as its
    /// operation and the failure text as its message.
    pub fn finish(&mut self, i: usize, result: Result<(), String>)
        requires
            i < old(self).statuses().len(),
        ensures
            final(self).job_id() == old(self).job_id(),
            final(self).action() == old(self).action(),
            final(self).statuses().len() == old(self).statuses().len(),
            forall|j: int|
                0 <= j < old(self).statuses().len() && j != i ==> final(self).statuses()[j] == old(
                    self,
                ).statuses()[j],
            final(self).statuses()[i as int].workspace_name == old(
                self,
            ).statuses()[i as int].workspace_name,
            result is Ok ==> final(self).statuses()[i as int].state@ == "success"@ && final(self).statuses()[i as int].error == old(self).statuses()[i as int].error,
            result matches Err(m) ==> ({
                let st = final(self).statuses()[i as int];
                &&& st.state@ == "failed"@
                &&& st.error matches Some(e) && e.category@ == "migration"@ && e.operation@ == old(
                    self,
                ).action() && e.message@ == m@
            }),
    {
        match result {
            Ok(()) => {
                self.statuses[i].state = "success".to_owned();
            },
            Err(m) => {
                self.statuses[i].state = "failed".to_owned();
                let e = ErrorEnvelope::new("migration", self.action.clone().as_str(), m.as_str());
                self.statuses[i].error = Some(e);
            },
        }
        proof {
            assert(self.statuses@ =~= old(self).statuses@.update(
                i as int,
                self.statuses@[i as int],
            ));
        }
    }

    /// A cancellation arrived before the workspace at `i` was started:
    /// every workspace from `i` on is marked `failed`.
    pub fn cancel_from(&mut self, i: usize)
        requires
            i <= old(self).statuses().len(),
        ensures
            final(self).job_id() == old(self).job_id(),
            final(self).action() == old(self).action(),
            final(self).statuses().len() == old(self).statuses().len(),
            forall|j: int|
                0 <= j < i ==> final(self).statuses()[j] == old(self).statuses()[j],
            forall|j: int|
                i <= j < old(self).statuses().len() ==> {
                    let st = #[trigger] final(self).statuses()[j];
                    &&& st.state@ == "failed"@
                    &&& st.workspace_name == old(self).statuses()[j].workspace_name
                    &&& st.error == old(self).statuses()[j].error
                },
    {
        let n = self.statuses.len();
        let mut k = i;
        while k < n
            invariant
                i <= k <= n,
                n == self.statuses@.len(),
                self.statuses@.len() == old(self).statuses@.len(),
                self.job_id == old(self).job_id,
                self.action == old(self).action,
                forall|j: int|
                    0 <= j < i ==> (#[trigger] self.statuses@[j]) == old(self).statuses@[j],
                forall|j: int|
                    k <= j < n ==> (#[trigger] self.statuses@[j]) == old(self).statuses@[j],
                forall|j: int|
                    i <= j < k ==> {
                        let st = #[trigger] self.statuses@[j];
                        &&& st.state@ == "failed"@
                        &&& st.workspace_name == old(self).statuses@[j].workspace_name
                        &&& st.error == old(self).statuses@[j].error
                    },
            decreases n - k,
        {
            self.statuses[k].state = "failed".to_owned();
            k = k + 1;
        }
    }

    /// Whether some workspace failed.
    pub fn any_failed(&self) -> (r: bool)
        ensures
            r == (exists|j: int|
                0 <= j < self.statuses().len() && (#[trigger] self.statuses()[j]).state@
                    == "failed"@),
    {
        let key = "failed".to_owned();
        let n = self.statuses.len();
        let mut i: usize = 0;
        while i < n
            invariant
                i <= n,
                n == self.statuses().len(),
                key@ == "failed"@,
                forall|j: int| 0 <= j < i ==> (#[trigger] self.statuses()[j]).state@ != "failed"@,
            decreases n - i,
        {
            if self.statuses[i].state == key {
                return true;
            }
            i = i + 1;
        }
        false
    }

    /// The job's final state: `failed` exactly when some workspace failed,
    /// else `done`.
    pub fn final_state(&self) -> (r: String)
        ensures
            r@ == (if exists|j: int|
                0 <= j < self.statuses().len() && (#[trigger] self.statuses()[j]).state@
                    == "failed"@ {
                "failed"@
            } else {
                "done"@
            }),
    {
        if self.any_failed() {
            "failed".to_owned()
        } else {
            "done".to_owned()
        }
    }

    /// A progress snapshot carrying the given overall state and a copy of
    /// every per-workspace status.
    pub fn progress(&self, state: &str) -> (r: MigrationProgress)
        ensures
            r.job_id@ == self.job_id(),
            r.state@ == state@,
            r.workspaces@.len() == self.statuses().len(),
            forall|j: int|
                0 <= j < r.workspaces@.len() ==> status_like(
                    #[trigger] r.workspaces@[j],
                    self.statuses()[j],
                ),
    {
        let n = self.statuses.len();
        let mut ws: Vec<WorkspaceMigrationStatus> = Vec::new();
        let mut i: usize = 0;
        while i < n
            invariant
                i <= n,
                n == self.statuses().len(),
                ws@.len() == i,
                forall|j: int|
                    0 <= j < i ==> status_like(#[trigger] ws@[j], self.statuses()[j]),
            decreases n - i,
        {
            ws.push(clone_status(&self.statuses[i]));
            i = i + 1;
        }
        MigrationProgress { job_id: self.job_id.clone(), state: state.to_owned(), workspaces: ws }
    }
}

/// The trailing `.git` suffixes stripped.
pub open spec fn strip_git(s: Seq<char>) -> Seq<char>
    decreases s.len(),
{
    if s.len() >= 4 && s.subrange(s.len() - 4, s.len() as int) == seq!['.', 'g', 'i', 't'] {
        strip_git(s.take(s.len() - 4))
    } else {
        s
    }
}

/// The trailing slashes stripped.
pub open spec fn strip_slashes(s: Seq<char>) -> Seq<char>
    decreases s.len(),
{
    if s.len() > 0 && s[s.len() - 1] == '/' {
        strip_slashes(s.drop_last())
    } else {
        s
    }
}

/// The last position of `c` in `s`, or `-1`.
pub open spec fn last_index_of(s: Seq<char>, c: char) -> int
    decreases s.len(),
{
    if s.len() == 0 {
        -1
    } else if s[s.len() - 1] == c {
        s.len() - 1
    } else {
        last_index_of(s.drop_last(), c)
    }
}

/// The repository name a source string denotes: trailing `.git` suffixes
/// and slashes stripped, then the part after the last `/` — or, without
/// one, after the last `:` — or the whole remainder.
pub open spec fn repo_name_of(url: Seq<char>) -> Seq<char> {
    let t = strip_slashes(strip_git(url));
    if last_index_of(t, '/') >= 0 {
        t.skip(last_index_of(t, '/') + 1)
    } else if last_index_of(t, ':') >= 0 {
        t.skip(last_index_of(t, ':') + 1)
    } else {
        t
    }
}

proof fn lemma_last_index_found(s: Seq<char>, c: char, i: int)
    requires
        0 <= i < s.len(),
        s[i] == c,
        forall|m: int| i < m < s.len() ==> s[m] != c,
    ensures
        last_index_of(s, c) == i,
    decreases s.len(),
{
    if i == s.len() - 1 {
    } else {
        assert(s[s.len() - 1] != c);
        let t = s.drop_last();
        assert(t[i] == s[i]);
        assert forall|m: int| i < m < t.len() implies t[m] != c by {
            assert(t[m] == s[m]);
        }
        lemma_last_index_found(t, c, i);
    }
}

proof fn lemma_last_index_absent(s: Seq<char>, c: char)
    requires
        forall|m: int| 0 <= m < s.len() ==> s[m] != c,
    ensures
        last_index_of(s, c) == -1,
    decreases s.len(),
{
    if s.len() > 0 {
        let t = s.drop_last();
        assert forall|m: int| 0 <= m < t.len() implies t[m] != c by {
            assert(t[m] == s[m]);
        }
        lemma_last_index_absent(t, c);
    }
}

/// The last position of `c` among the characters, if present.
fn last_pos(cs: &Vec<char>, c: char) -> (r: Option<usize>)
    ensures
        r matches Some(i) ==> i < cs@.len() && last_index_of(cs@, c) == i as int,
        r is None ==> last_index_of(cs@, c) == -1,
{
    let n = cs.len();
    let mut k: usize = n;
    while k > 0
        invariant
            k <= n,
            n == cs@.len(),
            forall|m: int| k <= m < n ==> cs@[m] != c,
        decreases k,
    {
        if cs[k - 1] == c {
            proof {
                lemma_last_index_found(cs@, c, k - 1);
            }
            return Some(k - 1);
        }
        k = k - 1;
    }
    proof {
        lemma_last_index_absent(cs@, c);
    }
    None
}

/// The repository name derived from a source URL, as [`repo_name_of`]
/// states it.
pub fn derive_repo_name(url: &str) -> (r: String)
    ensures
        r@ == repo_name_of(url@),
{
    let mut cs = crate::text::chars_of(url);
    while cs.len() >= 4 && cs[cs.len() - 4] == '.' && cs[cs.len() - 3] == 'g' && cs[cs.len() - 2]
        == 'i' && cs[cs.len() - 1] == 't'
        invariant
            strip_git(url@) == strip_git(cs@),
        decreases cs@.len(),
    {
        let l = cs.len();
        let ghost pre = cs@;
        proof {
            assert(pre.subrange(l - 4, l as int) =~= seq!['.', 'g', 'i', 't']);
        }
        cs.truncate(l - 4);
        proof {
            assert(cs@ =~= pre.take(l - 4));
            assert(strip_git(pre) == strip_git(pre.take(l - 4)));
        }
    }
    proof {
        if cs@.len() >= 4 && cs@.subrange(cs@.len() - 4, cs@.len() as int) == seq![
            '.',
            'g',
            'i',
            't',
        ] {
            assert(cs@[cs@.len() - 4] == '.' && cs@[cs@.len() - 3] == 'g' && cs@[cs@.len() - 2]
                == 'i' && cs@[cs@.len() - 1] == 't');
        }
        assert(strip_git(cs@) == cs@);
    }
    while cs.len() > 0 && cs[cs.len() - 1] == '/'
        invariant
            strip_slashes(strip_git(url@)) == strip_slashes(cs@),
        decreases cs@.len(),
    {
        let ghost pre = cs@;
        cs.pop();
        proof {
            assert(cs@ =~= pre.drop_last());
            assert(strip_slashes(pre) == strip_slashes(pre.drop_last()));
        }
    }
    proof {
        assert(strip_slashes(cs@) == cs@);
    }
    let start: usize = match last_pos(&cs, '/') {
        Some(i) => i + 1,
        None => match last_pos(&cs, ':') {
            Some(j) => j + 1,
            None => 0,
        },
    };
    proof {
        if last_index_of(cs@, '/') < 0 && last_index_of(cs@, ':') < 0 {
            assert(cs@.skip(0) =~= cs@);
        }
    }
    crate::text::string_from_chars(&cs, start)
}

/// The argument list of a repository removal through the workset
/// command-line tool: the fixed six arguments, then the flags the options
/// ask for.
pub fn remove_repo_args(workspace_name: &str, repo_name: &str, opts: &Option<RemoveOptions>) -> (r:
    Vec<String>)
    ensures
        ({
            let worktrees = (opts matches Some(o) && o.delete_worktrees);
            let local = (opts matches Some(o) && o.delete_local);
            let base: int = 6;
            &&& r@.len() == base + (if worktrees {
                1int
            } else {
                0int
            }) + (if local {
                1int
            } else {
                0int
            })
            &&& r@[0]@ == "repo"@
            &&& r@[1]@ == "remove"@
            &&& r@[2]@ == "-w"@
            &&& r@[3]@ == workspace_name@
            &&& r@[4]@ == repo_name@
            &&& r@[5]@ == "--yes"@
            &&& (worktrees ==> r@[6]@ == "--delete-worktrees"@)
            &&& (local ==> r@[(if worktrees {
                7int
            } else {
                6int
            })]@ == "--delete-local"@)
        }),
{
    let mut r: Vec<String> = Vec::new();
    r.push("repo".to_owned());
    r.push("remove".to_owned());
    r.push("-w".to_owned());
    r.push(workspace_name.to_owned());
    r.push(repo_name.to_owned());
    r.push("--yes".to_owned());
    match opts {
        Some(o) => {
            if o.delete_worktrees {
                r.push("--delete-worktrees".to_owned());
            }
            if o.delete_local {
                r.push("--delete-local".to_owned());
            }
        },
        None => {},
    }
    r
}

/// A copy of one per-workspace status, agreeing on every field.
fn clone_status(st: &WorkspaceMigrationStatus) -> (r: WorkspaceMigrationStatus)
    ensures
        status_like(r, *st),
{
    WorkspaceMigrationStatus {
        workspace_name: st.workspace_name.clone(),
        state: st.state.clone(),
        error: match &st.error {
            Some(e) => Some(e.duplicate()),
            None => None,
        },
    }
}

} // verus!
