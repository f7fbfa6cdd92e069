//! Plain data types exchanged with the surrounding application: command
//! results, diagnostics, diff summaries, job progress and store records.
//! The application keeps serializable copies of these for its transport and
//! converts at the boundary.

use vstd::prelude::*;

verus! {

/// The active workset/workspace selection shown by the UI.
#[derive(Debug)]
pub struct ActiveContext {
    pub active_workset_id: Option<String>,
    pub active_workspace: Option<String>,
}

/// Snapshot of the environment variables relevant to the external tools.
#[derive(Debug)]
pub struct EnvSnapshot {
    pub path: String,
    pub shell: String,
    pub home: String,
    pub ssh_auth_sock: Option<String>,
    pub git_ssh_command: Option<String>,
    pub git_askpass: Option<String>,
    pub gh_config_dir: Option<String>,
    pub gh_auth_summary: Option<String>,
}

/// Status of the session daemon as last probed.
#[derive(Debug)]
pub struct SessiondStatus {
    pub running: bool,
    pub version: Option<String>,
    pub socket_path: Option<String>,
    pub last_error: Option<String>,
    pub last_restart: Option<String>,
}

/// Per-file diff summary of one repository worktree.
#[derive(Debug)]
pub struct DiffFileSummary {
    pub path: String,
    pub prev_path: Option<String>,
    pub added: u32,
    pub removed: u32,
    pub status: String,
    pub binary: Option<bool>,
}

/// Whole-worktree diff summary: per-file entries and line totals.
#[derive(Debug)]
pub struct DiffSummary {
    pub files: Vec<DiffFileSummary>,
    pub total_added: u32,
    pub total_removed: u32,
}

/// A unified diff for a single file, possibly truncated by size limits.
#[derive(Debug)]
pub struct FilePatch {
    pub patch: String,
    pub truncated: bool,
    pub total_bytes: u64,
    pub total_lines: u32,
    pub binary: Option<bool>,
}

/// Reference to a started migration job.
#[derive(Debug)]
pub struct MigrationJobRef {
    pub job_id: String,
}

/// Migration status of one workspace within a job.
#[derive(Debug)]
pub struct WorkspaceMigrationStatus {
    pub workspace_name: String,
    pub state: String,
    pub error: Option<crate::error::ErrorEnvelope>,
}

/// Progress report of one migration job.
#[derive(Debug)]
pub struct MigrationProgress {
    pub job_id: String,
    pub state: String,
    pub workspaces: Vec<WorkspaceMigrationStatus>,
}

/// One terminal tab of a persisted layout.
#[derive(Debug)]
pub struct LayoutTab {
    pub id: String,
    pub terminal_id: String,
    pub title: String,
    pub kind: String,
}

/// Result of creating a terminal identifier.
#[derive(Debug)]
pub struct PtyCreateResult {
    pub terminal_id: String,
}

/// Bootstrap state of a daemon session, shaped for the UI layer.
#[derive(Debug)]
pub struct BootstrapPayload {
    pub workspace_name: String,
    pub terminal_id: String,
    pub snapshot: Option<String>,
    pub backlog: Option<String>,
    pub backlog_truncated: Option<bool>,
    pub next_offset: Option<u64>,
    pub alt_screen: Option<bool>,
    pub mouse: Option<bool>,
    pub mouse_sgr: Option<bool>,
    pub safe_to_replay: Option<bool>,
    pub initial_credit: Option<u64>,
}

/// One repository as the workset command-line tool lists it.
#[derive(Debug)]
pub struct RepoListEntry {
    pub name: String,
    pub local_path: String,
    pub managed: bool,
    pub repo_dir: String,
    pub remote: Option<String>,
    pub default_branch: Option<String>,
}

/// One repository instance enriched for the UI.
#[derive(Debug)]
pub struct RepoInstance {
    pub name: String,
    pub worktree_path: String,
    pub repo_dir: String,
    pub missing: bool,
    pub default_branch: Option<String>,
    pub default_remote: Option<String>,
}

/// Defaults a workset applies to new workspaces.
#[derive(Debug)]
pub struct WorksetDefaults {
    pub base_branch: Option<String>,
    pub default_remote: Option<String>,
    pub workspace_root: Option<String>,
}

/// A stored workset profile.
#[derive(Debug)]
pub struct WorksetProfile {
    pub id: String,
    pub name: String,
    pub repos: Vec<String>,
    pub workspace_ids: Vec<String>,
    pub defaults: Option<WorksetDefaults>,
    pub created_at: String,
    pub updated_at: String,
}

/// One workspace as listed to the UI.
#[derive(Debug)]
pub struct WorkspaceSummary {
    pub name: String,
    pub path: String,
    pub created_at: Option<String>,
    pub last_used: Option<String>,
    pub archived: bool,
    pub pinned: bool,
    pub pin_order: i32,
    pub expanded: bool,
}

/// Reference to a started workspace-creation job.
#[derive(Debug)]
pub struct WorkspaceCreateJobRef {
    pub job_id: String,
}

/// Provisioning state of one repository within a workspace-creation job.
#[derive(Debug)]
pub struct RepoProvisionStatus {
    pub name: String,
    pub state: String,
    pub step: Option<String>,
    pub error: Option<crate::error::ErrorEnvelope>,
}

/// Progress report of one workspace-creation job.
#[derive(Debug)]
pub struct WorkspaceCreateProgress {
    pub job_id: String,
    pub state: String,
    pub repos: Vec<RepoProvisionStatus>,
    pub workspace_name: Option<String>,
    pub workspace_path: Option<String>,
}

/// One repository of the authenticated code-hosting account.
#[derive(Debug)]
pub struct GitHubRepo {
    pub full_name: String,
    pub description: Option<String>,
    pub private: bool,
}

/// One authenticated code-hosting account.
#[derive(Debug)]
pub struct GitHubAccount {
    pub login: String,
    pub active: bool,
}

} // verus!
