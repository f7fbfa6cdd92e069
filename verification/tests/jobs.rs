use workset_core::diff::compute_diff_summary;
use workset_core::migrations::MigrationJobHandle;
use workset_core::migrations::MigrationRun;
use workset_core::migrations::MigrationStore;
use workset_core::migrations::RemoveOptions;
use workset_core::migrations::derive_repo_name;
use workset_core::migrations::remove_repo_args;
use workset_core::types::DiffFileSummary;

#[test]
fn repo_names_derive_from_sources() {
    assert_eq!(derive_repo_name("https://github.com/acme/widget.git"), "widget");
    assert_eq!(derive_repo_name("git@github.com:acme/widget.git"), "widget");
    assert_eq!(derive_repo_name("https://host/group/sub/tool.git/"), "tool.git");
    assert_eq!(derive_repo_name("host:tool"), "tool");
    assert_eq!(derive_repo_name("plain-name"), "plain-name");
    assert_eq!(derive_repo_name("stack.git.git"), "stack");
    assert_eq!(derive_repo_name("a/b/"), "b");
}

#[test]
fn remove_arguments_follow_the_options() {
    let base = remove_repo_args("ws", "tool", &None);
    assert_eq!(base, vec!["repo", "remove", "-w", "ws", "tool", "--yes"]);
    let both = remove_repo_args(
        "ws",
        "tool",
        &Some(RemoveOptions { delete_worktrees: true, delete_local: true }),
    );
    assert_eq!(
        both,
        vec!["repo", "remove", "-w", "ws", "tool", "--yes", "--delete-worktrees", "--delete-local"]
    );
    let local_only = remove_repo_args(
        "ws",
        "tool",
        &Some(RemoveOptions { delete_worktrees: false, delete_local: true }),
    );
    assert_eq!(
        local_only,
        vec!["repo", "remove", "-w", "ws", "tool", "--yes", "--delete-local"]
    );
}

#[test]
fn migration_run_progresses_per_workspace() {
    let names = vec!["a".to_string(), "b".to_string(), "c".to_string()];
    let mut run = MigrationRun::new("job1", "add", &names);
    let start = run.progress("running");
    assert_eq!(start.job_id, "job1");
    assert_eq!(start.state, "running");
    assert!(start.workspaces.iter().all(|w| w.state == "pending" && w.error.is_none()));

    run.begin(0);
    run.finish(0, Ok(()));
    run.begin(1);
    run.finish(1, Err("repo add failed: denied".to_string()));
    run.begin(2);
    run.finish(2, Ok(()));
    let p = run.progress("running");
    assert_eq!(p.workspaces[0].state, "success");
    assert_eq!(p.workspaces[1].state, "failed");
    let e = p.workspaces[1].error.as_ref().unwrap();
    assert_eq!(e.category, "migration");
    assert_eq!(e.operation, "add");
    assert_eq!(e.message, "repo add failed: denied");
    assert_eq!(p.workspaces[2].state, "success");
    assert_eq!(run.final_state(), "failed");
}

#[test]
fn migration_run_without_failures_ends_done() {
    let names = vec!["a".to_string()];
    let mut run = MigrationRun::new("j", "remove", &names);
    run.begin(0);
    run.finish(0, Ok(()));
    assert_eq!(run.final_state(), "done");
}

#[test]
fn cancellation_fails_the_remaining_workspaces() {
    let names = vec!["a".to_string(), "b".to_string(), "c".to_string()];
    let mut run = MigrationRun::new("j", "add", &names);
    run.begin(0);
    run.finish(0, Ok(()));
    run.cancel_from(1);
    let p = run.progress("canceled");
    assert_eq!(p.state, "canceled");
    assert_eq!(p.workspaces[0].state, "success");
    assert_eq!(p.workspaces[1].state, "failed");
    assert_eq!(p.workspaces[2].state, "failed");
}

#[test]
fn migration_store_cancels_by_job_id() {
    let mut store = MigrationStore::new();
    store.insert(MigrationJobHandle { job_id: "one".to_string(), cancelled: false });
    store.insert(MigrationJobHandle { job_id: "two".to_string(), cancelled: false });
    assert!(store.cancel("one"));
    assert!(store.active_jobs[0].cancelled);
    assert!(!store.active_jobs[1].cancelled);
    assert!(!store.cancel("three"));
}

fn entry(path: &str, added: u32, removed: u32) -> DiffFileSummary {
    DiffFileSummary {
        path: path.to_string(),
        prev_path: None,
        added,
        removed,
        status: "M".to_string(),
        binary: None,
    }
}

#[test]
fn diff_summary_sorts_and_totals() {
    let files = vec![entry("src/z.rs", 5, 1), entry("README.md", 2, 0), entry("src/a.rs", 1, 7)];
    let s = compute_diff_summary(files);
    let paths: Vec<&str> = s.files.iter().map(|f| f.path.as_str()).collect();
    assert_eq!(paths, vec!["README.md", "src/a.rs", "src/z.rs"]);
    assert_eq!(s.total_added, 8);
    assert_eq!(s.total_removed, 8);
}

#[test]
fn diff_summary_of_nothing_is_empty() {
    let s = compute_diff_summary(Vec::new());
    assert!(s.files.is_empty());
    assert_eq!(s.total_added, 0);
    assert_eq!(s.total_removed, 0);
}
