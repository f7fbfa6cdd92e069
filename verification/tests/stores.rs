use workset_core::context::UiContextStore;
use workset_core::error::ErrorEnvelope;
use workset_core::layout::layout_file_name;
use workset_core::profiles::WorksetProfileStore;
use workset_core::types::WorksetDefaults;

#[test]
fn error_envelope_builders() {
    let e = ErrorEnvelope::new("sessiond", "pty.write", "socket gone");
    assert_eq!(e.category, "sessiond");
    assert_eq!(e.operation, "pty.write");
    assert_eq!(e.message, "socket gone");
    assert!(e.details.is_none());
    assert!(!e.retryable);
    assert!(e.suggested_actions.is_empty());
    assert_eq!(e.describe(), "[sessiond] pty.write: socket gone");

    let e = ErrorEnvelope::config("load", "bad file").with_details("line 3").retryable();
    assert_eq!(e.category, "config");
    assert_eq!(e.details.as_deref(), Some("line 3"));
    assert!(e.retryable);
    assert_eq!(ErrorEnvelope::runtime("op", "m").category, "runtime");
    assert_eq!(ErrorEnvelope::unknown("op", "m").category, "unknown");

    let d = e.duplicate();
    assert_eq!(d.category, e.category);
    assert_eq!(d.details, e.details);
    assert_eq!(d.retryable, e.retryable);
}

#[test]
fn profile_create_uses_a_slug_and_numbers_duplicates() {
    let mut store = WorksetProfileStore::new();
    let p = store.create("My Repos!", None).unwrap();
    assert_eq!(p.id, "my-repos");
    assert_eq!(p.name, "My Repos!");
    assert!(p.repos.is_empty());
    assert!(p.workspace_ids.is_empty());
    assert_eq!(p.created_at, p.updated_at);
    let p2 = store.create("My Repos!", None).unwrap();
    assert_eq!(p2.id, "my-repos-2");
    let p3 = store.create("My Repos!", None).unwrap();
    assert_eq!(p3.id, "my-repos-3");
    assert_eq!(store.list().len(), 3);
}

#[test]
fn profile_slug_falls_back_for_empty_names() {
    let mut store = WorksetProfileStore::new();
    let p = store.create("!!!", None).unwrap();
    assert_eq!(p.id, "workset");
    let p2 = store.create("", None).unwrap();
    assert_eq!(p2.id, "workset-2");
}

#[test]
fn profile_slugs_never_end_in_a_dash() {
    let mut store = WorksetProfileStore::new();
    let p = store.create("trailing!!!", None).unwrap();
    assert_eq!(p.id, "trailing");
    let p2 = store.create("a b!", None).unwrap();
    assert_eq!(p2.id, "a-b");
    assert!(!p2.id.ends_with('-'));
}

#[test]
fn profile_update_and_delete() {
    let mut store = WorksetProfileStore::new();
    let p = store.create("Alpha", None).unwrap();
    let defaults = WorksetDefaults {
        base_branch: Some("main".to_string()),
        default_remote: None,
        workspace_root: None,
    };
    let q = store.update(&p.id, Some("Beta"), Some(defaults)).unwrap();
    assert_eq!(q.name, "Beta");
    assert_eq!(q.defaults.as_ref().unwrap().base_branch.as_deref(), Some("main"));
    assert_eq!(q.created_at, p.created_at);

    let e = store.update("missing", None, None).unwrap_err();
    assert_eq!(e.category, "config");
    assert_eq!(e.operation, "workset_profiles.update");
    assert_eq!(e.message, "Workset 'missing' not found");

    store.delete(&p.id).unwrap();
    assert!(store.list().is_empty());
    let e = store.delete(&p.id).unwrap_err();
    assert_eq!(e.message, format!("Workset '{}' not found", p.id));
}

#[test]
fn profile_repo_membership() {
    let mut store = WorksetProfileStore::new();
    let p = store.create("ws", None).unwrap();
    let q = store.add_repo(&p.id, "git@host:a/one.git").unwrap();
    assert_eq!(q.repos, vec!["git@host:a/one.git".to_string()]);
    // adding the same source twice keeps one entry
    let q = store.add_repo(&p.id, "git@host:a/one.git").unwrap();
    assert_eq!(q.repos.len(), 1);
    let q = store.add_repo(&p.id, "git@host:a/two.git").unwrap();
    assert_eq!(q.repos.len(), 2);
    let q = store.remove_repo(&p.id, "git@host:a/one.git").unwrap();
    assert_eq!(q.repos, vec!["git@host:a/two.git".to_string()]);
    assert!(store.add_repo("nope", "x").is_err());
}

#[test]
fn profile_workspace_membership() {
    let mut store = WorksetProfileStore::new();
    let p = store.create("ws", None).unwrap();
    store.add_workspace(&p.id, "alpha").unwrap();
    store.add_workspace(&p.id, "alpha").unwrap();
    store.add_workspace(&p.id, "beta").unwrap();
    let listed = store.list();
    assert_eq!(listed[0].workspace_ids, vec!["alpha".to_string(), "beta".to_string()]);
    store.remove_workspace(&p.id, "alpha").unwrap();
    let listed = store.list();
    assert_eq!(listed[0].workspace_ids, vec!["beta".to_string()]);
    assert!(store.remove_workspace("nope", "x").is_err());
}

#[test]
fn ui_context_records_selections() {
    let mut ctx = UiContextStore::new();
    assert!(ctx.active_workset_id().is_none());
    ctx.set_active_workset("ws1").unwrap();
    assert_eq!(ctx.active_workset_id(), Some("ws1"));
    assert!(ctx.last_workspace_for("ws1").is_none());
    ctx.set_active_workspace("ws1", "alpha").unwrap();
    ctx.set_active_workspace("ws2", "beta").unwrap();
    assert_eq!(ctx.last_workspace_for("ws1"), Some("alpha"));
    assert_eq!(ctx.last_workspace_for("ws2"), Some("beta"));
    // a newer record replaces the old one for the same workset
    ctx.set_active_workspace("ws1", "gamma").unwrap();
    assert_eq!(ctx.last_workspace_for("ws1"), Some("gamma"));
    assert_eq!(ctx.last_workspace_for("ws2"), Some("beta"));
}

#[test]
fn ui_context_loads_from_parts() {
    let ctx = UiContextStore::from_parts(
        Some("ws".to_string()),
        vec![("a".to_string(), "x".to_string()), ("b".to_string(), "y".to_string())],
    );
    assert_eq!(ctx.active_workset_id(), Some("ws"));
    assert_eq!(ctx.last_workspace_for("a"), Some("x"));
    assert_eq!(ctx.last_workspace_for("b"), Some("y"));
}

#[test]
fn layout_file_names_are_single_components() {
    assert_eq!(layout_file_name("plain"), "plain.json");
    assert_eq!(layout_file_name("group/space"), "group__space.json");
    assert_eq!(layout_file_name("a/b/c"), "a__b__c.json");
    assert_eq!(layout_file_name(""), ".json");
}

#[test]
fn profile_store_load_drops_duplicate_identifiers() {
    let mut first = WorksetProfileStore::new();
    let a = first.create("Alpha", None).unwrap();
    let mut doubled = first.list();
    doubled.extend(first.list());
    let store = WorksetProfileStore::from_profiles(doubled);
    assert_eq!(store.list().len(), 1);
    assert_eq!(store.list()[0].id, a.id);
}

#[test]
fn ui_context_load_keeps_the_first_of_duplicate_keys() {
    let ctx = UiContextStore::from_parts(
        None,
        vec![("k".to_string(), "first".to_string()), ("k".to_string(), "second".to_string())],
    );
    assert_eq!(ctx.last_workspace_for("k"), Some("first"));
}
