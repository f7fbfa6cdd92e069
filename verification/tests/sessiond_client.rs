use workset_core::client::SessiondClient;
use workset_core::client::check_health;
use workset_core::client::is_sessiond_running;
use workset_core::protocol::BootstrapResponse;
use workset_core::pty::PtySessionRegistry;
use workset_core::pty::bootstrap_payload;
use workset_core::pty::make_session_id;
use workset_core::pty::pty_create;

#[test]
fn session_ids_compose_workspace_and_terminal() {
    assert_eq!(make_session_id("ws", "t1"), "ws:t1");
    assert_eq!(make_session_id("", "t"), ":t");
}

#[test]
fn created_terminal_ids_are_uuids() {
    let a = pty_create();
    let b = pty_create();
    assert_eq!(a.terminal_id.len(), 36);
    assert_ne!(a.terminal_id, b.terminal_id);
    assert!(uuid::Uuid::parse_str(&a.terminal_id).is_ok());
}

#[test]
fn registry_registers_and_supersedes() {
    let mut reg = PtySessionRegistry::new();
    let (stream1, old) = reg.register("ws", "t");
    assert_eq!(stream1.len(), 36);
    assert!(old.is_none());
    let (stream2, old) = reg.register("ws", "t");
    let old = old.unwrap();
    assert_eq!(old.session_id, "ws:t");
    assert_eq!(old.stream_id, stream1);
    assert_ne!(stream1, stream2);
    assert_eq!(reg.ack_stream("ws:t").unwrap(), stream2);
}

#[test]
fn ack_without_a_session_is_rejected() {
    let reg = PtySessionRegistry::new();
    let e = reg.ack_stream("ws:t").unwrap_err();
    assert_eq!(e.category, "sessiond");
    assert_eq!(e.operation, "pty.ack");
    assert_eq!(e.message, "No active session");
}

#[test]
fn registry_remove_hands_back_the_record() {
    let mut reg = PtySessionRegistry::new();
    let (stream, _) = reg.register("ws", "t");
    let removed = reg.remove("ws:t").unwrap();
    assert_eq!(removed.stream_id, stream);
    assert_eq!(removed.workspace_name, "ws");
    assert_eq!(removed.terminal_id, "t");
    assert!(reg.remove("ws:t").is_none());
    assert!(reg.ack_stream("ws:t").is_err());
}

#[test]
fn bootstrap_payload_maps_fields() {
    let resp = BootstrapResponse {
        session_id: "ws:t".to_string(),
        snapshot: Some("snap".to_string()),
        backlog: None,
        next_offset: Some(99),
        backlog_truncated: true,
        alt_screen: false,
        mouse: true,
        mouse_sgr: false,
        mouse_encoding: None,
        safe_to_replay: true,
        initial_credit: Some(4096),
    };
    let p = bootstrap_payload("ws".to_string(), "t".to_string(), resp);
    assert_eq!(p.workspace_name, "ws");
    assert_eq!(p.terminal_id, "t");
    assert_eq!(p.snapshot.as_deref(), Some("snap"));
    assert!(p.backlog.is_none());
    assert_eq!(p.backlog_truncated, Some(true));
    assert_eq!(p.next_offset, Some(99));
    assert_eq!(p.alt_screen, Some(false));
    assert_eq!(p.mouse, Some(true));
    assert_eq!(p.safe_to_replay, Some(true));
    assert_eq!(p.initial_credit, Some(4096));
}

#[test]
fn socket_probes_reflect_the_filesystem() {
    assert!(is_sessiond_running("/"));
    assert!(!is_sessiond_running("/definitely/not/a/real/socket/path.sock"));
    assert_eq!(check_health("/definitely/not/a/real/socket/path.sock").unwrap(), false);
    assert_eq!(check_health("/").unwrap(), true);
}

#[test]
fn socket_path_for_prefers_the_dev_socket_exactly_when_asked() {
    assert_eq!(
        SessiondClient::socket_path_for("/home/u", true),
        "/home/u/.workset/sessiond-dev.sock"
    );
    assert_eq!(
        SessiondClient::socket_path_for("/home/u", false),
        "/home/u/.workset/sessiond.sock"
    );
    // with no home directory the path stays relative
    assert_eq!(SessiondClient::socket_path_for("", false), ".workset/sessiond.sock");
}

#[test]
fn default_socket_path_points_into_the_config_directory() {
    let p = SessiondClient::default_socket_path();
    assert!(p.ends_with("/.workset/sessiond-dev.sock") || p.ends_with("/.workset/sessiond.sock"));
    let c = SessiondClient::new(&p);
    assert_eq!(c.socket(), p);
}
