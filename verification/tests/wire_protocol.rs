use workset_core::protocol::AckRequest;
use workset_core::protocol::AttachRequest;
use workset_core::protocol::ControlResponse;
use workset_core::protocol::CreateRequest;
use workset_core::protocol::ResizeRequest;
use workset_core::protocol::SendRequest;
use workset_core::protocol::StreamEvent;
use workset_core::protocol::StreamMessage;
use workset_core::protocol::TerminalModes;
use workset_core::protocol::ack_params;
use workset_core::protocol::attach_line;
use workset_core::protocol::classify_stream_message;
use workset_core::protocol::control_line;
use workset_core::protocol::control_outcome;
use workset_core::protocol::create_params;
use workset_core::protocol::resize_params;
use workset_core::protocol::send_params;
use workset_core::protocol::session_params;

fn message(msg_type: &str) -> StreamMessage {
    StreamMessage {
        msg_type: msg_type.to_string(),
        session_id: String::new(),
        stream_id: String::new(),
        data: None,
        len: None,
        next_offset: None,
        truncated: false,
        source: None,
        snapshot_source: None,
        backlog_source: None,
        backlog_truncated: false,
        alt_screen: false,
        mouse_mask: 0,
        mouse: false,
        mouse_sgr: false,
        mouse_encoding: None,
        safe_to_replay: false,
        initial_credit: None,
        error: None,
    }
}

#[test]
fn control_line_carries_the_protocol_version() {
    let line = control_line("stop", Some(session_params("ws:t1")));
    assert_eq!(
        String::from_utf8(line).unwrap(),
        "{\"protocolVersion\":2,\"method\":\"stop\",\"params\":{\"sessionId\":\"ws:t1\"}}\n"
    );
    let bare = control_line("ping", None);
    assert_eq!(String::from_utf8(bare).unwrap(), "{\"protocolVersion\":2,\"method\":\"ping\"}\n");
}

#[test]
fn create_params_encode_exactly() {
    let p = create_params(&CreateRequest { session_id: "a:b".to_string(), cwd: "/tmp".to_string() });
    assert_eq!(String::from_utf8(p).unwrap(), "{\"sessionId\":\"a:b\",\"cwd\":\"/tmp\"}");
}

#[test]
fn string_escaping_agrees_with_the_json_parser() {
    // Route tricky content through the encoder and back through serde_json:
    // the daemon's parser must see exactly the original characters.
    let nasty = "a\"b\\c\nd\te\u{1}f\u{7f}é—\u{1F600}";
    let p = send_params(&SendRequest { session_id: "s".to_string(), data: nasty.to_string() });
    let v: serde_json::Value = serde_json::from_slice(&p).unwrap();
    assert_eq!(v["data"].as_str().unwrap(), nasty);
    assert_eq!(v["sessionId"].as_str().unwrap(), "s");
}

#[test]
fn resize_and_ack_params_encode_numbers() {
    let p = resize_params(&ResizeRequest { session_id: "s".to_string(), cols: 132, rows: 43 });
    assert_eq!(String::from_utf8(p).unwrap(), "{\"sessionId\":\"s\",\"cols\":132,\"rows\":43}");
    let a = ack_params(
        &AckRequest { session_id: "s".to_string(), stream_id: "st".to_string(), bytes: -5 },
    );
    assert_eq!(
        String::from_utf8(a).unwrap(),
        "{\"sessionId\":\"s\",\"streamId\":\"st\",\"bytes\":-5}"
    );
}

#[test]
fn attach_line_encodes_all_fields() {
    let line = attach_line(
        &AttachRequest {
            protocol_version: 2,
            msg_type: "attach".to_string(),
            session_id: "ws:t".to_string(),
            stream_id: Some("abc".to_string()),
            since: 42,
            with_buffer: true,
        },
    );
    assert_eq!(
        String::from_utf8(line).unwrap(),
        "{\"protocolVersion\":2,\"type\":\"attach\",\"sessionId\":\"ws:t\",\"streamId\":\"abc\",\"since\":42,\"withBuffer\":true}\n"
    );
    let no_stream = attach_line(
        &AttachRequest {
            protocol_version: 2,
            msg_type: "attach".to_string(),
            session_id: "x".to_string(),
            stream_id: None,
            since: 0,
            with_buffer: false,
        },
    );
    assert_eq!(
        String::from_utf8(no_stream).unwrap(),
        "{\"protocolVersion\":2,\"type\":\"attach\",\"sessionId\":\"x\",\"since\":0,\"withBuffer\":false}\n"
    );
}

#[test]
fn control_outcome_maps_failures_uniformly() {
    let ok = control_outcome(
        ControlResponse { ok: true, result: "{}".to_string(), error: None },
    );
    assert_eq!(ok.unwrap(), "{}");
    let err = control_outcome(
        ControlResponse { ok: false, result: String::new(), error: Some("boom".to_string()) },
    );
    assert_eq!(err.unwrap_err(), "boom");
    let silent = control_outcome(ControlResponse { ok: false, result: String::new(), error: None });
    assert_eq!(silent.unwrap_err(), "Unknown error");
}

#[test]
fn stream_messages_dispatch_on_their_tag() {
    let mut b = message("bootstrap");
    b.data = Some("snapshot".to_string());
    b.initial_credit = Some(512);
    b.next_offset = Some(7);
    match classify_stream_message(&b) {
        StreamEvent::Bootstrap { snapshot, initial_credit, next_offset, .. } => {
            assert_eq!(snapshot.unwrap(), "snapshot");
            assert_eq!(initial_credit, Some(512));
            assert_eq!(next_offset, Some(7));
        },
        _ => panic!("expected a bootstrap event"),
    }

    let mut d = message("data");
    d.data = Some("héllo".to_string());
    match classify_stream_message(&d) {
        StreamEvent::Data { data, bytes } => {
            assert_eq!(data.unwrap(), "héllo");
            assert_eq!(bytes, 6);
        },
        _ => panic!("expected a data event"),
    }

    let empty = message("data");
    match classify_stream_message(&empty) {
        StreamEvent::Data { data, bytes } => {
            assert!(data.is_none());
            assert_eq!(bytes, 0);
        },
        _ => panic!("expected a data event"),
    }

    let mut mo = message("modes");
    mo.alt_screen = true;
    mo.mouse = true;
    mo.mouse_encoding = Some("sgr".to_string());
    match classify_stream_message(&mo) {
        StreamEvent::Modes { alt_screen, mouse, mouse_sgr, mouse_encoding } => {
            assert!(alt_screen && mouse && !mouse_sgr);
            assert_eq!(mouse_encoding.unwrap(), "sgr");
        },
        _ => panic!("expected a modes event"),
    }

    let mut er = message("error");
    er.error = Some("gone".to_string());
    match classify_stream_message(&er) {
        StreamEvent::Failed { message } => assert_eq!(message.unwrap(), "gone"),
        _ => panic!("expected a failure event"),
    }

    match classify_stream_message(&message("heartbeat")) {
        StreamEvent::Other => {},
        _ => panic!("expected an unhandled event"),
    }
}

#[test]
fn terminal_modes_track_the_latest_report() {
    let mut m = TerminalModes::new();
    assert!(!m.alt_screen && !m.mouse && !m.mouse_sgr && m.mouse_encoding.is_none());
    m.apply(true, true, false, Some("sgr".to_string()));
    assert!(m.alt_screen && m.mouse && !m.mouse_sgr);
    assert_eq!(m.mouse_encoding.as_deref(), Some("sgr"));
    m.apply(false, false, true, None);
    assert!(!m.alt_screen && !m.mouse && m.mouse_sgr && m.mouse_encoding.is_none());
}

#[test]
fn control_characters_use_their_escape_forms() {
    let p = send_params(
        &SendRequest { session_id: "s".to_string(), data: "\u{1b}[2Jok\u{8}\u{c}".to_string() },
    );
    let text = String::from_utf8(p).unwrap();
    assert!(text.contains("\\u001b[2Jok\\b\\f"));
    let v: serde_json::Value = serde_json::from_str(&text).unwrap();
    assert_eq!(v["data"].as_str().unwrap(), "\u{1b}[2Jok\u{8}\u{c}");
}
