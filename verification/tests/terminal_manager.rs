use workset_core::terminal::PtyEvent;
use workset_core::terminal::TerminalManager;

fn data_of(events: &[PtyEvent]) -> Vec<u8> {
    let mut out = Vec::new();
    for e in events {
        if let PtyEvent::Data { data } = e {
            out.extend_from_slice(data);
        }
    }
    out
}

fn closed_count(events: &[PtyEvent]) -> usize {
    events.iter().filter(|e| matches!(e, PtyEvent::Closed { .. })).count()
}

#[test]
fn spawn_attach_replay_is_gap_free() {
    // A subscriber attaching after N bytes were produced receives exactly
    // those N bytes before anything produced later.
    let mut m = TerminalManager::new();
    let s0 = m.spawn("t1", "/tmp").unwrap();
    assert!(m.on_output_chunk("t1", b"hello"));
    let s1 = m.attach("t1").unwrap();
    assert_ne!(s0, s1);
    let replay = m.take_events("t1", s1).unwrap();
    assert_eq!(data_of(&replay), b"hello".to_vec());
    assert!(m.on_output_chunk("t1", b" world"));
    let live = m.take_events("t1", s1).unwrap();
    assert_eq!(data_of(&live), b" world".to_vec());
    // the initial subscriber saw every byte exactly once as well
    let first = m.take_events("t1", s0).unwrap();
    assert_eq!(data_of(&first), b"hello world".to_vec());
}

#[test]
fn no_byte_is_delivered_twice() {
    let mut m = TerminalManager::new();
    let s0 = m.spawn("t", "/tmp").unwrap();
    assert!(m.on_output_chunk("t", b"abc"));
    let s1 = m.attach("t").unwrap();
    assert!(m.on_output_chunk("t", b"def"));
    let got0 = data_of(&m.take_events("t", s0).unwrap());
    let got1 = data_of(&m.take_events("t", s1).unwrap());
    assert_eq!(got0, b"abcdef".to_vec());
    assert_eq!(got1, b"abcdef".to_vec());
    // nothing further pending
    assert!(m.take_events("t", s0).unwrap().is_empty());
    assert!(m.take_events("t", s1).unwrap().is_empty());
}

#[test]
fn detach_keeps_session_alive() {
    let mut m = TerminalManager::new();
    m.spawn("t", "/tmp").unwrap();
    m.detach("t").unwrap();
    assert!(m.session_exists("t"));
    assert!(m.is_alive("t"));
    // a later attach still succeeds and replays
    assert!(m.on_output_chunk("t", b"xyz"));
    let s1 = m.attach("t").unwrap();
    assert_eq!(data_of(&m.take_events("t", s1).unwrap()), b"xyz".to_vec());
}

#[test]
fn detach_unknown_is_not_found() {
    let mut m = TerminalManager::new();
    let e = m.detach("nope").unwrap_err();
    assert_eq!(e, "No terminal with id: nope");
}

#[test]
fn kill_terminates_cleanly() {
    // After kill the identifier is gone and every operation on it —
    // including another kill — fails with not-found.
    let mut m = TerminalManager::new();
    m.spawn("t", "/tmp").unwrap();
    m.kill("t").unwrap();
    assert!(!m.session_exists("t"));
    assert!(!m.is_alive("t"));
    assert_eq!(m.write("t", "x").unwrap_err(), "No terminal with id: t");
    assert_eq!(m.resize("t", 100, 40).unwrap_err(), "No terminal with id: t");
    assert!(m.attach("t").is_err());
    assert_eq!(m.kill("t").unwrap_err(), "No terminal with id: t");
}

#[test]
fn kill_hands_back_one_close_notice_per_subscriber() {
    let mut m = TerminalManager::new();
    let s0 = m.spawn("t", "/tmp").unwrap();
    let s1 = m.attach("t").unwrap();
    assert!(m.on_output_chunk("t", b"tail"));
    let leftovers = m.kill("t").unwrap();
    assert_eq!(leftovers.len(), 2);
    for (sub_id, events) in &leftovers {
        assert!(*sub_id == s0 || *sub_id == s1);
        assert_eq!(closed_count(events), 1);
        assert!(matches!(events.last().unwrap(), PtyEvent::Closed { exit_code: None }));
        assert_eq!(data_of(events), b"tail".to_vec());
    }
}

#[test]
fn kill_after_close_adds_no_second_notice() {
    // a session already marked closed has notified its subscribers; kill
    // hands back only what was still queued
    let mut m = TerminalManager::new();
    let s0 = m.spawn("t", "/tmp").unwrap();
    assert!(m.on_reader_closed("t", Some(0)));
    let evs = m.take_events("t", s0).unwrap();
    assert_eq!(closed_count(&evs), 1);
    let leftovers = m.kill("t").unwrap();
    assert_eq!(leftovers.len(), 1);
    assert_eq!(closed_count(&leftovers[0].1), 0);
}

#[test]
fn supersession_replaces_the_old_session() {
    let mut m = TerminalManager::new();
    m.spawn("t", "/tmp").unwrap();
    assert!(m.on_output_chunk("t", b"old"));
    let s1 = m.spawn("t", "/tmp").unwrap();
    // the new session starts with an empty history: nothing replays
    let evs = m.take_events("t", s1).unwrap();
    assert_eq!(data_of(&evs), Vec::<u8>::new());
    assert!(m.is_alive("t"));
}

#[test]
fn attach_to_closed_session_reports_close() {
    let mut m = TerminalManager::new();
    m.spawn("t", "/tmp").unwrap();
    assert!(m.on_output_chunk("t", b"bye"));
    assert!(m.on_reader_closed("t", Some(0)));
    assert!(!m.is_alive("t"));
    let s1 = m.attach("t").unwrap();
    let evs = m.take_events("t", s1).unwrap();
    assert_eq!(data_of(&evs), b"bye".to_vec());
    assert_eq!(closed_count(&evs), 1);
}

#[test]
fn resize_updates_the_recorded_size() {
    let mut m = TerminalManager::new();
    m.spawn("t", "/tmp").unwrap();
    m.resize("t", 132, 50).unwrap();
    assert!(m.session_exists("t"));
    assert!(m.resize("missing", 1, 1).is_err());
}

#[test]
fn write_requires_a_known_session() {
    let mut m = TerminalManager::new();
    m.spawn("t", "/tmp").unwrap();
    m.write("t", "echo hi\n").unwrap();
    assert!(m.write("other", "x").is_err());
}

#[test]
fn scenario_output_then_kill() {
    // Write input, see a data event carrying the output, then kill:
    // exactly one close event follows and no further data.
    let mut m = TerminalManager::new();
    let s0 = m.spawn("term", "/tmp").unwrap();
    m.write("term", "echo hi\n").unwrap();
    assert!(m.on_output_chunk("term", b"hi\r\n"));
    let evs = m.take_events("term", s0).unwrap();
    let text = String::from_utf8_lossy(&data_of(&evs)).to_string();
    assert!(text.contains("hi"));
    assert_eq!(closed_count(&evs), 0);
    let leftovers = m.kill("term").unwrap();
    assert_eq!(leftovers.len(), 1);
    assert_eq!(leftovers[0].0, s0);
    assert_eq!(closed_count(&leftovers[0].1), 1);
    assert_eq!(data_of(&leftovers[0].1), Vec::<u8>::new());
    assert!(!m.session_exists("term"));
    // a chunk read after teardown is dropped, never delivered; the reader's
    // own closing step finds no session and notifies nobody twice
    assert!(!m.on_output_chunk("term", b"stale"));
    assert!(!m.on_reader_closed("term", Some(0)));
}
