use portable_pty::CommandBuilder;
use portable_pty::PtySize;
use portable_pty::native_pty_system;
use std::io::Read;
use std::io::Write;
use workset_core::terminal::PtyEvent;
use workset_core::terminal::TerminalManager;

fn data_of(events: &[PtyEvent]) -> Vec<u8> {
    let mut out = Vec::new();
    for e in events {
        if let PtyEvent::Data { data } = e {
            out.extend_from_slice(data);
        }
    }
    out
}

#[test]
fn real_shell_output_reaches_the_subscriber() {
    // Drive the verified manager with a real pseudo-terminal: spawn a shell
    // in /tmp, write an echo command, feed everything the reader sees into
    // the manager, and check a subscriber receives output containing `hi`;
    // after the close step exactly one close event follows and no data.
    let pty_system = native_pty_system();
    let pair = match pty_system.openpty(
        PtySize { rows: 24, cols: 80, pixel_width: 0, pixel_height: 0 },
    ) {
        Ok(p) => p,
        Err(_) => return,  // no pseudo-terminal device in this environment
    };
    let mut cmd = CommandBuilder::new("/bin/sh");
    cmd.cwd("/tmp");
    let mut child = match pair.slave.spawn_command(cmd) {
        Ok(c) => c,
        Err(_) => return,  // no shell in this environment
    };
    drop(pair.slave);
    let mut writer = pair.master.take_writer().unwrap();
    let mut reader = pair.master.try_clone_reader().unwrap();

    let mut mgr = TerminalManager::new();
    let sub = mgr.spawn("term", "/tmp").unwrap();
    writer.write_all(b"echo hi\nexit\n").unwrap();
    writer.flush().unwrap();
    drop(writer);

    let mut buf = [0u8; 4096];
    loop {
        match reader.read(&mut buf) {
            Ok(0) => break,
            Ok(n) => {
                assert!(mgr.on_output_chunk("term", &buf[..n]));
            },
            Err(_) => break,
        }
    }
    let status = child.wait().unwrap();
    let exit_code = if status.success() { Some(0) } else { Some(1) };
    assert!(mgr.on_reader_closed("term", exit_code));

    let events = mgr.take_events("term", sub).unwrap();
    let text = String::from_utf8_lossy(&data_of(&events)).to_string();
    assert!(text.contains("hi"), "shell output did not contain the echo: {:?}", text);
    let closes = events.iter().filter(|e| matches!(e, PtyEvent::Closed { .. })).count();
    assert_eq!(closes, 1);

    let leftovers = mgr.kill("term").unwrap();
    // the close step already notified the subscriber: no second notice
    assert!(leftovers.iter().all(|(_, evs)| evs.is_empty()));
    assert!(!mgr.session_exists("term"));
    assert!(!mgr.on_output_chunk("term", b"stale"));
}
