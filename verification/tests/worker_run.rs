use std::time::{Duration, Instant};

use stylus::status::{MonitorState, StatusState};
use stylus::config::{CssMetadataConfig, MonitorDirConfig, MonitorDirRootConfig, MonitorDirTestConfig};
use stylus::kmap::KeyMap;
use stylus::worker::{ExitOutcome, LogStream, RunSession, WorkerMessage};
use subprocess::{Exec, ExitStatus, Redirection};

fn outcome_of(st: ExitStatus) -> ExitOutcome {
    if let Some(code) = st.code() {
        ExitOutcome::Exited(code)
    } else if let Some(sig) = st.signal() {
        ExitOutcome::Signaled(sig as u8)
    } else {
        ExitOutcome::Undetermined
    }
}

fn palette() -> CssMetadataConfig {
    CssMetadataConfig {
        blank: KeyMap::new(),
        red: KeyMap::new(),
        yellow: KeyMap::new(),
        green: KeyMap::new(),
        blue: KeyMap::new(),
        orange: KeyMap::new(),
    }
}

/// Run a command through one `RunSession`, the way the worker loop does:
/// spawn, read both pipes in slices until the timeout, flush, escalate.
fn run_once(cmd: &str, args: &[&str], timeout: Duration) -> Vec<WorkerMessage> {
    let mut events = Vec::new();
    let mut session = RunSession::new(None);
    events.push(session.start());
    let mut job = Exec::cmd(cmd)
        .args(args)
        .stdout(Redirection::Pipe)
        .stderr(Redirection::Pipe)
        .start()
        .expect("spawn failed");
    let start = Instant::now();
    let mut comms = job
        .communicate()
        .expect("no pipes")
        .limit_time(Duration::from_millis(250));
    while start.elapsed() < timeout {
        let mut out: Vec<u8> = Vec::new();
        let mut err: Vec<u8> = Vec::new();
        let read = comms.read_to(&mut out, &mut err);
        events.extend(session.feed(LogStream::StdOut, &out));
        events.extend(session.feed(LogStream::StdErr, &err));
        match read {
            Ok(()) => break,
            Err(e) if e.kind() == std::io::ErrorKind::TimedOut => {
                if job.poll().is_some() {
                    break;
                }
            }
            Err(_) => break,
        }
    }
    events.extend(session.flush());
    // the escalation ladder: wait, terminate, kill, abandon
    let first = job.wait_timeout(timeout).ok().flatten().map(outcome_of);
    let mut terminated = false;
    let mut killed = false;
    if first.is_none() {
        let _ = job.terminate();
        terminated = job
            .wait_timeout(Duration::from_millis(5000))
            .ok()
            .flatten()
            .is_some();
        if !terminated {
            let _ = job.kill();
            killed = job
                .wait_timeout(Duration::from_millis(5000))
                .ok()
                .flatten()
                .is_some();
        }
    }
    let outcome = stylus::worker::death_ladder_outcome(first, terminated, killed);
    events.push(session.complete(outcome));
    events
}

fn state_for(events: Vec<WorkerMessage>) -> MonitorState {
    let config = MonitorDirConfig {
        root: MonitorDirRootConfig::Test(MonitorDirTestConfig {
            interval_ms: 1000,
            timeout_ms: 2000,
            command: "/bin/sh".to_string(),
            args: vec![],
            processor: None,
        }),
        base_path: String::new(),
        id: "probe".to_string(),
    };
    let mut state = MonitorState::new(&config);
    let palette = palette();
    for event in events {
        state.process_message(event, &palette);
    }
    state
}

#[test]
fn echo_and_exit_zero_goes_green() {
    let events = run_once(
        "/bin/sh",
        &["-c", "echo hello; exit 0"],
        Duration::from_secs(2),
    );
    assert!(matches!(events[0], WorkerMessage::Starting));
    match events.last().unwrap() {
        WorkerMessage::Termination(code) => assert_eq!(*code, 0),
        other => panic!("expected a normal exit, got {:?}", describe(other)),
    }
    let state = state_for(events);
    assert!(matches!(state.status.status.unwrap(), StatusState::Green));
    assert_eq!(state.status.description, "Success");
    assert_eq!(state.status.code, 0);
    assert_eq!(state.status.log, vec!["[stdout] hello"]);
}

#[test]
fn exit_three_goes_red() {
    let events = run_once("/bin/sh", &["-c", "exit 3"], Duration::from_secs(2));
    match events.last().unwrap() {
        WorkerMessage::Termination(code) => assert_eq!(*code, 3),
        other => panic!("expected a normal exit, got {:?}", describe(other)),
    }
    let state = state_for(events);
    assert!(matches!(state.status.status.unwrap(), StatusState::Red));
    assert_eq!(state.status.description, "Failed");
    assert_eq!(state.status.code, 3);
}

#[test]
fn sleeper_is_escalated_within_grace() {
    let begun = Instant::now();
    let events = run_once("/bin/sleep", &["10"], Duration::from_millis(250));
    assert!(begun.elapsed() < Duration::from_secs(10));
    // exactly one terminal event, after `Starting`, and it reports the
    // escalation
    assert!(matches!(events[0], WorkerMessage::Starting));
    let mut terminals = 0;
    for event in &events {
        if matches!(
            event,
            WorkerMessage::Termination(_) | WorkerMessage::AbnormalTermination(_)
        ) {
            terminals += 1;
        }
    }
    assert_eq!(terminals, 1);
    match events.last().unwrap() {
        WorkerMessage::AbnormalTermination(reason) => {
            assert!(
                reason == "Process timed out"
                    || reason == "Process exited with signal 1"
                    || reason == "Process exited with signal 9",
                "unexpected reason {}",
                reason
            );
        }
        other => panic!("expected an abnormal termination, got {:?}", describe(other)),
    }
    let state = state_for(events);
    assert!(matches!(state.status.status.unwrap(), StatusState::Yellow));
    assert_eq!(state.status.code, -1);
}

#[test]
fn meta_lines_become_directives() {
    let events = run_once(
        "/bin/sh",
        &["-c", "echo '@@STYLUS@@ status.status=\"yellow\"'; exit 0"],
        Duration::from_secs(2),
    );
    let mut saw_meta = false;
    for event in &events {
        if let WorkerMessage::Metadata(d) = event {
            assert_eq!(d, "status.status=\"yellow\"");
            saw_meta = true;
        }
    }
    assert!(saw_meta);
    let state = state_for(events);
    assert!(matches!(state.status.status.unwrap(), StatusState::Yellow));
    assert_eq!(state.status.code, 0);
}

#[test]
fn unknown_exit_reason_carries_the_code() {
    let mut session = RunSession::new(None);
    session.start();
    session.flush();
    match session.complete(ExitOutcome::Other(-1)) {
        WorkerMessage::AbnormalTermination(reason) => {
            assert_eq!(reason, "Process exited for unknown reason ffffffff");
        }
        other => panic!("expected an abnormal termination, got {:?}", describe(&other)),
    }
}

fn describe(m: &WorkerMessage) -> String {
    match m {
        WorkerMessage::Starting => "Starting".to_string(),
        WorkerMessage::LogMessage(_, s) => format!("Log({})", s),
        WorkerMessage::Metadata(s) => format!("Meta({})", s),
        WorkerMessage::Termination(c) => format!("Termination({})", c),
        WorkerMessage::AbnormalTermination(s) => format!("Abnormal({})", s),
    }
}
