use stylus::config::{
    CssMetadataConfig, MonitorDirAxisConfig, MonitorDirAxisValue, MonitorDirConfig,
    MonitorDirGroupConfig, MonitorDirRootConfig, MonitorDirTestConfig, MonitorDirChildConfig,
    materialize_group_children,
};
use stylus::kmap::KeyMap;
use stylus::status::{MonitorState, StatusState};
use stylus::worker::{LogStream, WorkerMessage};

fn plain_config(id: &str) -> MonitorDirConfig {
    MonitorDirConfig {
        root: MonitorDirRootConfig::Test(MonitorDirTestConfig {
            interval_ms: 1000,
            timeout_ms: 2000,
            command: "/bin/sh".to_string(),
            args: vec![],
            processor: None,
        }),
        base_path: String::new(),
        id: id.to_string(),
    }
}

fn palette() -> CssMetadataConfig {
    CssMetadataConfig {
        blank: KeyMap::new(),
        red: KeyMap::new(),
        yellow: KeyMap::new(),
        green: KeyMap::new(),
        blue: KeyMap::new(),
        orange: KeyMap::new(),
    }
}

#[test]
fn success_run_goes_green() {
    let config = plain_config("ok");
    let mut state = MonitorState::new(&config);
    let palette = palette();
    state.process_message(WorkerMessage::Starting, &palette);
    state.process_message(
        WorkerMessage::LogMessage(LogStream::StdOut, "hello\n".to_string()),
        &palette,
    );
    state.process_message(WorkerMessage::Termination(0), &palette);
    assert!(matches!(state.status.status.unwrap(), StatusState::Green));
    assert_eq!(state.status.description, "Success");
    assert_eq!(state.status.code, 0);
    assert_eq!(state.status.log, vec!["[stdout] hello"]);
    // after any terminal event the colour is set and nothing stays staged
    assert!(state.status.status.is_some());
    assert!(state.status.pending.is_none());
}

#[test]
fn failed_run_goes_red() {
    let config = plain_config("bad");
    let mut state = MonitorState::new(&config);
    let palette = palette();
    state.process_message(WorkerMessage::Starting, &palette);
    state.process_message(WorkerMessage::Termination(3), &palette);
    assert!(matches!(state.status.status.unwrap(), StatusState::Red));
    assert_eq!(state.status.description, "Failed");
    assert_eq!(state.status.code, 3);
}

#[test]
fn abnormal_run_goes_yellow() {
    let config = plain_config("slow");
    let mut state = MonitorState::new(&config);
    let palette = palette();
    state.process_message(WorkerMessage::Starting, &palette);
    state.process_message(
        WorkerMessage::AbnormalTermination("Process timed out".to_string()),
        &palette,
    );
    assert!(matches!(state.status.status.unwrap(), StatusState::Yellow));
    assert_eq!(state.status.description, "Process timed out");
    assert_eq!(state.status.code, -1);
    assert!(state.status.pending.is_none());
}

#[test]
fn staged_updates_land_on_green() {
    let config = plain_config("meta");
    let mut state = MonitorState::new(&config);
    let palette = palette();
    state.process_message(WorkerMessage::Starting, &palette);
    state.process_message(
        WorkerMessage::Metadata("status.status=\"yellow\"".to_string()),
        &palette,
    );
    state.process_message(
        WorkerMessage::Metadata("status.description=\"Custom (yellow)\"".to_string()),
        &palette,
    );
    state.process_message(WorkerMessage::Termination(0), &palette);
    assert!(matches!(state.status.status.unwrap(), StatusState::Yellow));
    assert_eq!(state.status.description, "Custom (yellow)");
    assert_eq!(state.status.code, 0);
}

#[test]
fn staged_updates_discarded_on_failure() {
    let config = plain_config("meta");
    let mut state = MonitorState::new(&config);
    let palette = palette();
    state.process_message(WorkerMessage::Starting, &palette);
    state.process_message(
        WorkerMessage::Metadata("status.status=\"yellow\"".to_string()),
        &palette,
    );
    state.process_message(
        WorkerMessage::Metadata("status.description=\"Custom (yellow)\"".to_string()),
        &palette,
    );
    state.process_message(WorkerMessage::Termination(1), &palette);
    assert!(matches!(state.status.status.unwrap(), StatusState::Red));
    assert_eq!(state.status.description, "Failed");
    assert_eq!(state.status.code, 1);
}

#[test]
fn bad_directive_logs_and_keeps_state() {
    let config = plain_config("meta");
    let mut state = MonitorState::new(&config);
    let palette = palette();
    state.process_message(WorkerMessage::Starting, &palette);
    state.process_message(
        WorkerMessage::Metadata("nonsense".to_string()),
        &palette,
    );
    assert!(state.status.pending.is_none());
    assert_eq!(state.status.log.len(), 2);
    assert_eq!(state.status.log[0], "[error ] nonsense");
}

fn group_config() -> MonitorDirConfig {
    let test = MonitorDirTestConfig {
        interval_ms: 1000,
        timeout_ms: 2000,
        command: "/bin/sh".to_string(),
        args: vec![],
        processor: None,
    };
    let mut group = MonitorDirGroupConfig {
        id: "group-{{ index }}".to_string(),
        test,
        axes: vec![MonitorDirAxisConfig {
            values: vec![
                MonitorDirAxisValue::Number(1),
                MonitorDirAxisValue::Number(2),
                MonitorDirAxisValue::Number(3),
                MonitorDirAxisValue::Number(4),
            ],
            name: "index".to_string(),
        }],
        children: KeyMap::<MonitorDirChildConfig>::new(),
    };
    materialize_group_children(&mut group).unwrap();
    assert_eq!(group.children.len(), 4);
    MonitorDirConfig {
        root: MonitorDirRootConfig::Group(group),
        base_path: String::new(),
        id: "grp".to_string(),
    }
}

#[test]
fn group_children_follow_the_run() {
    let config = group_config();
    let mut state = MonitorState::new(&config);
    let palette = palette();
    state.process_message(WorkerMessage::Starting, &palette);
    state.process_message(
        WorkerMessage::Metadata("group.group-2.status.status=\"green\"".to_string()),
        &palette,
    );
    state.process_message(
        WorkerMessage::Metadata("group.group-4.status.status=\"red\"".to_string()),
        &palette,
    );
    state.process_message(WorkerMessage::Termination(0), &palette);
    assert!(matches!(state.status.status.unwrap(), StatusState::Green));
    assert_eq!(state.status.description, "Success");
    let expectations = [
        ("group-1", StatusState::Blank),
        ("group-2", StatusState::Green),
        ("group-3", StatusState::Blank),
        ("group-4", StatusState::Red),
    ];
    for (id, colour) in expectations {
        let child = state.children.get(id).unwrap();
        assert_eq!(child.status.status.unwrap(), colour, "child {}", id);
    }
}

#[test]
fn group_children_adopt_non_green_outcome() {
    let config = group_config();
    let mut state = MonitorState::new(&config);
    let palette = palette();
    state.process_message(WorkerMessage::Starting, &palette);
    state.process_message(
        WorkerMessage::Metadata("group.group-2.status.status=\"green\"".to_string()),
        &palette,
    );
    state.process_message(WorkerMessage::Termination(1), &palette);
    for id in ["group-1", "group-2", "group-3", "group-4"] {
        let child = state.children.get(id).unwrap();
        assert_eq!(child.status.status.unwrap(), StatusState::Red);
        assert_eq!(child.status.description, "Failed");
        assert_eq!(child.status.code, 1);
    }
}

#[test]
fn log_cap_evicts_oldest() {
    let config = plain_config("chatty");
    let mut state = MonitorState::new(&config);
    let palette = palette();
    state.process_message(WorkerMessage::Starting, &palette);
    for i in 0..150 {
        state.process_message(
            WorkerMessage::LogMessage(LogStream::StdOut, format!("line {}", i)),
            &palette,
        );
    }
    assert_eq!(state.status.log.len(), 100);
    assert_eq!(state.status.log[0], "[stdout] line 50");
    assert_eq!(state.status.log[99], "[stdout] line 149");
}
