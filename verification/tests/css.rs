use stylus::config::{CssConfig, CssMetadataConfig, CssRule, MonitorDirConfig, MonitorDirRootConfig,
    MonitorDirTestConfig};
use stylus::css::generate_css_for_monitor;
use stylus::kmap::KeyMap;
use stylus::status::MonitorState;
use stylus::worker::WorkerMessage;

fn state() -> MonitorState {
    let config = MonitorDirConfig {
        root: MonitorDirRootConfig::Test(MonitorDirTestConfig {
            interval_ms: 1000,
            timeout_ms: 2000,
            command: "/bin/sh".to_string(),
            args: vec![],
            processor: None,
        }),
        base_path: String::new(),
        id: "web".to_string(),
    };
    let mut state = MonitorState::new(&config);
    let mut palette = CssMetadataConfig {
        blank: KeyMap::new(),
        red: KeyMap::new(),
        yellow: KeyMap::new(),
        green: KeyMap::new(),
        blue: KeyMap::new(),
        orange: KeyMap::new(),
    };
    palette.green.insert("color".to_string(), "#0f0".to_string());
    state.process_message(WorkerMessage::Starting, &palette);
    state.process_message(
        WorkerMessage::Metadata("status.metadata.load=\"0.5\"".to_string()),
        &palette,
    );
    state.process_message(WorkerMessage::Termination(0), &palette);
    state
}

#[test]
fn synthetic_block_exposes_status() {
    let config = CssConfig { metadata: CssMetadataConfig {
        blank: KeyMap::new(),
        red: KeyMap::new(),
        yellow: KeyMap::new(),
        green: KeyMap::new(),
        blue: KeyMap::new(),
        orange: KeyMap::new(),
    }, rules: vec![] };
    let state = state();
    let css = generate_css_for_monitor(&config, &state, &vec![]);
    assert!(css.starts_with("/* web */\n\n/* Default rules */\n"));
    assert!(css.contains("[data-monitor-id=\"web\"] {"));
    assert!(css.contains("  --monitor-id: \"web\";\n"));
    assert!(css.contains("  --monitor-status: green;\n"));
    assert!(css.contains("  --monitor-code: 0;\n"));
    assert!(css.contains("  --monitor-description: \"Success\";\n"));
    // the palette property comes first, then the user metadata
    assert!(css.contains("  --monitor-metadata-color: #0f0;\n"));
    assert!(css.contains("  --monitor-metadata-load: 0.5;\n"));
}

#[test]
fn rendered_rules_follow_and_failures_are_contained() {
    let config = CssConfig {
        metadata: CssMetadataConfig {
            blank: KeyMap::new(),
            red: KeyMap::new(),
            yellow: KeyMap::new(),
            green: KeyMap::new(),
            blue: KeyMap::new(),
            orange: KeyMap::new(),
        },
        rules: vec![
            CssRule {
                selectors: "#monitor".to_string(),
                declarations: "color: green".to_string(),
            },
            CssRule {
                selectors: "#broken".to_string(),
                declarations: "nope".to_string(),
            },
        ],
    };
    let state = state();
    // the renders stand in for the template engine: one selector/declaration
    // pair per rule, a failed render yields a placeholder
    let renders = vec![
        Some("#monitor".to_string()),
        Some("color: green".to_string()),
        Some("#broken".to_string()),
        None,
    ];
    let css = generate_css_for_monitor(&config, &state, &renders);
    assert!(css.contains("#monitor {\ncolor: green\n}\n\n"));
    assert!(css.contains("#broken {\n/* failed */\n}\n\n"));
}
