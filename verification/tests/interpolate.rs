use stylus::config::MonitorDirAxisValue;
use stylus::interpolate::interpolate_modify;
use stylus::interpolate::interpolate_id;
use stylus::kmap::KeyMap;
use stylus::status::{empty_status, MonitorChildStatus, MonitorStatus, StatusState};

fn update(s: &str) -> Result<MonitorStatus, String> {
    let mut status = empty_status();
    let mut children: KeyMap<MonitorChildStatus> = KeyMap::new();
    interpolate_modify(&mut status, &mut children, s)?;
    Ok(status)
}

#[test]
fn test_interpolate_id() {
    let mut values: KeyMap<MonitorDirAxisValue> = KeyMap::new();
    values.insert("index".to_string(), MonitorDirAxisValue::Number(2));
    assert_eq!(
        interpolate_id(&values, "port-{{ index }}").unwrap(),
        "port-2"
    );
}

#[test]
fn test_interpolate_error() {
    let mut values: KeyMap<MonitorDirAxisValue> = KeyMap::new();
    values.insert("index".to_string(), MonitorDirAxisValue::Number(2));
    assert!(interpolate_id(&values, "port-{{ ondex }}").is_none());
}

#[test]
fn test_modify() {
    let status = update("status.status=\"red\"").unwrap();
    assert!(matches!(
        status.pending.as_ref().unwrap().status.unwrap(),
        StatusState::Red
    ));
    let status = update("status.description=\"foo\"").unwrap();
    assert_eq!(status.pending.as_ref().unwrap().description.as_ref().unwrap(), "foo");
    let status = update("status.metadata.foo=\"bar\"").unwrap();
    let pending = status.pending.as_ref().unwrap();
    let metadata = pending.metadata.as_ref().unwrap();
    assert_eq!(metadata.len(), 1);
    assert_eq!(metadata.get("foo").unwrap(), "bar");
}

#[test]
fn test_partial_syntax_is_rejected() {
    // a template that could define or invoke a partial never reaches the
    // engine
    let mut values: KeyMap<MonitorDirAxisValue> = KeyMap::new();
    values.insert("index".to_string(), MonitorDirAxisValue::Number(2));
    assert!(interpolate_id(&values, "{{> p}}").is_none());
    assert!(interpolate_id(&values, "{{#*inline \"a\"}}{{> a}}{{/inline}}{{> a}}").is_none());
    assert!(interpolate_id(&values, "{{ ~ > p}}").is_none());
    // plain interpolations still render
    assert_eq!(
        interpolate_id(&values, "port-{{ index }}").unwrap(),
        "port-2"
    );
}

#[test]
fn test_modify_rejects_bad_paths() {
    assert!(update("status.status=\"nocolour\"").is_err());
    assert!(update("nonsense.path=\"x\"").is_err());
    assert!(update("status.status=red").is_err());
    assert!(update("no equals sign").is_err());
}

#[test]
fn test_modify_child_auto_creation() {
    let mut status = empty_status();
    let mut children: KeyMap<MonitorChildStatus> = KeyMap::new();
    interpolate_modify(
        &mut status,
        &mut children,
        "group.port-7.status.status=\"green\"",
    )
    .unwrap();
    assert_eq!(children.len(), 1);
    let child = children.get("port-7").unwrap();
    // the numeric suffix becomes the child's index axis
    assert!(matches!(
        child.axes.get("index").unwrap(),
        MonitorDirAxisValue::Number(7)
    ));
    assert!(matches!(
        child.status.pending.as_ref().unwrap().status.unwrap(),
        StatusState::Green
    ));
    // this monitor's own status is untouched
    assert!(status.pending.is_none());
}
