use stylus::kmap::KeyMap;
use stylus::config::MonitorDirChildConfig;
use stylus::snmp::{
    default_accept, default_exclude, default_green, default_red, SnmpMonitorMessageProcessor,
    SnmpNetworkMonitorConfig, SnmpNetworkMonitorSnmpConfig,
};

fn processor() -> SnmpMonitorMessageProcessor {
    SnmpMonitorMessageProcessor {
        id: "port-{{ index }}".to_string(),
        accept: default_accept(),
        exclude: default_exclude(),
        red: default_red(),
        green: default_green(),
    }
}

#[test]
fn walk_line_lands_in_its_interface() {
    let mut instance = processor().instance();
    assert!(instance
        .process_message(".1.3.6.1.2.1.2.2.1.8.1 = 1")
        .is_empty());
    assert!(instance
        .process_message(".1.3.6.1.2.1.2.2.1.7.1 = 1")
        .is_empty());
    let directives = instance.finalize();
    assert!(directives.contains(&"group.port-1.status.metadata.ifOperStatus=\"up\"".to_string()));
    assert!(directives.contains(&"group.port-1.status.metadata.ifAdminStatus=\"up\"".to_string()));
    assert_eq!(
        directives.last().unwrap(),
        "group.port-1.status.status=\"green\""
    );
}

#[test]
fn oper_status_down_is_not_green() {
    let mut instance = processor().instance();
    instance.process_message(".1.3.6.1.2.1.2.2.1.8.3 = 2");
    instance.process_message(".1.3.6.1.2.1.2.2.1.7.3 = 1");
    let directives = instance.finalize();
    assert!(directives.contains(&"group.port-3.status.metadata.ifOperStatus=\"down\"".to_string()));
    // neither red nor green fires with the defaults
    assert!(!directives.iter().any(|d| d.ends_with("status.status=\"green\"")));
    assert!(!directives.iter().any(|d| d.ends_with("status.status=\"red\"")));
}

#[test]
fn unknown_lines_are_skipped() {
    let mut instance = processor().instance();
    assert!(instance.process_message("garbage with no equals").is_empty());
    assert!(instance.process_message(".1.3.6.1.9.9 = 5").is_empty());
    assert!(instance.process_message("not.numeric.oid = 5").is_empty());
    assert!(instance.finalize().is_empty());
}

#[test]
fn interface_types_are_named() {
    let mut instance = processor().instance();
    instance.process_message(".1.3.6.1.2.1.2.2.1.3.4 = 6");
    instance.process_message(".1.3.6.1.2.1.2.2.1.3.5 = 24");
    instance.process_message(".1.3.6.1.2.1.2.2.1.3.6 = 9999");
    let directives = instance.finalize();
    assert!(directives
        .contains(&"group.port-4.status.metadata.ifType=\"ethernetCsmacd\"".to_string()));
    assert!(directives
        .contains(&"group.port-5.status.metadata.ifType=\"softwareLoopback\"".to_string()));
    // an unknown type number stays numeric
    assert!(directives.contains(&"group.port-6.status.metadata.ifType=\"9999\"".to_string()));
}

#[test]
fn string_columns_keep_their_text() {
    let mut instance = processor().instance();
    instance.process_message(".1.3.6.1.2.1.2.2.1.2.2 = eth0");
    let directives = instance.finalize();
    assert!(directives.contains(&"group.port-2.status.metadata.ifDescr=\"eth0\"".to_string()));
}

#[test]
fn walk_invocation_argv_order() {
    let config = SnmpNetworkMonitorConfig {
        target: SnmpNetworkMonitorSnmpConfig {
            host: "router.local".to_string(),
            port: Some(1161),
            version: 2,
            community: "public".to_string(),
            username: None,
            auth_protocol: None,
            auth_password: None,
            privacy_protocol: None,
            privacy_password: None,
            bulk: true,
        },
        id: "port-{{ index }}".to_string(),
        interval_ms: 60_000,
        timeout_ms: 30_000,
        accept: default_accept(),
        exclude: default_exclude(),
        red: default_red(),
        green: default_green(),
        children: KeyMap::<MonitorDirChildConfig>::new(),
        test: None,
    };
    let test = config.test();
    assert_eq!(test.command, "/usr/bin/env");
    assert_eq!(
        test.args,
        vec![
            "snmpbulkwalk",
            "-OsQfne",
            "-t",
            "30",
            "-v",
            "2c",
            "-c",
            "public",
            "router.local:1161",
            "1.3.6.1.2.1.2.2",
        ]
    );
}
