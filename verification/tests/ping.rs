use stylus::ping::{
    default_blue, default_green, default_orange, default_red, default_yellow, parse_ping_output,
    PingMonitorConfig,
};

const LINUX_OUTPUT: &str = r#"
PING 8.8.8.8 (8.8.8.8) 56(84) bytes of data.
64 bytes from 8.8.8.8: icmp_seq=1 ttl=115 time=19.7 ms
64 bytes from 8.8.8.8: icmp_seq=2 ttl=115 time=19.7 ms
64 bytes from 8.8.8.8: icmp_seq=3 ttl=115 time=19.4 ms
^C
--- 8.8.8.8 ping statistics ---
3 packets transmitted, 3 received, 0% packet loss, time 2004ms
rtt min/avg/max/mdev = 19.392/19.611/19.746/0.156 ms
"#;

const LINUX_OUTPUT_WITH_LOSS: &str = r#"
PING 8.8.8.1 (8.8.8.1) 56(84) bytes of data.

--- 8.8.8.1 ping statistics ---
2 packets transmitted, 0 received, 100% packet loss, time 1033ms
"#;

const MACOS_OUTPUT: &str = r#"
PING 8.8.8.8 (8.8.8.8): 56 data bytes
64 bytes from 8.8.8.8: icmp_seq=0 ttl=115 time=24.027 ms
64 bytes from 8.8.8.8: icmp_seq=1 ttl=115 time=22.841 ms

--- 8.8.8.8 ping statistics ---
2 packets transmitted, 2 packets received, 0.0% packet loss
round-trip min/avg/max/stddev = 22.841/23.434/24.027/0.593 ms
"#;

const MACOS_OUTPUT_WITH_LOSS: &str = r#"
PING 8.8.8.1 (8.8.8.1): 56 data bytes
Request timeout for icmp_seq 0

--- 8.8.8.1 ping statistics ---
2 packets transmitted, 0 packets received, 100.0% packet loss
"#;

const WINDOWS_OUTPUT: &str = r#"
Reply from 8.8.8.8: bytes=1500 time=30ms TTL=54
Reply from 8.8.8.8: bytes=1500 time=30ms TTL=54
Reply from 8.8.8.8: bytes=1500 time=29ms TTL=54
Reply from 8.8.8.8: bytes=1500 time=30ms TTL=54
Reply from 8.8.8.8: bytes=1500 time=31ms TTL=54
Ping statistics for 172.217.1.142:
    Packets: Sent = 5, Received = 5, Lost = 0 (0% loss),
Approximate round trip times in milli-seconds:
    Minimum = 29ms, Maximum = 31ms, Average = 30ms
"#;

const SUB_MS_OUTPUT: &str = r#"
64 bytes from 8.8.8.8: icmp_seq=0 ttl=115 time<1 ms
64 bytes from 8.8.8.8: icmp_seq=2 ttl=115 time<1ms
Reply from 8.8.8.8: bytes=1500 time=<1ms TTL=54
Reply from 8.8.8.8: bytes=1500 time=<1 ms TTL=54
"#;

fn expect_pings(s: &str, expected: Vec<f64>) {
    let mut times = vec![];
    for line in s.lines() {
        if let Some(rtt) = parse_ping_output(line) {
            times.push(rtt);
        }
    }

    assert!(
        times.len() == expected.len(),
        "Expected {:?}, got {:?}",
        expected,
        times
    );
    for (i, time) in times.iter().enumerate() {
        assert!(
            (*time as f64 - expected[i] * 1000.0).abs() < 1.0,
            "Expected {:?}, got {:?}",
            expected[i],
            time
        );
    }
}

#[test]
fn test_ping_config_creation() {
    let config = PingMonitorConfig {
        host: "8.8.8.8".to_string(),
        interval_ms: 60_000,
        timeout_ms: 5_000,
        warning_timeout_ms: 1000,
        count: 1,
        red: default_red(),
        green: default_green(),
        blue: default_blue(),
        orange: default_orange(),
        yellow: default_yellow(),
        test: None,
    };

    let test_config = config.test();
    assert_eq!(test_config.interval_ms, 60_000);
    assert_eq!(test_config.timeout_ms, 5_000);
}

#[test]
fn test_parse_ping_output() {
    expect_pings(LINUX_OUTPUT, vec![19.7, 19.7, 19.4]);
    expect_pings(MACOS_OUTPUT, vec![24.027, 22.841]);
    expect_pings(WINDOWS_OUTPUT, vec![30.0, 30.0, 29.0, 30.0, 31.0]);
    // the `time=<1ms` notation also counts as one millisecond
    expect_pings(SUB_MS_OUTPUT, vec![1.0, 1.0, 1.0]);
}

#[test]
fn test_parse_ping_output_with_loss() {
    expect_pings(LINUX_OUTPUT_WITH_LOSS, vec![]);
    expect_pings(MACOS_OUTPUT_WITH_LOSS, vec![]);
}

#[test]
fn test_ping_run_defaults_green() {
    // three answered pings out of three: lost stays zero and the default
    // predicates choose green
    let config = PingMonitorConfig {
        host: "192.0.2.1".to_string(),
        interval_ms: 60_000,
        timeout_ms: 5_000,
        warning_timeout_ms: 1_000_000,
        count: 3,
        red: default_red(),
        green: default_green(),
        blue: default_blue(),
        orange: default_orange(),
        yellow: default_yellow(),
        test: None,
    };
    let test_config = config.test();
    let mut instance = match test_config.processor.unwrap() {
        stylus::monitor::MonitorMessageProcessor::Ping(p) => p.instance(),
        _ => panic!("expected the ping processor"),
    };
    for line in [
        "64 bytes from 8.8.8.8: icmp_seq=1 ttl=115 time=19.7 ms",
        "64 bytes from 8.8.8.8: icmp_seq=2 ttl=115 time=19.7 ms",
        "64 bytes from 8.8.8.8: icmp_seq=3 ttl=115 time=19.4 ms",
    ] {
        assert!(instance.process_message(line).is_empty());
    }
    let directives = instance.finalize();
    assert!(directives.contains(&"status.metadata.lost=\"0\"".to_string()));
    // the metadata directives come in sorted key order
    assert!(directives[0].starts_with("status.metadata.count="));
    assert!(directives[1].starts_with("status.metadata.lost="));
    assert!(directives[2].starts_with("status.metadata.rtt_avg="));
    assert!(directives[3].starts_with("status.metadata.rtt_max="));
    assert!(directives[4].starts_with("status.metadata.rtt_min="));
    assert!(directives[5].starts_with("status.metadata.warning_timeout="));
    assert_eq!(directives.last().unwrap(), "status.status=\"green\"");
}

#[test]
fn test_ping_run_all_lost_red() {
    let config = PingMonitorConfig {
        host: "192.0.2.1".to_string(),
        interval_ms: 60_000,
        timeout_ms: 5_000,
        warning_timeout_ms: 1_000_000,
        count: 2,
        red: default_red(),
        green: default_green(),
        blue: default_blue(),
        orange: default_orange(),
        yellow: default_yellow(),
        test: None,
    };
    let test_config = config.test();
    let mut instance = match test_config.processor.unwrap() {
        stylus::monitor::MonitorMessageProcessor::Ping(p) => p.instance(),
        _ => panic!("expected the ping processor"),
    };
    assert!(instance.process_message("Request timeout for icmp_seq 0").is_empty());
    let directives = instance.finalize();
    assert!(directives.contains(&"status.metadata.lost=\"2\"".to_string()));
    assert_eq!(directives.last().unwrap(), "status.status=\"red\"");
}
