use port_scan::config::{parse_wait_bound, plan_scan, resolve_ports, wait_bound_from, ConfigError, WaitBound};

fn preset() -> Vec<u16> {
    vec![80, 443, 22]
}

#[test]
fn all_selects_every_port_but_the_last() {
    let p = resolve_ports("all", &preset()).unwrap();
    assert_eq!(p.len(), 65534);
    assert_eq!(p[0], 1);
    assert_eq!(p[65533], 65534);
}

#[test]
fn top_and_empty_select_the_preset() {
    assert_eq!(resolve_ports("top", &preset()), Ok(preset()));
    assert_eq!(resolve_ports("", &preset()), Ok(preset()));
}

#[test]
fn explicit_list_keeps_order_and_duplicates() {
    assert_eq!(resolve_ports("443,22,443", &preset()), Ok(vec![443, 22, 443]));
    assert_eq!(resolve_ports("9999", &preset()), Ok(vec![9999]));
    assert_eq!(resolve_ports("+22,65535", &preset()), Ok(vec![22, 65535]));
}

#[test]
fn bad_entries_are_rejected() {
    for arg in ["0", "65536", "22,", ",22", "22,,80", "http", "22 ,80", "+", "-5", "99999999999"] {
        assert_eq!(resolve_ports(arg, &preset()), Err(ConfigError::InvalidPortList), "{}", arg);
    }
}

#[test]
fn wait_bound_reads_durations() {
    assert_eq!(parse_wait_bound("2s"), Ok(WaitBound { secs: 2, nanos: 0 }));
    assert_eq!(parse_wait_bound("500ms"), Ok(WaitBound { secs: 0, nanos: 500_000_000 }));
    assert_eq!(parse_wait_bound("1 min 30 s"), Ok(WaitBound { secs: 90, nanos: 0 }));
}

#[test]
fn wait_bound_errors() {
    assert_eq!(parse_wait_bound("soon"), Err(ConfigError::InvalidDuration));
    assert_eq!(parse_wait_bound("0s"), Err(ConfigError::ZeroDuration));
    assert_eq!(wait_bound_from(None), Err(ConfigError::InvalidDuration));
    assert_eq!(wait_bound_from(Some((1, 1_000_000_000))), Err(ConfigError::InvalidDuration));
    assert_eq!(wait_bound_from(Some((0, 0))), Err(ConfigError::ZeroDuration));
    assert_eq!(wait_bound_from(Some((0, 1))), Ok(WaitBound { secs: 0, nanos: 1 }));
}

#[test]
fn plan_checks_in_order() {
    assert_eq!(plan_scan("x", &preset(), 0, "bogus").err(), Some(ConfigError::InvalidDuration));
    assert_eq!(plan_scan("x", &preset(), 0, "2s").err(), Some(ConfigError::InvalidPortList));
    assert_eq!(plan_scan("top", &preset(), 0, "2s").err(), Some(ConfigError::ZeroChunkSize));
    let plan = plan_scan("22,80,9999", &preset(), 1024, "2s").unwrap();
    assert_eq!(plan.ports, vec![22, 80, 9999]);
    assert_eq!(plan.chunk_size, 1024);
    assert_eq!(plan.wait, WaitBound { secs: 2, nanos: 0 });
}
