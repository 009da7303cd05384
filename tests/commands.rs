use vieshare_tunnel::commands::{
    add_port_mapping, add_port_mapping_on, build_status, calculate_remaining_mappings,
    check_port_mapping_limit, frps_load_config, init_frps_config_state, remove_port_mapping,
    FrpsError, MAX_PORT_MAPPINGS,
};
use vieshare_tunnel::config::default_toml_config;

#[test]
fn add_to_empty_config_scenario() {
    let mut c = default_toml_config();
    let (name, port) = add_port_mapping(&mut c, 3000, &vec![]).unwrap();
    assert!((8001..=8999).contains(&port));
    assert!(port != 8081 && port != 8090);
    assert_eq!(name, format!("nextjs{}", port));
    assert_eq!(c.mappings.len(), 1);
    let m = &c.mappings[0];
    assert_eq!(m.name, name);
    assert_eq!(m.local_port, 3000);
    assert_eq!(m.remote_port, port);
    assert_eq!(m.local_ip, "127.0.0.1");
    assert_eq!(m.protocol, "tcp");
    assert_eq!(calculate_remaining_mappings(&c.mappings), 2);
}

#[test]
fn add_at_limit_scenario() {
    let mut c = default_toml_config();
    for p in [8101u16, 8102, 8103] {
        add_port_mapping_on(&mut c, 3000, p).unwrap();
    }
    assert_eq!(c.mappings.len(), 3);
    let before = c.to_toml_string();
    assert_eq!(add_port_mapping(&mut c, 3001, &vec![]), Err(FrpsError::LimitReached));
    assert_eq!(c.mappings.len(), 3);
    assert_eq!(c.to_toml_string(), before);
    assert_eq!(calculate_remaining_mappings(&c.mappings), 0);
}

#[test]
fn add_grows_by_one_below_the_limit() {
    let mut c = default_toml_config();
    for n in 0..MAX_PORT_MAPPINGS {
        assert_eq!(c.mappings.len(), n);
        assert!(add_port_mapping(&mut c, 4000, &vec![]).is_ok());
        assert_eq!(c.mappings.len(), n + 1);
    }
    assert_eq!(add_port_mapping_on(&mut c, 4000, 8500), Err(FrpsError::LimitReached));
    assert_eq!(c.mappings.len(), MAX_PORT_MAPPINGS);
}

#[test]
fn same_port_twice_gets_a_suffix() {
    let mut c = default_toml_config();
    assert_eq!(add_port_mapping_on(&mut c, 3000, 8123), Ok("nextjs8123".to_string()));
    assert_eq!(add_port_mapping_on(&mut c, 3001, 8123), Ok("nextjs81231".to_string()));
    assert_eq!(c.mappings[1].local_port, 3001);
}

#[test]
fn add_without_free_port_is_refused() {
    let mut c = default_toml_config();
    let all: Vec<u16> = (8001..=8999).collect();
    assert_eq!(add_port_mapping(&mut c, 3000, &all), Err(FrpsError::PortsExhausted));
    assert!(c.mappings.is_empty());
}

#[test]
fn remove_by_name() {
    let mut c = default_toml_config();
    add_port_mapping_on(&mut c, 1, 8201).unwrap();
    add_port_mapping_on(&mut c, 2, 8202).unwrap();
    assert_eq!(remove_port_mapping(&mut c, &"nextjs8201".to_string()), Ok(()));
    assert_eq!(c.mappings.len(), 1);
    assert_eq!(c.mappings[0].name, "nextjs8202");
    assert_eq!(
        remove_port_mapping(&mut c, &"nextjs8201".to_string()),
        Err(FrpsError::MappingNotFound)
    );
    assert_eq!(c.mappings.len(), 1);
}

#[test]
fn limit_check_and_remaining_count() {
    let mut c = default_toml_config();
    assert_eq!(check_port_mapping_limit(&c.mappings), Ok(()));
    assert_eq!(calculate_remaining_mappings(&c.mappings), 3);
    add_port_mapping_on(&mut c, 1, 8301).unwrap();
    assert_eq!(calculate_remaining_mappings(&c.mappings), 2);
    add_port_mapping_on(&mut c, 1, 8302).unwrap();
    add_port_mapping_on(&mut c, 1, 8303).unwrap();
    assert_eq!(check_port_mapping_limit(&c.mappings), Err(FrpsError::LimitReached));
    assert_eq!(calculate_remaining_mappings(&c.mappings), 0);
}

#[test]
fn status_without_cache_or_process() {
    let state = init_frps_config_state();
    let s = build_status(None, false, &state);
    assert!(!s.connected);
    assert_eq!(s.server_addr, "64.23.133.199");
    assert!(s.active_mappings.is_empty());
    assert_eq!(s.pid, None);
    assert_eq!(s.max_mappings, 3);
    assert_eq!(s.remaining_mappings, 3);
}

#[test]
fn status_reports_orphan_as_connected() {
    let state = init_frps_config_state();
    let s = build_status(None, true, &state);
    assert!(s.connected);
    assert_eq!(s.pid, None);
}

#[test]
fn status_uses_cached_config_and_tracked_pid() {
    let mut state = init_frps_config_state();
    let mut c = default_toml_config();
    add_port_mapping_on(&mut c, 3000, 8400).unwrap();
    c.server_addr = "cached.host".to_string();
    state.cached = Some(c);
    let s = build_status(Some(42), false, &state);
    assert!(s.connected);
    assert_eq!(s.pid, Some(42));
    assert_eq!(s.server_addr, "cached.host");
    assert_eq!(s.active_mappings.len(), 1);
    assert_eq!(s.active_mappings[0].name, "nextjs8400");
    assert_eq!(s.remaining_mappings, 2);
}

#[test]
fn load_config_gives_fixed_server() {
    let c = frps_load_config();
    assert_eq!(c.server_addr, "64.23.133.199");
    assert_eq!(c.server_port, 7000);
    assert!(c.token.is_empty() && c.user.is_empty());
}

#[test]
fn every_error_has_a_message() {
    for e in [
        FrpsError::LimitReached,
        FrpsError::MappingNotFound,
        FrpsError::PortsExhausted,
        FrpsError::AlreadyRunning,
        FrpsError::NotRunning,
    ] {
        assert!(!e.message().is_empty());
    }
    assert_eq!(FrpsError::NotRunning.message(), "No active FRPS connection found");
}
