use vieshare_tunnel::commands::FrpsError;
use vieshare_tunnel::config::{default_toml_config, TomlConfig};
use vieshare_tunnel::supervisor::{
    begin_connect, begin_restart, init_frps_processes, plan_disconnect, ConnectPlan,
    DisconnectOutcome, DisconnectPlan, ProcessRegistry,
};

fn custom_config() -> TomlConfig {
    let mut c = default_toml_config();
    c.server_addr = "elsewhere".to_string();
    c.server_port = 1234;
    c.token = "secret".to_string();
    c.user = "someone".to_string();
    c
}

#[test]
fn registry_tracks_one_handle() {
    let mut r: ProcessRegistry<u32> = init_frps_processes();
    assert!(!r.contains());
    r.insert(7);
    assert!(r.contains());
    assert_eq!(r.get(), Some(&7));
    assert_eq!(r.remove(), Some(7));
    assert!(!r.contains());
    assert_eq!(r.remove(), None);
}

#[test]
fn connect_while_running_touches_nothing() {
    let mut r: ProcessRegistry<u32> = init_frps_processes();
    r.insert(11);
    let mut c = custom_config();
    assert_eq!(begin_connect(&r, &mut c, true), Err(FrpsError::AlreadyRunning));
    assert_eq!(r.get(), Some(&11));
    assert_eq!(c.server_addr, "elsewhere");
    assert_eq!(c.server_port, 1234);
    assert_eq!(c.token, "secret");
    assert_eq!(c.user, "someone");
}

#[test]
fn connect_resets_server_identity() {
    let r: ProcessRegistry<u32> = init_frps_processes();
    let mut c = custom_config();
    assert_eq!(begin_connect(&r, &mut c, false), Ok(ConnectPlan { kill_orphans: false }));
    assert_eq!(c.server_addr, "64.23.133.199");
    assert_eq!(c.server_port, 7000);
    assert!(c.token.is_empty());
    assert!(c.user.is_empty());
    let mut c2 = custom_config();
    assert_eq!(begin_connect(&r, &mut c2, true), Ok(ConnectPlan { kill_orphans: true }));
}

#[test]
fn disconnect_with_nothing_running_fails() {
    assert_eq!(plan_disconnect(false, false), Err(FrpsError::NotRunning));
}

#[test]
fn disconnect_cleans_up_an_orphan() {
    assert_eq!(
        plan_disconnect(false, true),
        Ok(DisconnectPlan { kill_orphans: true, outcome: DisconnectOutcome::CleanedOrphans })
    );
}

#[test]
fn disconnect_stops_the_tracked_client() {
    assert_eq!(
        plan_disconnect(true, false),
        Ok(DisconnectPlan { kill_orphans: false, outcome: DisconnectOutcome::Stopped })
    );
    assert_eq!(
        plan_disconnect(true, true),
        Ok(DisconnectPlan { kill_orphans: true, outcome: DisconnectOutcome::Stopped })
    );
}

#[test]
fn restart_only_when_tracked() {
    let mut r: ProcessRegistry<u32> = init_frps_processes();
    assert_eq!(begin_restart(&mut r), None);
    r.insert(5);
    assert_eq!(begin_restart(&mut r), Some(5));
    assert!(!r.contains());
}
