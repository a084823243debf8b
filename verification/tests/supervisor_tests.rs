use scanlink::storage::AppConfig;
use scanlink::supervisor::{Supervisor, SERVER_PORT};

#[test]
fn fresh_supervisor_is_idle() {
    let sup = Supervisor::new();
    let state = sup.get_server_state();
    assert!(!state.is_running);
    assert_eq!(state.connected_clients, 0);
}

#[test]
fn install_server_publishes_connection_info() {
    let mut sup = Supervisor::new();
    let info = sup.install_server(
        "MMM".to_string(),
        "192.168.1.10".to_string(),
        AppConfig::default(),
    );
    assert_eq!(info.ip, "192.168.1.10");
    assert_eq!(info.port, SERVER_PORT);
    assert_eq!(info.token, "MMM");
    assert!(
        info.secret_key.is_none(),
        "the secret key never enters the QR payload"
    );
    let state = sup.get_server_state();
    assert!(state.is_running);
    assert_eq!(state.connected_clients, 0);
    assert!(!sup.starting);
}

#[test]
fn stop_server_requires_a_running_server() {
    let mut sup = Supervisor::new();
    let err = sup.stop_server().unwrap_err();
    assert_eq!(err, "Server is not running");

    sup.install_server(
        "MMM".to_string(),
        "10.0.0.2".to_string(),
        AppConfig::default(),
    );
    assert!(sup.stop_server().is_ok());
    assert!(!sup.get_server_state().is_running);
    assert!(sup.connection_info.is_none());
}

#[test]
fn begin_start_coalesces_concurrent_starts() {
    let mut sup = Supervisor::new();
    assert!(!sup.begin_start(), "the first caller proceeds");
    assert!(sup.begin_start(), "a concurrent caller backs off");
    sup.install_server(
        "MMM".to_string(),
        "10.0.0.2".to_string(),
        AppConfig::default(),
    );
    assert!(!sup.starting, "installation drops the flag");
}

#[test]
fn must_stop_before_start_sees_a_live_server() {
    let mut sup = Supervisor::new();
    assert!(!sup.must_stop_before_start());
    sup.install_server(
        "MMM".to_string(),
        "10.0.0.2".to_string(),
        AppConfig::default(),
    );
    assert!(sup.must_stop_before_start());
}

#[test]
fn regenerate_token_works_from_idle() {
    // Rotation is stop-then-start; with nothing running only the start
    // happens, from the store the caller hands in.
    let mut sup = Supervisor::new();
    let mut cfg = AppConfig::default();
    cfg.secret_key = Some(scanlink::security::generate_secret_key());
    let key_before = cfg.secret_key.clone();

    let info = sup.regenerate("NEW".to_string(), "10.0.0.2".to_string(), cfg);
    assert_eq!(info.token, "NEW");
    assert!(info.secret_key.is_none());
    match &sup.server {
        Some(srv) => {
            assert_eq!(srv.token, "NEW");
            assert_eq!(srv.config.secret_key, key_before);
            assert!(srv.clients.is_empty());
        }
        None => panic!("a server is running after an idle rotation"),
    }
}

#[test]
fn regenerate_token_keeps_credentials() {
    let mut sup = Supervisor::new();
    let mut cfg = AppConfig::default();
    cfg.secret_key = Some(scanlink::security::generate_secret_key());
    let key_before = cfg.secret_key.clone();
    sup.install_server("OLD".to_string(), "10.0.0.2".to_string(), cfg);

    // The live server's store wins over the fallback handed in.
    let info = sup.regenerate(
        "NEW".to_string(),
        "10.0.0.2".to_string(),
        AppConfig::default(),
    );
    assert_eq!(info.token, "NEW");
    assert!(info.secret_key.is_none());
    match &sup.server {
        Some(srv) => {
            assert_eq!(srv.token, "NEW");
            assert_eq!(srv.config.secret_key, key_before);
            assert!(srv.clients.is_empty());
        }
        None => panic!("a server is running again"),
    }
}
