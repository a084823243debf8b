use scanlink::models::AppSettings;
use scanlink::security::AuthorizedDevice;
use scanlink::storage::AppConfig;

fn record(id: &str, name: &str) -> AuthorizedDevice {
    AuthorizedDevice {
        device_id: id.to_string(),
        device_name: name.to_string(),
        device_model: None,
        paired_at: "2024-01-01T00:00:00+00:00".to_string(),
        last_seen: "2024-01-01T00:00:00+00:00".to_string(),
    }
}

#[test]
fn default_config_has_sane_preferences() {
    let cfg = AppConfig::default();
    assert!(cfg.master_token.is_none());
    assert!(cfg.secret_key.is_none());
    assert!(cfg.authorized_devices.is_empty());
    assert!(!cfg.auto_start);
    assert!(!cfg.minimize_to_tray);
    assert!(!cfg.start_minimized);
}

#[test]
fn add_device_authorizes_it() {
    let mut cfg = AppConfig::default();
    assert!(!cfg.is_device_authorized("dev-1"));
    cfg.add_device(record("dev-1", "Phone"));
    assert!(cfg.is_device_authorized("dev-1"));
    assert!(!cfg.is_device_authorized("dev-2"));
    let dev = cfg.get_device("dev-1").unwrap();
    assert_eq!(dev.device_name, "Phone");
}

#[test]
fn add_device_twice_replaces_the_record() {
    let mut cfg = AppConfig::default();
    cfg.add_device(record("dev-1", "Old name"));
    cfg.add_device(record("dev-1", "New name"));
    assert_eq!(cfg.authorized_devices.len(), 1);
    assert_eq!(cfg.get_device("dev-1").unwrap().device_name, "New name");
}

#[test]
fn remove_device_revokes_only_that_device() {
    let mut cfg = AppConfig::default();
    cfg.add_device(record("dev-1", "One"));
    cfg.add_device(record("dev-2", "Two"));
    assert!(cfg.remove_device("dev-1"));
    assert!(!cfg.is_device_authorized("dev-1"));
    assert!(cfg.is_device_authorized("dev-2"));
    assert!(!cfg.remove_device("dev-1"), "a second removal finds nothing");
}

#[test]
fn revoke_all_devices_clears_everything() {
    let mut cfg = AppConfig::default();
    cfg.add_device(record("dev-1", "One"));
    cfg.add_device(record("dev-2", "Two"));
    cfg.revoke_all_devices();
    assert!(cfg.authorized_devices.is_empty());
    assert!(!cfg.is_device_authorized("dev-1"));
    assert!(!cfg.is_device_authorized("dev-2"));
}

#[test]
fn touch_device_updates_last_seen_only() {
    let mut cfg = AppConfig::default();
    cfg.add_device(record("dev-1", "One"));
    assert!(cfg.touch_device("dev-1", "2024-06-01T12:00:00+00:00".to_string()));
    let dev = cfg.get_device("dev-1").unwrap();
    assert_eq!(dev.last_seen, "2024-06-01T12:00:00+00:00");
    assert_eq!(dev.paired_at, "2024-01-01T00:00:00+00:00");
    assert!(!cfg.touch_device("ghost", "2024-06-01T12:00:00+00:00".to_string()));
}

#[test]
fn get_device_misses_unknown_ids() {
    let cfg = AppConfig::default();
    assert!(cfg.get_device("nobody").is_none());
}

#[test]
fn settings_round_trip_through_the_config() {
    let mut cfg = AppConfig::default();
    cfg.add_device(record("dev-1", "One"));
    cfg.update_settings(&AppSettings {
        auto_start: true,
        minimize_to_tray: false,
        start_minimized: true,
    });
    let s = cfg.get_settings();
    assert!(s.auto_start);
    assert!(!s.minimize_to_tray);
    assert!(s.start_minimized);
    assert!(cfg.is_device_authorized("dev-1"), "devices are untouched");
}

#[test]
fn get_device_mut_edits_in_place() {
    let mut cfg = AppConfig::default();
    cfg.add_device(record("dev-1", "One"));
    match cfg.get_device_mut("dev-1") {
        Some(dev) => dev.device_name = "Renamed".to_string(),
        None => panic!("the record exists"),
    }
    assert_eq!(cfg.get_device("dev-1").unwrap().device_name, "Renamed");
    assert!(cfg.get_device_mut("ghost").is_none());
}
