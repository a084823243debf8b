use scanlink::models::{PairRequest, ReconnectRequest, ScanMessage, ScanPayload};
use scanlink::security::generate_secret_key;
use scanlink::storage::AppConfig;
use scanlink::websocket::{ClientMessage, Reply, WebSocketServer};

const NOW_TS: i64 = 1_700_000_000;
const NOW_ISO: &str = "2023-11-14T22:13:20+00:00";

fn pair_request(device_id: &str, device_name: &str, master_token: &str) -> PairRequest {
    PairRequest {
        action: "pair".to_string(),
        device_id: device_id.to_string(),
        device_name: device_name.to_string(),
        device_model: None,
        master_token: master_token.to_string(),
    }
}

fn scan_message(device_id: &str, barcode: &str) -> ScanMessage {
    ScanMessage {
        action: "scan".to_string(),
        device_id: device_id.to_string(),
        device_name: None,
        device_model: None,
        timestamp: NOW_TS,
        payload: Some(ScanPayload {
            barcode: barcode.to_string(),
            barcode_type: None,
        }),
        token: None,
        auth_token: None,
    }
}

fn server(token: &str) -> WebSocketServer {
    WebSocketServer::new(token.to_string(), 8081, AppConfig::default())
}

/// Pair with the right master token, then scan with the issued auth token.
#[test]
fn pair_then_scan() {
    let mut srv = server("MMM");
    let cid = srv.client_connected();

    let reply = srv.handle_pair_request(
        cid,
        &pair_request("dev-1", "P", "MMM"),
        NOW_TS,
        NOW_ISO,
        generate_secret_key(),
    );
    let auth_token = match reply {
        Reply::PairAck {
            auth_token,
            device_id,
            timestamp,
        } => {
            assert!(!auth_token.is_empty());
            assert_eq!(device_id, "dev-1");
            assert_eq!(timestamp, NOW_TS);
            auth_token
        }
        _ => panic!("expected a pair ack"),
    };
    assert!(srv.config.is_device_authorized("dev-1"));

    let mut msg = scan_message("dev-1", "012345");
    msg.auth_token = Some(auth_token);
    let (reply, barcode) = srv.handle_scan_message(cid, &msg);
    match reply {
        Reply::ScanAck { barcode } => assert_eq!(barcode, "012345"),
        _ => panic!("expected a scan ack"),
    }
    let event = barcode.unwrap();
    assert_eq!(event.barcode, "012345");
    assert_eq!(event.device_id, "dev-1");
    assert_eq!(event.timestamp, NOW_TS);
}

/// A wrong master token draws an error and authorizes nothing.
#[test]
fn pair_with_wrong_master_token() {
    let mut srv = server("MMM");
    let cid = srv.client_connected();
    let reply = srv.handle_pair_request(
        cid,
        &pair_request("dev-1", "P", "WRONG"),
        NOW_TS,
        NOW_ISO,
        generate_secret_key(),
    );
    match reply {
        Reply::ErrorMsg { message } => assert_eq!(message, "Invalid pairing token"),
        _ => panic!("expected an error"),
    }
    assert!(!srv.config.is_device_authorized("dev-1"));
    assert_eq!(srv.get_connected_count(), 0);
}

/// After a token rotation the old auth token still reconnects.
#[test]
fn reconnect_after_restart() {
    let mut srv = server("MMM");
    let cid = srv.client_connected();
    let reply = srv.handle_pair_request(
        cid,
        &pair_request("dev-1", "P", "MMM"),
        NOW_TS,
        NOW_ISO,
        generate_secret_key(),
    );
    let auth_token = match reply {
        Reply::PairAck { auth_token, .. } => auth_token,
        _ => panic!("expected a pair ack"),
    };

    // Rotation: a new server under a fresh master token, same credentials.
    let mut srv2 = WebSocketServer::new("NNN".to_string(), 8081, srv.config);
    let cid2 = srv2.client_connected();
    let reply = srv2.handle_reconnect_request(
        cid2,
        &ReconnectRequest {
            action: "reconnect".to_string(),
            device_id: "dev-1".to_string(),
            auth_token,
        },
        NOW_TS + 60,
        NOW_ISO,
    );
    match reply {
        Reply::ReconnectOk {
            device_id,
            timestamp,
        } => {
            assert_eq!(device_id, "dev-1");
            assert_eq!(timestamp, NOW_TS + 60);
        }
        _ => panic!("expected a reconnect ack with status connected"),
    }
    assert_eq!(srv2.get_connected_count(), 1);
}

/// After a revocation the same reconnect is refused as unauthorized.
#[test]
fn reconnect_after_revoke() {
    let mut srv = server("MMM");
    let cid = srv.client_connected();
    let reply = srv.handle_pair_request(
        cid,
        &pair_request("dev-1", "P", "MMM"),
        NOW_TS,
        NOW_ISO,
        generate_secret_key(),
    );
    let auth_token = match reply {
        Reply::PairAck { auth_token, .. } => auth_token,
        _ => panic!("expected a pair ack"),
    };

    srv.config.remove_device("dev-1");

    let cid2 = srv.client_connected();
    let reply = srv.handle_reconnect_request(
        cid2,
        &ReconnectRequest {
            action: "reconnect".to_string(),
            device_id: "dev-1".to_string(),
            auth_token,
        },
        NOW_TS + 60,
        NOW_ISO,
    );
    match reply {
        Reply::ReconnectUnauthorized { message } => {
            assert_eq!(message, "Device not authorized. Please pair again.");
        }
        _ => panic!("expected a reconnect ack with status unauthorized"),
    }
}

/// A second socket reconnecting for the same device evicts the first.
#[test]
fn duplicate_socket_is_evicted() {
    let mut srv = server("MMM");
    let cid1 = srv.client_connected();
    let reply = srv.handle_pair_request(
        cid1,
        &pair_request("dev-1", "P", "MMM"),
        NOW_TS,
        NOW_ISO,
        generate_secret_key(),
    );
    let auth_token = match reply {
        Reply::PairAck { auth_token, .. } => auth_token,
        _ => panic!("expected a pair ack"),
    };
    assert_eq!(srv.get_connected_count(), 1);

    let cid2 = srv.client_connected();
    assert_eq!(srv.clients.len(), 2);
    let reply = srv.handle_reconnect_request(
        cid2,
        &ReconnectRequest {
            action: "reconnect".to_string(),
            device_id: "dev-1".to_string(),
            auth_token,
        },
        NOW_TS + 5,
        NOW_ISO,
    );
    assert!(matches!(reply, Reply::ReconnectOk { .. }));
    assert_eq!(srv.get_connected_count(), 1);
    assert_eq!(srv.clients.len(), 1);
    assert_eq!(srv.clients[0].client_id, cid2);
}

/// Malformed input draws an error; the session survives and a handshake
/// still answers.
#[test]
fn malformed_then_handshake() {
    let mut srv = server("MMM");
    let cid = srv.client_connected();

    let (reply, barcode) = srv.handle_message(
        cid,
        ClientMessage::Malformed("Invalid scan message format".to_string()),
        NOW_TS,
        NOW_ISO,
        generate_secret_key(),
    );
    match reply {
        Some(Reply::ErrorMsg { message }) => assert_eq!(message, "Invalid scan message format"),
        _ => panic!("expected an error"),
    }
    assert!(barcode.is_none());
    assert_eq!(srv.clients.len(), 1);

    let (reply, _) = srv.handle_message(
        cid,
        ClientMessage::Handshake,
        NOW_TS + 1,
        NOW_ISO,
        generate_secret_key(),
    );
    match reply {
        Some(Reply::HandshakeAck {
            client_id,
            timestamp,
        }) => {
            assert_eq!(client_id, cid);
            assert_eq!(timestamp, NOW_TS + 1);
        }
        _ => panic!("expected a handshake ack"),
    }
}

/// Unknown actions are ignored without a reply.
#[test]
fn unknown_action_is_ignored() {
    let mut srv = server("MMM");
    let cid = srv.client_connected();
    let (reply, barcode) = srv.handle_message(
        cid,
        ClientMessage::Unknown("selftest".to_string()),
        NOW_TS,
        NOW_ISO,
        generate_secret_key(),
    );
    assert!(reply.is_none());
    assert!(barcode.is_none());
    assert_eq!(srv.clients.len(), 1);
}

/// A scan without a payload is refused.
#[test]
fn scan_without_payload() {
    let mut srv = server("MMM");
    let cid = srv.client_connected();
    let mut msg = scan_message("dev-1", "ignored");
    msg.payload = None;
    msg.token = Some("MMM".to_string());
    let (reply, barcode) = srv.handle_scan_message(cid, &msg);
    match reply {
        Reply::ErrorMsg { message } => assert_eq!(message, "Missing payload"),
        _ => panic!("expected an error"),
    }
    assert!(barcode.is_none());
}

/// The legacy path: a scan that carries the master token is accepted even
/// before any pairing.
#[test]
fn scan_with_master_token() {
    let mut srv = server("MMM");
    let cid = srv.client_connected();
    let mut msg = scan_message("dev-7", "99999");
    msg.token = Some("MMM".to_string());
    let (reply, barcode) = srv.handle_scan_message(cid, &msg);
    assert!(matches!(reply, Reply::ScanAck { .. }));
    assert_eq!(barcode.unwrap().barcode, "99999");
    assert_eq!(srv.get_connected_count(), 1);
}

/// A scan with no credentials at all is refused.
#[test]
fn scan_without_credentials() {
    let mut srv = server("MMM");
    let cid = srv.client_connected();
    let msg = scan_message("dev-7", "99999");
    let (reply, barcode) = srv.handle_scan_message(cid, &msg);
    match reply {
        Reply::ErrorMsg { message } => assert_eq!(message, "Invalid token"),
        _ => panic!("expected an error"),
    }
    assert!(barcode.is_none());
}

/// An authenticated session whose device was revoked can still fall back to
/// the master token carried in the scan itself.
#[test]
fn revoked_session_falls_back_to_master_token() {
    let mut srv = server("MMM");
    let cid = srv.client_connected();
    srv.handle_pair_request(
        cid,
        &pair_request("dev-1", "P", "MMM"),
        NOW_TS,
        NOW_ISO,
        generate_secret_key(),
    );
    srv.config.remove_device("dev-1");

    let mut msg = scan_message("dev-1", "11111");
    let (reply, _) = srv.handle_scan_message(cid, &msg);
    assert!(matches!(reply, Reply::ErrorMsg { .. }));

    msg.token = Some("MMM".to_string());
    let (reply, barcode) = srv.handle_scan_message(cid, &msg);
    assert!(matches!(reply, Reply::ScanAck { .. }));
    assert_eq!(barcode.unwrap().barcode, "11111");
}

/// Reconnecting with no secret key configured is a server error.
#[test]
fn reconnect_without_secret_key() {
    let mut cfg = AppConfig::default();
    cfg.add_device(scanlink::security::AuthorizedDevice {
        device_id: "dev-1".to_string(),
        device_name: "P".to_string(),
        device_model: None,
        paired_at: NOW_ISO.to_string(),
        last_seen: NOW_ISO.to_string(),
    });
    let mut srv = WebSocketServer::new("MMM".to_string(), 8081, cfg);
    let cid = srv.client_connected();
    let reply = srv.handle_reconnect_request(
        cid,
        &ReconnectRequest {
            action: "reconnect".to_string(),
            device_id: "dev-1".to_string(),
            auth_token: "bogus".to_string(),
        },
        NOW_TS,
        NOW_ISO,
    );
    match reply {
        Reply::ErrorMsg { message } => assert_eq!(message, "Server configuration error"),
        _ => panic!("expected a server configuration error"),
    }
}

/// Reconnecting with a bad token is refused as invalid.
#[test]
fn reconnect_with_invalid_token() {
    let mut srv = server("MMM");
    let cid = srv.client_connected();
    srv.handle_pair_request(
        cid,
        &pair_request("dev-1", "P", "MMM"),
        NOW_TS,
        NOW_ISO,
        generate_secret_key(),
    );
    let cid2 = srv.client_connected();
    let reply = srv.handle_reconnect_request(
        cid2,
        &ReconnectRequest {
            action: "reconnect".to_string(),
            device_id: "dev-1".to_string(),
            auth_token: "bogus".to_string(),
        },
        NOW_TS,
        NOW_ISO,
    );
    match reply {
        Reply::ReconnectInvalidToken { message } => {
            assert_eq!(message, "Invalid auth token. Please pair again.");
        }
        _ => panic!("expected a reconnect ack with status invalid_token"),
    }
}

/// Reconnecting touches the record's last sighting.
#[test]
fn reconnect_touches_last_seen() {
    let mut srv = server("MMM");
    let cid = srv.client_connected();
    let reply = srv.handle_pair_request(
        cid,
        &pair_request("dev-1", "P", "MMM"),
        NOW_TS,
        NOW_ISO,
        generate_secret_key(),
    );
    let auth_token = match reply {
        Reply::PairAck { auth_token, .. } => auth_token,
        _ => panic!("expected a pair ack"),
    };
    let later = "2024-02-02T02:02:02+00:00";
    srv.handle_reconnect_request(
        cid,
        &ReconnectRequest {
            action: "reconnect".to_string(),
            device_id: "dev-1".to_string(),
            auth_token,
        },
        NOW_TS + 100,
        later,
    );
    let dev = srv.config.get_device("dev-1").unwrap();
    assert_eq!(dev.last_seen, later);
    assert_eq!(dev.paired_at, NOW_ISO);
}

/// Client ids grow monotonically and disconnections drop sessions.
#[test]
fn client_ids_are_never_reused() {
    let mut srv = server("MMM");
    let a = srv.client_connected();
    let b = srv.client_connected();
    assert!(a < b);
    srv.client_disconnected(a);
    let c = srv.client_connected();
    assert!(b < c, "ids keep growing after a disconnect");
    assert_eq!(srv.clients.len(), 2);
}

/// Connected-device listing reports authenticated sessions only.
#[test]
fn connected_devices_lists_authenticated_sessions() {
    let mut srv = server("MMM");
    let _idle = srv.client_connected();
    let cid = srv.client_connected();
    srv.handle_pair_request(
        cid,
        &pair_request("dev-1", "Phone", "MMM"),
        NOW_TS,
        NOW_ISO,
        generate_secret_key(),
    );
    let devices = srv.get_connected_devices();
    assert_eq!(devices.len(), 1);
    assert_eq!(devices[0].device_id, "dev-1");
    assert_eq!(devices[0].device_name, "Phone");
    assert!(devices[0].is_connected);
    assert!(devices[0].device_model.is_none());
}

/// Shutdown clears every session.
#[test]
fn shutdown_clears_sessions() {
    let mut srv = server("MMM");
    let cid = srv.client_connected();
    srv.handle_pair_request(
        cid,
        &pair_request("dev-1", "P", "MMM"),
        NOW_TS,
        NOW_ISO,
        generate_secret_key(),
    );
    srv.shutdown();
    assert_eq!(srv.clients.len(), 0);
    assert_eq!(srv.get_connected_count(), 0);
}

/// The frame entry point reads its own clock and still steps the engine.
#[test]
fn handle_frame_pairs_and_scans() {
    let mut srv = server("MMM");
    let cid = srv.client_connected();
    let (reply, _) = srv.handle_frame(cid, ClientMessage::Pair(pair_request("dev-1", "P", "MMM")));
    let auth_token = match reply {
        Some(Reply::PairAck { auth_token, .. }) => auth_token,
        _ => panic!("expected a pair ack"),
    };
    let mut msg = scan_message("dev-1", "424242");
    msg.auth_token = Some(auth_token);
    let (reply, barcode) = srv.handle_frame(cid, ClientMessage::Scan(msg));
    assert!(matches!(reply, Some(Reply::ScanAck { .. })));
    assert_eq!(barcode.unwrap().barcode, "424242");
}
