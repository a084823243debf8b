use vstd::prelude::*;

verus! {

/// Connection details published to the phone inside the QR payload.
#[derive(Debug)]
pub struct ConnectionInfo {
    pub ip: String,
    pub port: u16,
    pub token: String,
    /// Secret key for encryption (only included in a QR payload on the very
    /// first pairing, before a key has been generated server-side).
    pub secret_key: Option<String>,
}

/// A validated barcode on its way from the transport to the injector.
#[derive(Debug)]
pub struct BarcodeMessage {
    pub barcode: String,
    pub timestamp: i64,
    pub device_id: String,
    pub device_name: Option<String>,
}

/// The `payload` object of a scan message.
#[derive(Debug)]
pub struct ScanPayload {
    pub barcode: String,
    pub barcode_type: Option<String>,
}

/// A `scan` message from the phone.
#[derive(Debug)]
pub struct ScanMessage {
    pub action: String,
    pub device_id: String,
    pub device_name: Option<String>,
    pub device_model: Option<String>,
    pub timestamp: i64,
    pub payload: Option<ScanPayload>,
    /// Plain master token (legacy path: scanning before the pair ack arrives).
    pub token: Option<String>,
    /// Encrypted auth token (for devices that already paired).
    pub auth_token: Option<String>,
}

/// A `pair` request from the phone (first contact, via QR).
#[derive(Debug)]
pub struct PairRequest {
    pub action: String,
    pub device_id: String,
    pub device_name: String,
    pub device_model: Option<String>,
    pub master_token: String,
}

/// A `reconnect` request from a returning device.
#[derive(Debug)]
pub struct ReconnectRequest {
    pub action: String,
    pub device_id: String,
    pub auth_token: String,
}

/// A rendered QR image together with the data it encodes.
#[derive(Debug)]
pub struct QRCodeData {
    pub qr_base64: String,
    pub connection_info: ConnectionInfo,
}

/// Snapshot of the transport for the UI.
#[derive(Debug)]
pub struct ServerState {
    pub is_running: bool,
    pub connected_clients: usize,
}

/// Device description for UI display.
#[derive(Debug)]
pub struct DeviceInfo {
    pub device_id: String,
    pub device_name: String,
    pub device_model: Option<String>,
    pub paired_at: Option<String>,
    pub last_seen: Option<String>,
    pub is_connected: bool,
}

/// UI preferences, opaque to the protocol core.
#[derive(Debug)]
pub struct AppSettings {
    pub auto_start: bool,
    pub minimize_to_tray: bool,
    pub start_minimized: bool,
}

/// Generic shape of a server-originated message.
#[derive(Debug)]
pub struct WsResponse {
    pub action: String,
    pub status: Option<String>,
    pub message: Option<String>,
    pub auth_token: Option<String>,
    pub device_id: Option<String>,
}

} // verus!
