//! The desktop core of a LAN barcode bridge: a phone reads barcodes and
//! delivers them over WebSocket; this library holds the pairing and
//! authentication state machine, the session table with per-device
//! connection deduplication, the credential store, and the keystroke
//! injection plans — each with a verified contract.
//!
//! The I/O around it (sockets, disk, clipboard, input synthesis) lives in
//! the accompanying binary, which calls into these modules for every
//! decision.

pub mod models;
pub mod security;
pub mod storage;
pub mod websocket;
pub mod keyboard;
pub mod supervisor;
