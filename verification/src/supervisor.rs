use vstd::prelude::*;
use crate::models::{ConnectionInfo, ServerState};
use crate::storage::AppConfig;
use crate::websocket::WebSocketServer;

verus! {

/// The TCP port the transport binds.
pub const SERVER_PORT: u16 = 8081;

/// The supervisor's state: the live server, the published connection info,
/// and the flag that coalesces concurrent starts.
pub struct Supervisor {
    pub server: Option<WebSocketServer>,
    pub connection_info: Option<ConnectionInfo>,
    pub starting: bool,
}

impl Supervisor {
    /// A supervisor with nothing running.
    pub fn new() -> (r: Supervisor)
        ensures
            r.server is None,
            r.connection_info is None,
            !r.starting,
    {
        Supervisor { server: None, connection_info: None, starting: false }
    }

    /// Raises the starting flag; reports whether a start was already under
    /// way, in which case the caller backs off and this call changes nothing
    /// further.
    pub fn begin_start(&mut self) -> (already_starting: bool)
        ensures
            already_starting == old(self).starting,
            final(self).starting,
            final(self).server == old(self).server,
            final(self).connection_info == old(self).connection_info,
    {
        let already = self.starting;
        self.starting = true;
        already
    }

    /// Whether a live server must be shut down before a new one starts; the
    /// caller then waits for the port before proceeding.
    pub fn must_stop_before_start(&self) -> (r: bool)
        ensures
            r == (self.server is Some),
    {
        match &self.server {
            Some(_) => true,
            None => false,
        }
    }

    /// Installs a freshly built server under a new master token and
    /// publishes its connection details; the starting flag drops. The
    /// secret key never enters the published details.
    pub fn install_server(&mut self, token: String, ip: String, config: AppConfig) -> (info:
        ConnectionInfo)
        requires
            config.wf(),
        ensures
            final(self).server matches Some(srv) && srv.wf() && srv.token@ == token@ && srv.port
                == SERVER_PORT && srv.clients@.len() == 0 && srv.next_client_id == 0 && srv.config
                == config,
            final(self).connection_info matches Some(ci) && ci.ip@ == ip@ && ci.port == SERVER_PORT
                && ci.token@ == token@ && ci.secret_key is None,
            !final(self).starting,
            info.ip@ == ip@,
            info.port == SERVER_PORT,
            info.token@ == token@,
            info.secret_key is None,
    {
        let info = ConnectionInfo {
            ip: ip.clone(),
            port: SERVER_PORT,
            token: token.clone(),
            secret_key: None,
        };
        let stored = ConnectionInfo {
            ip,
            port: SERVER_PORT,
            token: token.clone(),
            secret_key: None,
        };
        let server = WebSocketServer::new(token, SERVER_PORT, config);
        self.server = Some(server);
        self.connection_info = Some(stored);
        self.starting = false;
        info
    }

    /// Stops a running server: clears its session table, then drops it and
    /// the published connection details. With no server running, an error
    /// says so and nothing changes.
    pub fn stop_server(&mut self) -> (r: Result<(), String>)
        ensures
            old(self).server is None ==> (r matches Err(e) && e@ == "Server is not running"@)
                && *final(self) == *old(self),
            old(self).server is Some ==> r is Ok && final(self).server is None
                && final(self).connection_info is None && final(self).starting == old(
                self,
            ).starting,
    {
        match &mut self.server {
            Some(srv) => {
                srv.shutdown();
                self.server = None;
                self.connection_info = None;
                Ok(())
            },
            None => Err("Server is not running".to_owned()),
        }
    }

    /// Rotates the master token: stops the running server if one is live
    /// and installs a new one under the fresh token. A live server's
    /// credential store — and with it every issued auth token — is carried
    /// over; with no server running, the rotation starts from the given
    /// store. Pending QR codes die with the old token.
    pub fn regenerate(&mut self, token: String, ip: String, config: AppConfig) -> (info:
        ConnectionInfo)
        requires
            old(self).server matches Some(srv) ==> srv.wf(),
            config.wf(),
        ensures
            final(self).server matches Some(ns) && ns.wf() && ns.token@ == token@
                && ns.clients@.len() == 0 && ns.config == (match old(self).server {
                Some(srv) => srv.config,
                None => config,
            }),
            final(self).connection_info matches Some(ci) && ci.ip@ == ip@ && ci.port == SERVER_PORT
                && ci.token@ == token@ && ci.secret_key is None,
            !final(self).starting,
            info.ip@ == ip@,
            info.port == SERVER_PORT,
            info.token@ == token@,
            info.secret_key is None,
    {
        match self.server.take() {
            Some(mut srv) => {
                srv.shutdown();
                let cfg = srv.config;
                self.install_server(token, ip, cfg)
            },
            None => self.install_server(token, ip, config),
        }
    }

    /// Whether the transport is live, and how many devices are connected:
    /// the distinct authenticated sessions of the live server, none without
    /// one.
    pub fn get_server_state(&self) -> (r: ServerState)
        ensures
            r.is_running == (self.server is Some),
            self.server matches Some(srv) ==> r.connected_clients == srv.clients@.filter(
                |c: crate::websocket::ClientInfo| c.authenticated,
            ).len(),
            self.server is None ==> r.connected_clients == 0,
    {
        match &self.server {
            Some(srv) => ServerState {
                is_running: true,
                connected_clients: srv.get_connected_count(),
            },
            None => ServerState { is_running: false, connected_clients: 0 },
        }
    }
}

} // verus!
