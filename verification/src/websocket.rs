use vstd::prelude::*;
use crate::models::{BarcodeMessage, DeviceInfo, PairRequest, ReconnectRequest, ScanMessage};
use crate::security::{
    create_auth_token_at, is_valid_key, spec_token_for, spec_validate_token, str_eq,
    validate_auth_token, AuthorizedDevice,
};
use crate::storage::{same_except_devices, AppConfig};

verus! {

/// The view of an Option<String> as an optional character sequence.
pub open spec fn opt_view(o: Option<String>) -> Option<Seq<char>> {
    match o {
        Some(s) => Some(s@),
        None => None,
    }
}

/// A live connection's metadata, as the session table holds it.
pub struct ClientInfo {
    pub client_id: usize,
    pub device_id: Option<String>,
    pub device_name: Option<String>,
    pub authenticated: bool,
}

/// What the session table remembers of a connection, over views.
pub ghost struct ClientView {
    pub client_id: usize,
    pub device_id: Option<Seq<char>>,
    pub device_name: Option<Seq<char>>,
    pub authenticated: bool,
}

impl View for ClientInfo {
    type V = ClientView;

    open spec fn view(&self) -> ClientView {
        ClientView {
            client_id: self.client_id,
            device_id: opt_view(self.device_id),
            device_name: opt_view(self.device_name),
            authenticated: self.authenticated,
        }
    }
}

/// A message the server sends back over a socket.
pub enum Reply {
    HandshakeAck { client_id: usize, timestamp: i64 },
    PairAck { auth_token: String, device_id: String, timestamp: i64 },
    ReconnectOk { device_id: String, timestamp: i64 },
    ReconnectUnauthorized { message: String },
    ReconnectInvalidToken { message: String },
    ScanAck { barcode: String },
    ErrorMsg { message: String },
}

/// A client message after decoding, as the protocol engine consumes it.
pub enum ClientMessage {
    /// `{"action":"handshake", ...}`: a probe of a freshly opened socket.
    Handshake,
    /// `{"action":"pair", ...}`: first contact via the QR master token.
    Pair(PairRequest),
    /// `{"action":"reconnect", ...}`: a returning device with an auth token.
    Reconnect(ReconnectRequest),
    /// `{"action":"scan", ...}`: a barcode delivery.
    Scan(ScanMessage),
    /// A recognized JSON object with an unknown action: logged and ignored.
    Unknown(String),
    /// Malformed JSON or a schema mismatch, with a description: the server
    /// replies with an error and the socket stays open.
    Malformed(String),
}

/// The session table and protocol engine: the per-connection state machine
/// over the live connections, the active master token, and the credential
/// store.
pub struct WebSocketServer {
    pub token: String,
    pub port: u16,
    pub clients: Vec<ClientInfo>,
    pub next_client_id: usize,
    pub config: AppConfig,
}

/// The session table's invariants: client ids are below the counter and
/// mutually distinct; an authenticated session names a device; and no two
/// sessions are authenticated for the same device.
pub open spec fn table_ok(s: Seq<ClientInfo>, bound: usize) -> bool {
    &&& forall|i: int| 0 <= i < s.len() ==> (#[trigger] s[i]).client_id < bound
    &&& forall|i: int, j: int|
        0 <= i < j < s.len() ==> (#[trigger] s[i]).client_id != (#[trigger] s[j]).client_id
    &&& forall|i: int| 0 <= i < s.len() ==> ((#[trigger] s[i]).authenticated ==> s[i].device_id is Some)
    &&& forall|i: int, j: int|
        0 <= i < j < s.len() && (#[trigger] s[i]).authenticated && (#[trigger] s[j]).authenticated
            ==> opt_view(s[i].device_id) != opt_view(s[j].device_id)
}

/// Every element a filter keeps was in the table.
proof fn lemma_filter_subset(s: Seq<ClientInfo>, pred: spec_fn(ClientInfo) -> bool)
    ensures
        forall|x: ClientInfo| #[trigger] s.filter(pred).contains(x) ==> s.contains(x),
    decreases s.len(),
{
    reveal(Seq::filter);
    if s.len() > 0 {
        let dl = s.drop_last();
        lemma_filter_subset(dl, pred);
        assert forall|x: ClientInfo| #[trigger] s.filter(pred).contains(x) implies s.contains(
            x,
        ) by {
            if dl.filter(pred).contains(x) {
                let j = choose|j: int| 0 <= j < dl.len() && dl[j] == x;
                assert(s[j] == x);
            } else {
                let f = s.filter(pred);
                let k = choose|k: int| 0 <= k < f.len() && f[k] == x;
                if pred(s.last()) {
                    if k < dl.filter(pred).len() {
                        assert(f[k] == dl.filter(pred)[k]);
                        assert(dl.filter(pred).contains(x));
                        assert(false);
                    } else {
                        assert(x == s.last());
                        assert(s[s.len() - 1] == x);
                    }
                } else {
                    assert(f == dl.filter(pred));
                    assert(false);
                }
            }
        }
    }
}

/// Dropping sessions never breaks the table's invariants.
proof fn lemma_filter_table_ok(s: Seq<ClientInfo>, pred: spec_fn(ClientInfo) -> bool, bound: usize)
    requires
        table_ok(s, bound),
    ensures
        table_ok(s.filter(pred), bound),
    decreases s.len(),
{
    reveal(Seq::filter);
    broadcast use vstd::seq_lib::group_filter_ensures;

    if s.len() > 0 {
        let dl = s.drop_last();
        assert(table_ok(dl, bound));
        lemma_filter_table_ok(dl, pred, bound);
        lemma_filter_subset(dl, pred);
        let f = s.filter(pred);
        let df = dl.filter(pred);
        if pred(s.last()) {
            assert(f == df.push(s.last()));
            let last = s.last();
            assert forall|i: int| 0 <= i < f.len() implies (#[trigger] f[i]).client_id < bound
                && (f[i].authenticated ==> f[i].device_id is Some) by {
                if i < df.len() {
                    assert(f[i] == df[i]);
                } else {
                    assert(f[i] == last);
                }
            }
            assert forall|i: int, j: int| 0 <= i < j < f.len() implies (#[trigger] f[i]).client_id
                != (#[trigger] f[j]).client_id && ((f[i].authenticated && f[j].authenticated)
                ==> opt_view(f[i].device_id) != opt_view(f[j].device_id)) by {
                if j < df.len() {
                    assert(f[i] == df[i] && f[j] == df[j]);
                } else {
                    assert(f[j] == last);
                    assert(f[i] == df[i]);
                    assert(df.contains(df[i]));
                    assert(dl.contains(df[i]));
                    let w = choose|w: int| 0 <= w < dl.len() && dl[w] == df[i];
                    assert(s[w] == df[i]);
                    assert(s[s.len() - 1] == last);
                }
            }
        } else {
            assert(f == df);
        }
    }
}

/// The presented token validates for the device under the stored secret key.
pub open spec fn spec_reconnect_valid(cfg: AppConfig, device: Seq<char>, tok: Seq<char>) -> bool {
    cfg.secret_key matches Some(key) && spec_validate_token(tok, device, key@)
}

/// The secret key a `pair` runs under: the stored one, or the fresh
/// candidate when none has been generated yet.
pub open spec fn spec_active_key(cfg: AppConfig, fresh: Seq<char>) -> Seq<char> {
    match cfg.secret_key {
        Some(s) => s@,
        None => fresh,
    }
}

/// What handling a `pair` request does, from the state `pre` to the state
/// `post`, replying `r`: a wrong master token is refused and changes
/// nothing; otherwise the secret key is fixed (taking `fresh_key` when none
/// exists yet), the device is upserted stamped `now_iso`, every other
/// session of the device is evicted, the session authenticates, and the ack
/// carries an auth token minted at `now_ts`.
pub open spec fn pair_transition(
    pre: WebSocketServer,
    post: WebSocketServer,
    client_id: usize,
    request: PairRequest,
    now_ts: i64,
    now_iso: Seq<char>,
    fresh_key: Seq<char>,
    r: Reply,
) -> bool {
    &&& (request.master_token@ != pre.token@ ==> post == pre && (
    r matches Reply::ErrorMsg { message } && message@ == "Invalid pairing token"@))
    &&& (request.master_token@ == pre.token@ ==> {
        let key = spec_active_key(pre.config, fresh_key);
        &&& post.token == pre.token
        &&& post.port == pre.port
        &&& post.next_client_id == pre.next_client_id
        &&& post.config.secret_key matches Some(k) && k@ == key
        &&& post.config.master_token == pre.config.master_token
        &&& post.config.auto_start == pre.config.auto_start
        &&& post.config.minimize_to_tray == pre.config.minimize_to_tray
        &&& post.config.start_minimized == pre.config.start_minimized
        &&& post.config.spec_is_authorized(request.device_id@)
        &&& (post.config.spec_get(request.device_id@) matches Some(dev) && dev.device_id@
            == request.device_id@ && dev.device_name@ == request.device_name@ && opt_view(
            dev.device_model,
        ) == opt_view(request.device_model) && dev.paired_at@ == now_iso && dev.last_seen@
            == now_iso)
        &&& forall|d: Seq<char>|
            d != request.device_id@ ==> post.config.spec_get(d) == pre.config.spec_get(d)
        &&& forall|d: Seq<char>|
            d != request.device_id@ ==> post.config.spec_is_authorized(d)
                == pre.config.spec_is_authorized(d)
        &&& forall|k: usize|
            k != client_id ==> post.spec_client(k) == (match pre.spec_client(k) {
                Some(cv) => if cv.device_id == Some(request.device_id@) {
                    None::<ClientView>
                } else {
                    Some(cv)
                },
                None => None::<ClientView>,
            })
        &&& (pre.spec_has_client(client_id) ==> post.spec_client(client_id) == Some(
            ClientView {
                client_id,
                device_id: Some(request.device_id@),
                device_name: Some(request.device_name@),
                authenticated: true,
            },
        ))
        &&& (!pre.spec_has_client(client_id) ==> post.spec_client(client_id) is None)
        &&& (r matches Reply::PairAck { auth_token, device_id, timestamp } && device_id@
            == request.device_id@ && timestamp == now_ts && (auth_token@.len() != 0
            ==> spec_token_for(auth_token@, key, request.device_id@, now_ts as int)) && (
        is_valid_key(key) && vstd::utf8::encode_utf8(request.device_id@).len() <= 999000
            ==> auth_token@.len() != 0))
    })
}

/// What handling a `reconnect` request does, from the state `pre` to the
/// state `post`, replying `r`: an unknown device, a missing secret key, or
/// a token that does not validate are refused and change nothing; otherwise
/// the record of the device is stamped `now_iso`, every other session of
/// the device is evicted, and the session authenticates under the stored
/// device name.
pub open spec fn reconnect_transition(
    pre: WebSocketServer,
    post: WebSocketServer,
    client_id: usize,
    request: ReconnectRequest,
    now_ts: i64,
    now_iso: Seq<char>,
    r: Reply,
) -> bool {
    &&& (
            !pre.config.spec_is_authorized(request.device_id@) ==> post == pre
                && (r matches Reply::ReconnectUnauthorized { message } && message@
                == "Device not authorized. Please pair again."@)
    )
    &&& (
            pre.config.spec_is_authorized(request.device_id@) && pre.config.secret_key
                is None ==> post == pre && (r matches Reply::ErrorMsg { message }
                && message@ == "Server configuration error"@)
    )
    &&& (
            (pre.config.spec_is_authorized(request.device_id@)
                && pre.config.secret_key is Some && !spec_reconnect_valid(
                pre.config,
                request.device_id@,
                request.auth_token@,
            )) ==> post == pre && (r matches Reply::ReconnectInvalidToken { message }
                && message@ == "Invalid auth token. Please pair again."@)
    )
    &&& (
            (pre.config.spec_is_authorized(request.device_id@)
                && pre.config.secret_key is Some && spec_reconnect_valid(
                pre.config,
                request.device_id@,
                request.auth_token@,
            )) ==> {
                let prev = pre.config.spec_get(request.device_id@)->Some_0;
                &&& post.token == pre.token
                &&& post.port == pre.port
                &&& post.next_client_id == pre.next_client_id
                &&& same_except_devices(post.config, pre.config)
                &&& (post.config.spec_get(request.device_id@) matches Some(dev)
                    && dev.device_id == prev.device_id && dev.device_name == prev.device_name
                    && dev.device_model == prev.device_model && dev.paired_at == prev.paired_at
                    && dev.last_seen@ == now_iso)
                &&& forall|d: Seq<char>|
                    d != request.device_id@ ==> post.config.spec_get(d) == pre.config.spec_get(d)
                &&& forall|d: Seq<char>|
                    post.config.spec_is_authorized(d) == pre.config.spec_is_authorized(
                        d,
                    )
                &&& forall|k: usize|
                    k != client_id ==> post.spec_client(k) == (match pre.spec_client(
                        k,
                    ) {
                        Some(cv) => if cv.device_id == Some(request.device_id@) {
                            None::<ClientView>
                        } else {
                            Some(cv)
                        },
                        None => None::<ClientView>,
                    })
                &&& (pre.spec_has_client(client_id) ==> post.spec_client(client_id)
                    == Some(
                    ClientView {
                        client_id,
                        device_id: Some(request.device_id@),
                        device_name: Some(prev.device_name@),
                        authenticated: true,
                    },
                ))
                &&& (!pre.spec_has_client(client_id) ==> post.spec_client(client_id)
                    is None)
                &&& (r matches Reply::ReconnectOk { device_id, timestamp } && device_id@
                    == request.device_id@ && timestamp == now_ts)
            }
    )
}

/// What handling a `scan` message does, from the state `pre` to the state
/// `post`, replying `r` and forwarding `bm` to the delivery channel: a scan
/// without a payload, or one that no validation rule accepts, is refused
/// and changes nothing; otherwise every other session of the device is
/// evicted, the session authenticates, the ack echoes the barcode, and the
/// barcode goes onward with the device that sent it.
pub open spec fn scan_transition(
    pre: WebSocketServer,
    post: WebSocketServer,
    client_id: usize,
    msg: ScanMessage,
    r: Reply,
    bm: Option<BarcodeMessage>,
) -> bool {
    &&& (
            msg.payload is None ==> post == pre && (
            r matches Reply::ErrorMsg { message } && message@ == "Missing payload"@) && bm
                is None
    )
    &&& (
            msg.payload is Some && !pre.spec_scan_valid(client_id, msg)
                ==> post == pre && (r matches Reply::ErrorMsg { message }
                && message@ == "Invalid token"@) && bm is None
    )
    &&& (
            msg.payload is Some && pre.spec_scan_valid(client_id, msg) ==> {
                let payload = msg.payload->Some_0;
                &&& post.token == pre.token
                &&& post.port == pre.port
                &&& post.next_client_id == pre.next_client_id
                &&& post.config == pre.config
                &&& forall|k: usize|
                    k != client_id ==> post.spec_client(k) == (match pre.spec_client(
                        k,
                    ) {
                        Some(cv) => if cv.device_id == Some(msg.device_id@) {
                            None::<ClientView>
                        } else {
                            Some(cv)
                        },
                        None => None::<ClientView>,
                    })
                &&& (pre.spec_has_client(client_id) ==> post.spec_client(client_id)
                    == Some(
                    ClientView {
                        client_id,
                        device_id: Some(msg.device_id@),
                        device_name: opt_view(msg.device_name),
                        authenticated: true,
                    },
                ))
                &&& (!pre.spec_has_client(client_id) ==> post.spec_client(client_id)
                    is None)
                &&& (r matches Reply::ScanAck { barcode } && barcode@ == payload.barcode@)
                &&& (bm matches Some(bm) && bm.barcode@ == payload.barcode@ && bm.timestamp
                    == msg.timestamp && bm.device_id@ == msg.device_id@ && opt_view(
                    bm.device_name,
                ) == opt_view(msg.device_name))
            }
    )
}

/// The sessions that survive an eviction for `device`: the current socket
/// itself, and every session bound to some other device or to none.
pub open spec fn keep_pred(device: Seq<char>, current: usize) -> spec_fn(ClientInfo) -> bool {
    |c: ClientInfo| c.client_id == current || opt_view(c.device_id) != Some(device)
}

impl WebSocketServer {
    /// The table's invariants, together with the credential store's.
    pub open spec fn wf(self) -> bool {
        &&& self.config.wf()
        &&& table_ok(self.clients@, self.next_client_id)
    }

    /// A session with this client id is in the table.
    pub open spec fn spec_has_client(self, id: usize) -> bool {
        exists|i: int|
            0 <= i < self.clients@.len() && (#[trigger] self.clients@[i]).client_id == id
    }

    /// The index of the session with this client id, when one exists.
    pub open spec fn spec_client_index(self, id: usize) -> int {
        choose|i: int|
            0 <= i < self.clients@.len() && (#[trigger] self.clients@[i]).client_id == id
    }

    /// What the table holds for a client id.
    pub open spec fn spec_client(self, id: usize) -> Option<ClientView> {
        if self.spec_has_client(id) {
            Some(self.clients@[self.spec_client_index(id)]@)
        } else {
            None
        }
    }

    /// Any index holding a client id yields that session: ids are unique.
    pub proof fn lemma_client_at(self, j: int)
        requires
            self.wf(),
            0 <= j < self.clients@.len(),
        ensures
            self.spec_client(self.clients@[j].client_id) == Some(self.clients@[j]@),
            self.spec_client_index(self.clients@[j].client_id) == j,
    {
        let id = self.clients@[j].client_id;
        assert(self.spec_has_client(id));
        let k = self.spec_client_index(id);
        if k != j {
            if k < j {
                assert(self.clients@[k].client_id != self.clients@[j].client_id);
            } else {
                assert(self.clients@[j].client_id != self.clients@[k].client_id);
            }
            assert(false);
        }
    }

    /// Finds the index of a client id's session.
    fn find_client_index(&self, client_id: usize) -> (r: Option<usize>)
        ensures
            match r {
                Some(i) => i < self.clients@.len() && self.clients@[i as int].client_id
                    == client_id,
                None => !self.spec_has_client(client_id),
            },
    {
        let n = self.clients.len();
        let mut i: usize = 0;
        while i < n
            invariant
                i <= n,
                n == self.clients@.len(),
                forall|j: int| 0 <= j < i ==> (#[trigger] self.clients@[j]).client_id != client_id,
            decreases n - i,
        {
            if self.clients[i].client_id == client_id {
                return Some(i);
            }
            i += 1;
        }
        None
    }

    /// Builds a server around a master token, a port and a credential store,
    /// with no live session.
    pub fn new(token: String, port: u16, config: AppConfig) -> (r: WebSocketServer)
        requires
            config.wf(),
        ensures
            r.wf(),
            r.token == token,
            r.port == port,
            r.clients@.len() == 0,
            r.next_client_id == 0,
            r.config == config,
    {
        WebSocketServer { token, port, clients: Vec::new(), next_client_id: 0, config }
    }

    /// Admits a fresh connection: assigns the next client id and registers an
    /// unauthenticated session under it.
    pub fn client_connected(&mut self) -> (r: usize)
        requires
            old(self).wf(),
            old(self).next_client_id < usize::MAX,
        ensures
            final(self).wf(),
            r == old(self).next_client_id,
            final(self).next_client_id == old(self).next_client_id + 1,
            final(self).clients@ == old(self).clients@.push(
                ClientInfo { client_id: r, device_id: None, device_name: None, authenticated: false },
            ),
            final(self).spec_client(r) == Some(
                ClientView { client_id: r, device_id: None, device_name: None, authenticated: false },
            ),
            forall|k: usize| k != r ==> final(self).spec_client(k) == old(self).spec_client(k),
            final(self).token == old(self).token,
            final(self).port == old(self).port,
            final(self).config == old(self).config,
    {
        let ghost pre = *self;
        let id = self.next_client_id;
        self.next_client_id = self.next_client_id + 1;
        self.clients.push(
            ClientInfo { client_id: id, device_id: None, device_name: None, authenticated: false },
        );
        proof {
            let n = pre.clients@.len() as int;
            assert(self.clients@[n].client_id == id);
            assert forall|a: int| 0 <= a < n implies #[trigger] self.clients@[a]
                == pre.clients@[a] by {}
            assert forall|a: int| 0 <= a < n implies (#[trigger] self.clients@[a]).client_id
                != id by {}
            self.lemma_client_at(n);
            assert forall|k: usize| k != id implies self.spec_client(k) == pre.spec_client(k) by {
                if pre.spec_has_client(k) {
                    let j = pre.spec_client_index(k);
                    assert(self.clients@[j].client_id == k);
                    self.lemma_client_at(j);
                    pre.lemma_client_at(j);
                }
                if self.spec_has_client(k) {
                    let j = self.spec_client_index(k);
                    assert(j != n);
                    assert(pre.clients@[j].client_id == k);
                }
            }
        }
        id
    }

    /// Drops the session of a closed socket, if it is still in the table.
    pub fn client_disconnected(&mut self, client_id: usize)
        requires
            old(self).wf(),
        ensures
            final(self).wf(),
            final(self).spec_client(client_id) is None,
            forall|k: usize| k != client_id ==> final(self).spec_client(k) == old(self).spec_client(k),
            final(self).token == old(self).token,
            final(self).port == old(self).port,
            final(self).config == old(self).config,
            final(self).next_client_id == old(self).next_client_id,
    {
        let ghost pre = *self;
        match self.find_client_index(client_id) {
            Some(i) => {
                self.clients.remove(i);
                proof {
                    let n = pre.clients@.len() as int;
                    assert(self.clients@ == pre.clients@.remove(i as int));
                    assert forall|k: int| 0 <= k < n - 1 implies #[trigger] self.clients@[k] == (
                    if k < i as int {
                        pre.clients@[k]
                    } else {
                        pre.clients@[k + 1]
                    }) by {}
                    if self.spec_has_client(client_id) {
                        let j = self.spec_client_index(client_id);
                        let oj = if j < i as int {
                            j
                        } else {
                            j + 1
                        };
                        assert(pre.clients@[oj].client_id == client_id);
                        pre.lemma_client_at(oj);
                        pre.lemma_client_at(i as int);
                        assert(false);
                    }
                    assert forall|k: usize| k != client_id implies self.spec_client(k)
                        == pre.spec_client(k) by {
                        if pre.spec_has_client(k) {
                            let j = pre.spec_client_index(k);
                            assert(pre.clients@[j].client_id == k);
                            pre.lemma_client_at(j);
                            if j < i as int {
                                assert(self.clients@[j].client_id == k);
                                self.lemma_client_at(j);
                            } else {
                                assert(j != i as int);
                                assert(self.clients@[j - 1].client_id == k);
                                self.lemma_client_at(j - 1);
                            }
                        }
                        if self.spec_has_client(k) {
                            let j = self.spec_client_index(k);
                            let oj = if j < i as int {
                                j
                            } else {
                                j + 1
                            };
                            assert(pre.clients@[oj].client_id == k);
                        }
                    }
                }
            },
            None => {},
        }
    }

    /// Clears the session table: after shutdown no further message is
    /// emitted on behalf of any session.
    pub fn shutdown(&mut self)
        ensures
            final(self).wf() == old(self).config.wf(),
            final(self).clients@.len() == 0,
            forall|k: usize| final(self).spec_client(k) is None,
            final(self).token == old(self).token,
            final(self).port == old(self).port,
            final(self).config == old(self).config,
            final(self).next_client_id == old(self).next_client_id,
    {
        self.clients.clear();
    }

    /// Counts the connected devices: the sessions that have authenticated.
    /// Under the table invariant each such session names a distinct device,
    /// so this is the distinct-device count.
    pub fn get_connected_count(&self) -> (r: usize)
        ensures
            r == self.clients@.filter(|c: ClientInfo| c.authenticated).len(),
    {
        proof {
            reveal(Seq::filter);
            assert(self.clients@.take(0) =~= Seq::<ClientInfo>::empty());
        }
        let n = self.clients.len();
        let mut count: usize = 0;
        let mut i: usize = 0;
        while i < n
            invariant
                i <= n,
                n == self.clients@.len(),
                count == self.clients@.take(i as int).filter(|c: ClientInfo| c.authenticated).len(),
                count <= i,
            decreases n - i,
        {
            let ghost prefix = self.clients@.take(i as int);
            if self.clients[i].authenticated {
                count = count + 1;
            }
            i += 1;
            proof {
                reveal(Seq::filter);
                let prefix2 = self.clients@.take(i as int);
                assert(prefix2.drop_last() =~= prefix);
                assert(prefix2.last() == self.clients@[i - 1]);
                prefix.lemma_filter_len(|c: ClientInfo| c.authenticated);
            }
        }
        proof {
            assert(self.clients@.take(n as int) =~= self.clients@);
        }
        count
    }

    /// Drops any other live session bound to the same device: the new socket
    /// wins, the old session leaves the table.
    pub fn remove_previous_device_connection(&mut self, device_id: &str, current_client_id: usize)
        requires
            old(self).wf(),
        ensures
            final(self).wf(),
            final(self).clients@ == old(self).clients@.filter(
                keep_pred(device_id@, current_client_id),
            ),
            forall|k: usize|
                final(self).spec_client(k) == (match old(self).spec_client(k) {
                    Some(cv) => if k != current_client_id && cv.device_id == Some(device_id@) {
                        None::<ClientView>
                    } else {
                        Some(cv)
                    },
                    None => None::<ClientView>,
                }),
            final(self).token == old(self).token,
            final(self).port == old(self).port,
            final(self).config == old(self).config,
            final(self).next_client_id == old(self).next_client_id,
    {
        let ghost pre = *self;
        let ghost keep = keep_pred(device_id@, current_client_id);
        let mut i: usize = 0;
        let ghost mut p: int = 0;
        proof {
            reveal(Seq::filter);
            assert(pre.clients@.take(0).filter(keep) =~= Seq::<ClientInfo>::empty());
            assert(self.clients@ =~= pre.clients@.take(0).filter(keep) + pre.clients@.skip(0));
        }
        while i < self.clients.len()
            invariant
                0 <= p <= pre.clients@.len(),
                i as int == pre.clients@.take(p).filter(keep).len(),
                self.clients@ == pre.clients@.take(p).filter(keep) + pre.clients@.skip(p),
                keep == keep_pred(device_id@, current_client_id),
                self.token == pre.token,
                self.port == pre.port,
                self.config == pre.config,
                self.next_client_id == pre.next_client_id,
                pre.wf(),
            decreases pre.clients@.len() - p,
        {
            proof {
                assert(self.clients@[i as int] == pre.clients@.skip(p)[0]);
                assert(pre.clients@.skip(p)[0] == pre.clients@[p]);
                pre.clients@.take(p).lemma_filter_len(keep);
                assert(pre.clients@.take(p).len() == p);
            }
            let evict = self.clients[i].client_id != current_client_id && (match &self.clients[i]
                .device_id {
                Some(s) => str_eq(s.as_str(), device_id),
                None => false,
            });
            let ghost cur = pre.clients@[p];
            if evict {
                self.clients.remove(i);
                proof {
                    reveal(Seq::filter);
                    assert(!keep(cur));
                    assert(pre.clients@.take(p + 1).drop_last() =~= pre.clients@.take(p));
                    assert(pre.clients@.take(p + 1).last() == cur);
                    assert(pre.clients@.take(p + 1).filter(keep) =~= pre.clients@.take(p).filter(
                        keep,
                    ));
                    assert(self.clients@ =~= pre.clients@.take(p + 1).filter(keep)
                        + pre.clients@.skip(p + 1));
                    p = p + 1;
                }
            } else {
                proof {
                    reveal(Seq::filter);
                    assert(keep(cur));
                    assert(pre.clients@.take(p + 1).drop_last() =~= pre.clients@.take(p));
                    assert(pre.clients@.take(p + 1).last() == cur);
                    assert(pre.clients@.take(p + 1).filter(keep) =~= pre.clients@.take(p).filter(
                        keep,
                    ).push(cur));
                    assert(self.clients@ =~= pre.clients@.take(p + 1).filter(keep)
                        + pre.clients@.skip(p + 1));
                    p = p + 1;
                }
                i += 1;
            }
        }
        proof {
            assert(pre.clients@.skip(p).len() == 0);
            assert(p == pre.clients@.len());
            assert(pre.clients@.take(p) =~= pre.clients@);
            assert(self.clients@ =~= pre.clients@.filter(keep));
            lemma_filter_table_ok(pre.clients@, keep, pre.next_client_id);
            lemma_filter_subset(pre.clients@, keep);
            broadcast use vstd::seq_lib::group_filter_ensures;

            assert forall|k: usize| self.spec_client(k) == (match pre.spec_client(k) {
                Some(cv) => if k != current_client_id && cv.device_id == Some(device_id@) {
                    None::<ClientView>
                } else {
                    Some(cv)
                },
                None => None::<ClientView>,
            }) by {
                if pre.spec_has_client(k) {
                    let j = pre.spec_client_index(k);
                    assert(pre.clients@[j].client_id == k);
                    pre.lemma_client_at(j);
                    let cv = pre.clients@[j]@;
                    if keep(pre.clients@[j]) {
                        assert(pre.clients@.filter(keep).contains(pre.clients@[j]));
                        let fi = choose|fi: int|
                            0 <= fi < self.clients@.len() && self.clients@[fi] == pre.clients@[j];
                        self.lemma_client_at(fi);
                        assert(self.spec_client(k) == Some(cv));
                        assert(!(k != current_client_id && cv.device_id == Some(device_id@)));
                    } else {
                        assert(k != current_client_id && cv.device_id == Some(device_id@));
                        if self.spec_has_client(k) {
                            let fi = self.spec_client_index(k);
                            assert(self.clients@[fi].client_id == k);
                            assert(self.clients@.contains(self.clients@[fi]));
                            assert(pre.clients@.contains(self.clients@[fi]));
                            let w = choose|w: int|
                                0 <= w < pre.clients@.len() && pre.clients@[w]
                                    == self.clients@[fi];
                            pre.lemma_client_at(w);
                            assert(w == j);
                            assert(keep(self.clients@[fi]));
                            assert(false);
                        }
                    }
                } else {
                    if self.spec_has_client(k) {
                        let fi = self.spec_client_index(k);
                        assert(self.clients@.contains(self.clients@[fi]));
                        assert(pre.clients@.contains(self.clients@[fi]));
                        let w = choose|w: int|
                            0 <= w < pre.clients@.len() && pre.clients@[w] == self.clients@[fi];
                        assert(pre.clients@[w].client_id == k);
                        assert(false);
                    }
                }
            }
        }
    }

    /// The devices of the sessions that have authenticated, for UI display.
    pub fn get_connected_devices(&self) -> (r: Vec<DeviceInfo>)
        ensures
            ({
                let f = self.clients@.filter(
                    |c: ClientInfo| c.authenticated && c.device_id is Some,
                );
                &&& r@.len() == f.len()
                &&& forall|i: int|
                    0 <= i < f.len() ==> {
                        &&& (#[trigger] r@[i]).device_id@ == f[i].device_id->Some_0@
                        &&& r@[i].device_name@ == (match f[i].device_name {
                            Some(s) => s@,
                            None => "Unknown"@,
                        })
                        &&& r@[i].device_model is None
                        &&& r@[i].paired_at is None
                        &&& r@[i].last_seen is None
                        &&& r@[i].is_connected
                    }
            }),
    {
        let ghost pred = |c: ClientInfo| c.authenticated && c.device_id is Some;
        proof {
            reveal(Seq::filter);
            assert(self.clients@.take(0).filter(pred) =~= Seq::<ClientInfo>::empty());
        }
        let n = self.clients.len();
        let mut r: Vec<DeviceInfo> = Vec::new();
        let mut i: usize = 0;
        while i < n
            invariant
                i <= n,
                n == self.clients@.len(),
                r@.len() == self.clients@.take(i as int).filter(pred).len(),
                pred == (|c: ClientInfo| c.authenticated && c.device_id is Some),
                forall|j: int|
                    0 <= j < r@.len() ==> {
                        let f = self.clients@.take(i as int).filter(pred);
                        &&& (#[trigger] r@[j]).device_id@ == f[j].device_id->Some_0@
                        &&& r@[j].device_name@ == (match f[j].device_name {
                            Some(s) => s@,
                            None => "Unknown"@,
                        })
                        &&& r@[j].device_model is None
                        &&& r@[j].paired_at is None
                        &&& r@[j].last_seen is None
                        &&& r@[j].is_connected
                    },
            decreases n - i,
        {
            let ghost prefix = self.clients@.take(i as int);
            let c = &self.clients[i];
            if c.authenticated {
                match &c.device_id {
                    Some(device_id) => {
                        let name = match &c.device_name {
                            Some(s) => s.clone(),
                            None => "Unknown".to_owned(),
                        };
                        r.push(
                            DeviceInfo {
                                device_id: device_id.clone(),
                                device_name: name,
                                device_model: None,
                                paired_at: None,
                                last_seen: None,
                                is_connected: true,
                            },
                        );
                    },
                    None => {},
                }
            }
            i += 1;
            proof {
                reveal(Seq::filter);
                let prefix2 = self.clients@.take(i as int);
                assert(prefix2.drop_last() =~= prefix);
                assert(prefix2.last() == self.clients@[i - 1]);
            }
        }
        proof {
            assert(self.clients@.take(n as int) =~= self.clients@);
        }
        r
    }

    /// Binds a session to a device and marks it authenticated. The caller
    /// has already evicted every other session bound to this device.
    fn stamp_client(&mut self, client_id: usize, device_id: String, device_name: Option<String>)
        requires
            old(self).wf(),
            forall|i: int|
                0 <= i < old(self).clients@.len() && (#[trigger] old(self).clients@[i]).client_id
                    != client_id ==> opt_view(old(self).clients@[i].device_id) != Some(device_id@),
        ensures
            final(self).wf(),
            forall|k: usize| k != client_id ==> final(self).spec_client(k) == old(self).spec_client(k),
            old(self).spec_has_client(client_id) ==> final(self).spec_client(client_id) == Some(
                ClientView {
                    client_id,
                    device_id: Some(device_id@),
                    device_name: opt_view(device_name),
                    authenticated: true,
                },
            ),
            !old(self).spec_has_client(client_id) ==> *final(self) == *old(self),
            final(self).token == old(self).token,
            final(self).port == old(self).port,
            final(self).config == old(self).config,
            final(self).next_client_id == old(self).next_client_id,
    {
        let ghost pre = *self;
        match self.find_client_index(client_id) {
            Some(i) => {
                let slot = &mut self.clients[i];
                slot.device_id = Some(device_id);
                slot.device_name = device_name;
                slot.authenticated = true;
                proof {
                    let n = pre.clients@.len() as int;
                    assert(self.clients@ == pre.clients@.update(
                        i as int,
                        self.clients@[i as int],
                    ));
                    assert(self.clients@[i as int].client_id == client_id);
                    assert forall|a: int| 0 <= a < n && a != i as int implies #[trigger] self.clients@[a]
                        == pre.clients@[a] by {}
                    assert forall|a: int, b: int|
                        0 <= a < b < n implies (#[trigger] self.clients@[a]).client_id != (
                    #[trigger] self.clients@[b]).client_id by {
                        assert(pre.clients@[a].client_id != pre.clients@[b].client_id);
                    }
                    assert forall|a: int, b: int|
                        0 <= a < b < n && (#[trigger] self.clients@[a]).authenticated && (
                    #[trigger] self.clients@[b]).authenticated implies opt_view(
                        self.clients@[a].device_id,
                    ) != opt_view(self.clients@[b].device_id) by {
                        if a != i as int && b != i as int {
                            assert(pre.clients@[a].authenticated && pre.clients@[b].authenticated);
                        } else if a == i as int {
                            assert(pre.clients@[b].client_id != client_id);
                        } else {
                            assert(pre.clients@[a].client_id != client_id);
                        }
                    }
                    pre.lemma_client_at(i as int);
                    self.lemma_client_at(i as int);
                    assert forall|k: usize| k != client_id implies self.spec_client(k)
                        == pre.spec_client(k) by {
                        if pre.spec_has_client(k) {
                            let j = pre.spec_client_index(k);
                            assert(pre.clients@[j].client_id == k);
                            pre.lemma_client_at(j);
                            assert(j != i as int);
                            assert(self.clients@[j].client_id == k);
                            self.lemma_client_at(j);
                        }
                        if self.spec_has_client(k) {
                            let j = self.spec_client_index(k);
                            assert(j != i as int);
                            assert(pre.clients@[j].client_id == k);
                        }
                    }
                }
            },
            None => {},
        }
    }

    /// Handles a `pair` request: first contact via the QR master token.
    ///
    /// A wrong master token is refused and changes nothing. Otherwise the
    /// secret key is fixed (taking `fresh_key` if none exists yet), an auth
    /// token is minted for the device at `now_ts`, the device is upserted in
    /// the credential store stamped `now_iso`, any other session of the same
    /// device is evicted, this session authenticates, and the ack carries
    /// the auth token.
    pub fn handle_pair_request(
        &mut self,
        client_id: usize,
        request: &PairRequest,
        now_ts: i64,
        now_iso: &str,
        fresh_key: String,
    ) -> (r: Reply)
        requires
            old(self).wf(),
            is_valid_key(fresh_key@),
        ensures
            final(self).wf(),
            pair_transition(
                *old(self),
                *final(self),
                client_id,
                *request,
                now_ts,
                now_iso@,
                fresh_key@,
                r,
            ),
    {
        let ghost pre = *self;
        if !str_eq(request.master_token.as_str(), self.token.as_str()) {
            return Reply::ErrorMsg { message: "Invalid pairing token".to_owned() };
        }
        let key: String;
        match &self.config.secret_key {
            Some(k) => {
                key = k.clone();
            },
            None => {
                key = fresh_key.clone();
                self.config.secret_key = Some(fresh_key);
            },
        }
        let auth_token = create_auth_token_at(request.device_id.as_str(), key.as_str(), now_ts);
        let device = AuthorizedDevice {
            device_id: request.device_id.clone(),
            device_name: request.device_name.clone(),
            device_model: match &request.device_model {
                Some(s) => Some(s.clone()),
                None => None,
            },
            paired_at: now_iso.to_owned(),
            last_seen: now_iso.to_owned(),
        };
        self.config.add_device(device);
        self.remove_previous_device_connection(request.device_id.as_str(), client_id);
        let ghost evicted = *self;
        proof {
            assert forall|i: int|
                0 <= i < self.clients@.len() && (#[trigger] self.clients@[i]).client_id
                    != client_id implies opt_view(self.clients@[i].device_id) != Some(
                request.device_id@,
            ) by {
                self.lemma_client_at(i);
                let k = self.clients@[i].client_id;
                assert(evicted.spec_client(k) == Some(self.clients@[i]@));
            }
        }
        self.stamp_client(client_id, request.device_id.clone(), Some(request.device_name.clone()));
        proof {
            if !pre.spec_has_client(client_id) {
                assert(pre.spec_client(client_id) is None);
                if evicted.spec_has_client(client_id) {
                    let j = evicted.spec_client_index(client_id);
                    assert(evicted.clients@[j].client_id == client_id);
                    assert(evicted.spec_client(client_id) is Some);
                    assert(false);
                }
                assert(self.spec_client(client_id) is None);
            }
        }
        Reply::PairAck {
            auth_token,
            device_id: request.device_id.clone(),
            timestamp: now_ts,
        }
    }

    /// Handles a `reconnect` request from a returning device.
    ///
    /// An unknown device is refused; a missing secret key is a server
    /// configuration error; a token that does not validate for the device is
    /// refused. All three change nothing. Otherwise the device's record is
    /// stamped `now_iso` as last sighting, any other session of the same
    /// device is evicted, and this session authenticates under the device
    /// name stored in the credential store.
    pub fn handle_reconnect_request(
        &mut self,
        client_id: usize,
        request: &ReconnectRequest,
        now_ts: i64,
        now_iso: &str,
    ) -> (r: Reply)
        requires
            old(self).wf(),
        ensures
            final(self).wf(),
            reconnect_transition(
                *old(self),
                *final(self),
                client_id,
                *request,
                now_ts,
                now_iso@,
                r,
            ),
    {
        let ghost pre = *self;
        if !self.config.is_device_authorized(request.device_id.as_str()) {
            return Reply::ReconnectUnauthorized {
                message: "Device not authorized. Please pair again.".to_owned(),
            };
        }
        let key: String;
        match &self.config.secret_key {
            Some(k) => {
                key = k.clone();
            },
            None => {
                return Reply::ErrorMsg { message: "Server configuration error".to_owned() };
            },
        }
        if !validate_auth_token(request.auth_token.as_str(), request.device_id.as_str(), key.as_str()) {
            return Reply::ReconnectInvalidToken {
                message: "Invalid auth token. Please pair again.".to_owned(),
            };
        }
        let _touched = self.config.touch_device(request.device_id.as_str(), now_iso.to_owned());
        let device_name: Option<String>;
        match self.config.get_device(request.device_id.as_str()) {
            Some(dev) => {
                device_name = Some(dev.device_name.clone());
            },
            None => {
                proof {
                    assert(false);
                }
                device_name = None;
            },
        }
        self.remove_previous_device_connection(request.device_id.as_str(), client_id);
        let ghost evicted = *self;
        proof {
            assert forall|i: int|
                0 <= i < self.clients@.len() && (#[trigger] self.clients@[i]).client_id
                    != client_id implies opt_view(self.clients@[i].device_id) != Some(
                request.device_id@,
            ) by {
                self.lemma_client_at(i);
                let k = self.clients@[i].client_id;
                assert(evicted.spec_client(k) == Some(self.clients@[i]@));
            }
        }
        self.stamp_client(client_id, request.device_id.clone(), device_name);
        proof {
            if !pre.spec_has_client(client_id) {
                assert(pre.spec_client(client_id) is None);
                if evicted.spec_has_client(client_id) {
                    let j = evicted.spec_client_index(client_id);
                    assert(evicted.clients@[j].client_id == client_id);
                    assert(evicted.spec_client(client_id) is Some);
                    assert(false);
                }
                assert(self.spec_client(client_id) is None);
            }
        }
        Reply::ReconnectOk { device_id: request.device_id.clone(), timestamp: now_ts }
    }

    /// What scan validation accepts: an authenticated session whose device is
    /// still authorized; or a presented auth token that validates for an
    /// authorized device; or, as a legacy path, the active master token.
    pub open spec fn spec_scan_valid(self, client_id: usize, msg: ScanMessage) -> bool {
        let authd = self.spec_client(client_id) matches Some(cv) && cv.authenticated;
        ||| (authd && self.config.spec_is_authorized(msg.device_id@))
        ||| (msg.auth_token matches Some(tok) && self.config.spec_is_authorized(msg.device_id@)
            && spec_reconnect_valid(self.config, msg.device_id@, tok@))
        ||| (msg.token matches Some(t) && t@ == self.token@)
    }

    /// Handles a `scan` message: validates it, acknowledges it, binds the
    /// session to the device, and hands the barcode onward for injection.
    ///
    /// A scan without a payload, or one that no rule validates, is refused
    /// with an error and changes nothing; the socket stays open either way.
    pub fn handle_scan_message(&mut self, client_id: usize, scan_msg: &ScanMessage) -> (r: (
        Reply,
        Option<BarcodeMessage>,
    ))
        requires
            old(self).wf(),
        ensures
            final(self).wf(),
            scan_transition(*old(self), *final(self), client_id, *scan_msg, r.0, r.1),
    {
        let ghost pre = *self;
        let payload = match &scan_msg.payload {
            Some(p) => p,
            None => {
                return (Reply::ErrorMsg { message: "Missing payload".to_owned() }, None);
            },
        };
        let authd = match self.find_client_index(client_id) {
            Some(i) => {
                proof {
                    self.lemma_client_at(i as int);
                }
                self.clients[i].authenticated
            },
            None => false,
        };
        let mut valid = false;
        if authd {
            if self.config.is_device_authorized(scan_msg.device_id.as_str()) {
                valid = true;
            }
        }
        if !valid {
            match &scan_msg.auth_token {
                Some(tok) => {
                    if self.config.is_device_authorized(scan_msg.device_id.as_str()) {
                        match &self.config.secret_key {
                            Some(key) => {
                                let key2 = key.clone();
                                if validate_auth_token(
                                    tok.as_str(),
                                    scan_msg.device_id.as_str(),
                                    key2.as_str(),
                                ) {
                                    valid = true;
                                }
                            },
                            None => {},
                        }
                    }
                },
                None => {},
            }
        }
        if !valid {
            match &scan_msg.token {
                Some(t) => {
                    if str_eq(t.as_str(), self.token.as_str()) {
                        valid = true;
                    }
                },
                None => {},
            }
        }
        if !valid {
            proof {
                assert(!pre.spec_scan_valid(client_id, *scan_msg));
            }
            return (Reply::ErrorMsg { message: "Invalid token".to_owned() }, None);
        }
        proof {
            assert(pre.spec_scan_valid(client_id, *scan_msg));
        }
        self.remove_previous_device_connection(scan_msg.device_id.as_str(), client_id);
        let ghost evicted = *self;
        proof {
            assert forall|i: int|
                0 <= i < self.clients@.len() && (#[trigger] self.clients@[i]).client_id
                    != client_id implies opt_view(self.clients@[i].device_id) != Some(
                scan_msg.device_id@,
            ) by {
                self.lemma_client_at(i);
                let k = self.clients@[i].client_id;
                assert(evicted.spec_client(k) == Some(self.clients@[i]@));
            }
        }
        let name: Option<String> = match &scan_msg.device_name {
            Some(s) => Some(s.clone()),
            None => None,
        };
        let name2: Option<String> = match &scan_msg.device_name {
            Some(s) => Some(s.clone()),
            None => None,
        };
        self.stamp_client(client_id, scan_msg.device_id.clone(), name);
        let reply = Reply::ScanAck { barcode: payload.barcode.clone() };
        let bm = BarcodeMessage {
            barcode: payload.barcode.clone(),
            timestamp: scan_msg.timestamp,
            device_id: scan_msg.device_id.clone(),
            device_name: name2,
        };
        (reply, Some(bm))
    }

    /// Answers a handshake probe: idempotent, no state change.
    pub fn handle_handshake(&self, client_id: usize, now_ts: i64) -> (r: Reply)
        ensures
            r == (Reply::HandshakeAck { client_id, timestamp: now_ts }),
    {
        Reply::HandshakeAck { client_id, timestamp: now_ts }
    }

    /// Dispatches one decoded frame from a client to the protocol engine.
    ///
    /// Handshakes are acknowledged and change nothing; unknown actions are
    /// ignored; malformed input draws an error reply and the socket stays
    /// open; `pair`, `reconnect` and `scan` step the state machine as their
    /// transition predicates describe.
    pub fn handle_message(
        &mut self,
        client_id: usize,
        msg: ClientMessage,
        now_ts: i64,
        now_iso: &str,
        fresh_key: String,
    ) -> (r: (Option<Reply>, Option<BarcodeMessage>))
        requires
            old(self).wf(),
            is_valid_key(fresh_key@),
        ensures
            final(self).wf(),
            msg is Handshake ==> *final(self) == *old(self) && r.0 == Some(
                Reply::HandshakeAck { client_id, timestamp: now_ts },
            ) && r.1 is None,
            msg matches ClientMessage::Unknown(_) ==> *final(self) == *old(self) && r.0 is None
                && r.1 is None,
            msg matches ClientMessage::Malformed(m) ==> *final(self) == *old(self) && (
            r.0 matches Some(Reply::ErrorMsg { message }) && message == m) && r.1 is None,
            msg matches ClientMessage::Pair(req) ==> r.0 matches Some(reply) && pair_transition(
                *old(self),
                *final(self),
                client_id,
                req,
                now_ts,
                now_iso@,
                fresh_key@,
                reply,
            ) && r.1 is None,
            msg matches ClientMessage::Reconnect(req) ==> r.0 matches Some(reply)
                && reconnect_transition(
                *old(self),
                *final(self),
                client_id,
                req,
                now_ts,
                now_iso@,
                reply,
            ) && r.1 is None,
            msg matches ClientMessage::Scan(m) ==> r.0 matches Some(reply) && scan_transition(
                *old(self),
                *final(self),
                client_id,
                m,
                reply,
                r.1,
            ),
    {
        match msg {
            ClientMessage::Handshake => (Some(self.handle_handshake(client_id, now_ts)), None),
            ClientMessage::Pair(req) => (
                Some(self.handle_pair_request(client_id, &req, now_ts, now_iso, fresh_key)),
                None,
            ),
            ClientMessage::Reconnect(req) => (
                Some(self.handle_reconnect_request(client_id, &req, now_ts, now_iso)),
                None,
            ),
            ClientMessage::Scan(m) => {
                let (reply, bm) = self.handle_scan_message(client_id, &m);
                (Some(reply), bm)
            },
            ClientMessage::Unknown(_) => (None, None),
            ClientMessage::Malformed(m) => (Some(Reply::ErrorMsg { message: m }), None),
        }
    }

    /// Dispatches one decoded frame, reading the clock and drawing a fresh
    /// key candidate itself: what the transport calls for each inbound
    /// frame. The engine steps as `handle_message` describes, for some
    /// reading of the clock and some valid fresh key.
    pub fn handle_frame(&mut self, client_id: usize, msg: ClientMessage) -> (r: (
        Option<Reply>,
        Option<BarcodeMessage>,
    ))
        requires
            old(self).wf(),
        ensures
            final(self).wf(),
            msg is Handshake ==> *final(self) == *old(self) && (exists|ts: i64|
                r.0 == Some(Reply::HandshakeAck { client_id, timestamp: ts })) && r.1 is None,
            msg matches ClientMessage::Unknown(_) ==> *final(self) == *old(self) && r.0 is None
                && r.1 is None,
            msg matches ClientMessage::Malformed(m) ==> *final(self) == *old(self) && (
            r.0 matches Some(Reply::ErrorMsg { message }) && message == m) && r.1 is None,
            msg matches ClientMessage::Pair(req) ==> r.0 matches Some(reply) && (exists|
                now_ts: i64,
                now_iso: Seq<char>,
                fresh_key: Seq<char>,
            |
                is_valid_key(fresh_key) && pair_transition(
                    *old(self),
                    *final(self),
                    client_id,
                    req,
                    now_ts,
                    now_iso,
                    fresh_key,
                    reply,
                )) && r.1 is None,
            msg matches ClientMessage::Reconnect(req) ==> r.0 matches Some(reply) && (exists|
                now_ts: i64,
                now_iso: Seq<char>,
            |
                reconnect_transition(
                    *old(self),
                    *final(self),
                    client_id,
                    req,
                    now_ts,
                    now_iso,
                    reply,
                )) && r.1 is None,
            msg matches ClientMessage::Scan(m) ==> r.0 matches Some(reply) && scan_transition(
                *old(self),
                *final(self),
                client_id,
                m,
                reply,
                r.1,
            ),
    {
        let ghost msg0 = msg;
        let now_ts = crate::security::now_timestamp();
        let now_iso = crate::security::now_rfc3339();
        let fresh_key = crate::security::generate_secret_key();
        let r = self.handle_message(client_id, msg, now_ts, now_iso.as_str(), fresh_key);
        proof {
            if msg0 is Handshake {
                assert(r.0 == Some(Reply::HandshakeAck { client_id, timestamp: now_ts }));
            }
        }
        r
    }
}

// ---------------------------------------------------------------------------
// The laws of the session table and of token rotation.
// ---------------------------------------------------------------------------

/// At any instant, at most one session is authenticated for any device: two
/// distinct live sessions that are both authenticated name different devices.
pub proof fn lemma_authenticated_device_unique(s: WebSocketServer, i: int, j: int)
    requires
        s.wf(),
        0 <= i < s.clients@.len(),
        0 <= j < s.clients@.len(),
        i != j,
        s.clients@[i].authenticated,
        s.clients@[j].authenticated,
    ensures
        opt_view(s.clients@[i].device_id) != opt_view(s.clients@[j].device_id),
{
    if i < j {
        assert(opt_view(s.clients@[i].device_id) != opt_view(s.clients@[j].device_id));
    } else {
        assert(opt_view(s.clients@[j].device_id) != opt_view(s.clients@[i].device_id));
    }
}

/// The connected-count is a distinct-device count: among the authenticated
/// sessions it tallies, no device appears twice.
pub proof fn lemma_connected_count_is_distinct(s: WebSocketServer)
    requires
        s.wf(),
    ensures
        ({
            let f = s.clients@.filter(|c: ClientInfo| c.authenticated);
            forall|i: int, j: int|
                0 <= i < j < f.len() ==> opt_view(#[trigger] f[i].device_id) != opt_view(
                    #[trigger] f[j].device_id,
                )
        }),
{
    lemma_filter_table_ok(s.clients@, |c: ClientInfo| c.authenticated, s.next_client_id);
    broadcast use vstd::seq_lib::group_filter_ensures;

    let f = s.clients@.filter(|c: ClientInfo| c.authenticated);
    assert forall|i: int, j: int| 0 <= i < j < f.len() implies opt_view(#[trigger] f[i].device_id)
        != opt_view(#[trigger] f[j].device_id) by {
        assert(f[i].authenticated && f[j].authenticated);
    }
}

/// Once a `pair` with the right master token goes through for a device, the
/// credential store holds a record for it.
pub proof fn lemma_pair_authorizes(
    pre: WebSocketServer,
    post: WebSocketServer,
    client_id: usize,
    request: PairRequest,
    now_ts: i64,
    now_iso: Seq<char>,
    fresh_key: Seq<char>,
    r: Reply,
)
    requires
        pair_transition(pre, post, client_id, request, now_ts, now_iso, fresh_key, r),
        request.master_token@ == pre.token@,
    ensures
        post.config.spec_is_authorized(request.device_id@),
{
}

/// A successful `pair` hands back a usable credential: under a valid active
/// key, a device id of sane size and without a colon, the ack's auth token
/// is non-empty and validates for that device under that key.
pub proof fn lemma_pair_ack_token_validates(
    pre: WebSocketServer,
    post: WebSocketServer,
    client_id: usize,
    request: PairRequest,
    now_ts: i64,
    now_iso: Seq<char>,
    fresh_key: Seq<char>,
    r: Reply,
)
    requires
        pair_transition(pre, post, client_id, request, now_ts, now_iso, fresh_key, r),
        request.master_token@ == pre.token@,
        is_valid_key(spec_active_key(pre.config, fresh_key)),
        vstd::utf8::encode_utf8(request.device_id@).len() <= 999000,
        forall|k: int| 0 <= k < request.device_id@.len() ==> request.device_id@[k] != ':',
    ensures
        r matches Reply::PairAck { auth_token, .. } && auth_token@.len() != 0
            && spec_validate_token(
            auth_token@,
            request.device_id@,
            spec_active_key(pre.config, fresh_key),
        ),
{
    let key = spec_active_key(pre.config, fresh_key);
    if let Reply::PairAck { auth_token, .. } = r {
        crate::security::lemma_auth_token_validates(
            auth_token@,
            key,
            request.device_id@,
            now_ts as int,
        );
    }
}

/// After a device is revoked, any reconnect for it is refused as
/// unauthorized — whatever auth token it presents, valid or not — and the
/// state does not change.
pub proof fn lemma_revoke_blocks_reconnect(
    pre: WebSocketServer,
    post: WebSocketServer,
    client_id: usize,
    request: ReconnectRequest,
    now_ts: i64,
    now_iso: Seq<char>,
    r: Reply,
)
    requires
        !pre.config.spec_is_authorized(request.device_id@),
        reconnect_transition(pre, post, client_id, request, now_ts, now_iso, r),
    ensures
        post == pre,
        r matches Reply::ReconnectUnauthorized { message } && message@
            == "Device not authorized. Please pair again."@,
{
}

/// Rotating the master token invalidates `pair` with the old token: on a
/// server that carries a different token but the same credential store, the
/// old token is refused and nothing changes.
pub proof fn lemma_regenerate_blocks_old_token(
    server: WebSocketServer,
    rotated: WebSocketServer,
    post: WebSocketServer,
    client_id: usize,
    request: PairRequest,
    now_ts: i64,
    now_iso: Seq<char>,
    fresh_key: Seq<char>,
    r: Reply,
)
    requires
        rotated.config == server.config,
        rotated.token@ != server.token@,
        request.master_token@ == server.token@,
        pair_transition(rotated, post, client_id, request, now_ts, now_iso, fresh_key, r),
    ensures
        post == rotated,
        r matches Reply::ErrorMsg { message } && message@ == "Invalid pairing token"@,
{
}

/// Rotating the master token leaves existing auth tokens valid: validation
/// depends on the secret key alone, which rotation preserves, so a reconnect
/// that presents a token minted under that key still connects.
pub proof fn lemma_regenerate_keeps_auth_tokens(
    server: WebSocketServer,
    rotated: WebSocketServer,
    post: WebSocketServer,
    client_id: usize,
    request: ReconnectRequest,
    now_ts: i64,
    now_iso: Seq<char>,
    minted_at: int,
    r: Reply,
)
    requires
        rotated.config == server.config,
        rotated.config.spec_is_authorized(request.device_id@),
        rotated.config.secret_key is Some,
        spec_token_for(
            request.auth_token@,
            rotated.config.secret_key->Some_0@,
            request.device_id@,
            minted_at,
        ),
        forall|k: int| 0 <= k < request.device_id@.len() ==> request.device_id@[k] != ':',
        reconnect_transition(rotated, post, client_id, request, now_ts, now_iso, r),
    ensures
        r matches Reply::ReconnectOk { device_id, timestamp } && device_id@ == request.device_id@
            && timestamp == now_ts,
{
    crate::security::lemma_auth_token_validates(
        request.auth_token@,
        rotated.config.secret_key->Some_0@,
        request.device_id@,
        minted_at,
    );
}

} // verus!
