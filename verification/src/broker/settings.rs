//! The settings that the broker is started with.
use vstd::prelude::*;
use vstd::string::*;

use crate::config::parser::{
    self, ConfigView, ListenerConfig, ListenerView, MastConfig, TlsListenerConfig, TlsView,
};
use crate::number::{self, decimal_string};

verus! {

/// The limits of the message router.
#[derive(Debug, Clone, Copy, PartialEq, Eq, Structural)]
pub struct RouterSettings {
    pub max_connections: usize,
    pub max_outgoing_packet_count: u64,
    pub max_segment_size: usize,
    pub max_segment_count: usize,
}

/// The limits of a client connection.
#[derive(Debug, Clone, Copy, PartialEq, Eq, Structural)]
pub struct ConnectionLimits {
    pub connection_timeout_ms: u16,
    pub max_payload_size: usize,
    pub max_inflight_count: usize,
    pub dynamic_filters: bool,
}

/// The files of a TLS server. With a `capath`, clients have to present a
/// certificate that it vouches for.
#[derive(Debug)]
pub struct TlsFiles {
    pub capath: Option<String>,
    pub certpath: String,
    pub keypath: String,
}

/// One server.
#[derive(Debug)]
pub struct ServerSettings {
    pub name: String,
    /// The address and port to listen on.
    pub listen: String,
    /// What to listen on if `listen` is no address.
    pub fallback: String,
    pub tls: Option<TlsFiles>,
    pub next_connection_delay_ms: u64,
    pub connections: ConnectionLimits,
}

/// The settings of the broker: the servers for plain connections and those for
/// websockets, each with its key.
#[derive(Debug)]
pub struct BrokerSettings {
    pub id: usize,
    pub router: RouterSettings,
    pub v4: Option<Vec<(String, ServerSettings)>>,
    pub ws: Option<Vec<(String, ServerSettings)>>,
}

/// What `TlsFiles` holds.
#[verifier::ext_equal]
pub struct TlsFilesView {
    pub capath: Option<Seq<char>>,
    pub certpath: Seq<char>,
    pub keypath: Seq<char>,
}

/// What `ServerSettings` holds.
#[verifier::ext_equal]
pub struct ServerView {
    pub name: Seq<char>,
    pub listen: Seq<char>,
    pub fallback: Seq<char>,
    pub tls: Option<TlsFilesView>,
    pub next_connection_delay_ms: u64,
    pub connections: ConnectionLimits,
}

/// What `BrokerSettings` holds.
#[verifier::ext_equal]
pub struct SettingsView {
    pub id: usize,
    pub router: RouterSettings,
    pub v4: Option<Seq<(Seq<char>, ServerView)>>,
    pub ws: Option<Seq<(Seq<char>, ServerView)>>,
}

impl View for TlsFiles {
    type V = TlsFilesView;

    open spec fn view(&self) -> TlsFilesView {
        TlsFilesView {
            capath: parser::opt_text(self.capath),
            certpath: self.certpath@,
            keypath: self.keypath@,
        }
    }
}

impl View for ServerSettings {
    type V = ServerView;

    open spec fn view(&self) -> ServerView {
        ServerView {
            name: self.name@,
            listen: self.listen@,
            fallback: self.fallback@,
            tls: match self.tls {
                Some(t) => Some(t@),
                None => None,
            },
            next_connection_delay_ms: self.next_connection_delay_ms,
            connections: self.connections,
        }
    }
}

/// What a list of servers holds.
pub open spec fn servers_view(v: Seq<(String, ServerSettings)>) -> Seq<(Seq<char>, ServerView)> {
    Seq::new(v.len(), |i: int| (v[i].0@, v[i].1@))
}

/// What an optional list of servers holds.
pub open spec fn opt_servers_view(v: Option<Vec<(String, ServerSettings)>>) -> Option<
    Seq<(Seq<char>, ServerView)>,
> {
    match v {
        Some(s) => Some(servers_view(s@)),
        None => None,
    }
}

impl View for BrokerSettings {
    type V = SettingsView;

    open spec fn view(&self) -> SettingsView {
        SettingsView {
            id: self.id,
            router: self.router,
            v4: opt_servers_view(self.v4),
            ws: opt_servers_view(self.ws),
        }
    }
}

/// The TLS files of a listener: it needs a certificate and a key, and asks for
/// client certificates only if it is told to.
pub open spec fn tls_files(tls: Option<TlsView>) -> Option<TlsFilesView> {
    match tls {
        Some(t) => match (t.certfile, t.keyfile) {
            (Some(certpath), Some(keypath)) => Some(
                TlsFilesView {
                    capath: if t.require_certificate {
                        t.cafile
                    } else {
                        None
                    },
                    certpath,
                    keypath,
                },
            ),
            _ => None,
        },
        None => None,
    }
}

/// The address and the port of a server.
pub open spec fn address(addr: Seq<char>, port: u16) -> Seq<char> {
    addr + ":"@ + number::decimal(port as nat)
}

/// The limits of a client connection.
pub open spec fn limits(max_inflight: usize) -> ConnectionLimits {
    ConnectionLimits {
        connection_timeout_ms: 5000,
        max_payload_size: 1_048_576,
        max_inflight_count: max_inflight,
        dynamic_filters: true,
    }
}

/// The server for the listener with number `idx`.
pub open spec fn server_for(l: ListenerView, idx: nat, max_inflight: usize) -> ServerView {
    ServerView {
        name: "listener-"@ + number::decimal(idx),
        listen: address(
            match l.bind_addr {
                Some(a) => a,
                None => "0.0.0.0"@,
            },
            l.port,
        ),
        fallback: address("0.0.0.0"@, l.port),
        tls: tls_files(l.tls),
        next_connection_delay_ms: 1,
        connections: limits(max_inflight),
    }
}

/// The servers for those of the first `n` listeners that are for websockets,
/// or for those that are not; each under the number of its listener.
pub open spec fn servers_for(c: ConfigView, n: nat, websocket: bool) -> Seq<
    (Seq<char>, ServerView),
>
    decreases n,
{
    if n == 0 {
        Seq::empty()
    } else {
        let before = servers_for(c, (n - 1) as nat, websocket);
        let l = c.listeners[n - 1];
        if l.websocket == websocket {
            before.push(
                (
                    number::decimal((n - 1) as nat),
                    server_for(l, (n - 1) as nat, c.max_inflight_messages),
                ),
            )
        } else {
            before
        }
    }
}

/// A list of servers, unless it is empty.
pub open spec fn unless_empty(s: Seq<(Seq<char>, ServerView)>) -> Option<
    Seq<(Seq<char>, ServerView)>,
> {
    if s.len() == 0 {
        None
    } else {
        Some(s)
    }
}

/// The settings that a configuration gives.
pub open spec fn settings_for(c: ConfigView, max_connections: usize) -> SettingsView {
    SettingsView {
        id: 0,
        router: RouterSettings {
            max_connections,
            max_outgoing_packet_count: c.max_queued_messages as u64,
            max_segment_size: 104_857_600,
            max_segment_count: 10,
        },
        v4: unless_empty(servers_for(c, c.listeners.len(), false)),
        ws: unless_empty(servers_for(c, c.listeners.len(), true)),
    }
}

fn tls_files_of(tls: &Option<TlsListenerConfig>) -> (r: Option<TlsFiles>)
    ensures
        match r {
            Some(f) => tls_files(
                match *tls {
                    Some(t) => Some(t@),
                    None => None,
                },
            ) == Some(f@),
            None => tls_files(
                match *tls {
                    Some(t) => Some(t@),
                    None => None,
                },
            ) is None,
        },
{
    match tls {
        Some(t) => match (&t.certfile, &t.keyfile) {
            (Some(cert), Some(key)) => {
                let mut capath: Option<String> = None;
                if t.require_certificate {
                    match &t.cafile {
                        Some(ca) => {
                            capath = Some(ca.clone());
                        },
                        None => {},
                    }
                }
                Some(TlsFiles { capath, certpath: cert.clone(), keypath: key.clone() })
            },
            _ => None,
        },
        None => None,
    }
}

fn address_of(addr: &str, port: u16) -> (s: String)
    ensures
        s@ == address(addr@, port),
{
    let mut s = addr.to_string();
    s.append(":");
    s.append(decimal_string(port as u64).as_str());
    s
}

fn server_of(l: &ListenerConfig, idx: usize, max_inflight: usize) -> (s: ServerSettings)
    ensures
        s@ == server_for(l@, idx as nat, max_inflight),
{
    let listen = match &l.bind_addr {
        Some(a) => address_of(a.as_str(), l.port),
        None => address_of("0.0.0.0", l.port),
    };
    let mut name = "listener-".to_string();
    name.append(decimal_string(idx as u64).as_str());
    ServerSettings {
        name,
        listen,
        fallback: address_of("0.0.0.0", l.port),
        tls: tls_files_of(&l.tls),
        next_connection_delay_ms: 1,
        connections: ConnectionLimits {
            connection_timeout_ms: 5000,
            max_payload_size: 1_048_576,
            max_inflight_count: max_inflight,
            dynamic_filters: true,
        },
    }
}

/// The address that a server listens on, given whether its first choice is an
/// address.
pub fn address_to_use<'a>(s: &'a ServerSettings, listen_is_address: bool) -> (t: &'a str)
    ensures
        t@ == (if listen_is_address {
            s@.listen
        } else {
            s@.fallback
        }),
{
    if listen_is_address {
        s.listen.as_str()
    } else {
        s.fallback.as_str()
    }
}

/// The settings that a configuration gives.
pub fn build_rumqttd_config(config: &MastConfig, max_connections: usize) -> (s: BrokerSettings)
    ensures
        s@ == settings_for(config@, max_connections),
{
    let ghost c = config@;
    let mut v4: Vec<(String, ServerSettings)> = Vec::new();
    let mut ws: Vec<(String, ServerSettings)> = Vec::new();
    let mut i: usize = 0;
    assert(servers_view(v4@) =~= Seq::empty());
    assert(servers_view(ws@) =~= Seq::empty());
    while i < config.listeners.len()
        invariant
            i <= config.listeners.len(),
            c == config@,
            c.listeners.len() == config.listeners.len(),
            servers_view(v4@) == servers_for(c, i as nat, false),
            servers_view(ws@) == servers_for(c, i as nat, true),
        decreases config.listeners.len() - i,
    {
        assert(c.listeners[i as int] == config.listeners@[i as int]@);
        let server = server_of(&config.listeners[i], i, config.max_inflight_messages);
        let key = decimal_string(i as u64);
        let ghost entry = (key@, server@);
        if config.listeners[i].websocket {
            let ghost before = servers_view(ws@);
            ws.push((key, server));
            assert(servers_view(ws@) =~= before.push(entry));
        } else {
            let ghost before = servers_view(v4@);
            v4.push((key, server));
            assert(servers_view(v4@) =~= before.push(entry));
        }
        i += 1;
    }
    BrokerSettings {
        id: 0,
        router: RouterSettings {
            max_connections,
            max_outgoing_packet_count: config.max_queued_messages as u64,
            max_segment_size: 104_857_600,
            max_segment_count: 10,
        },
        v4: if v4.len() == 0 {
            None
        } else {
            Some(v4)
        },
        ws: if ws.len() == 0 {
            None
        } else {
            Some(ws)
        },
    }
}

} // verus!
