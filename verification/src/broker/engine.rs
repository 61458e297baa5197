//! The decisions of the broker: which configurations it starts with, and which
//! connections it accepts.
use vstd::prelude::*;
use vstd::string::*;

use super::block_list::BlockList;
use crate::auth::passwd::{self, PasswdStore};
use crate::config::parser::{InferenceView, ListenerConfig, ListenerView, MastConfig};
use crate::error::MastError;
use crate::inference::clock::now;
use crate::inference::event::{self, BrokerEvent};
use crate::number::{self, decimal_string};

verus! {

/// How many connections the broker takes: a negative setting stands for no
/// limit, which is a large number.
pub open spec fn connection_limit(max_connections: int) -> usize {
    if max_connections < 0 {
        100_000
    } else {
        max_connections as usize
    }
}

/// How many connections the broker takes.
pub fn max_connections_of(config: &MastConfig) -> (n: usize)
    ensures
        n == connection_limit(config@.max_connections),
{
    if config.max_connections < 0 {
        100_000
    } else {
        config.max_connections as usize
    }
}

/// What is missing from a listener that asks for client certificates, as a
/// message; `None` if nothing is.
pub open spec fn tls_fault(l: ListenerView) -> Option<Seq<char>> {
    match l.tls {
        Some(t) => if t.require_certificate && t.cafile is None {
            Some(
                "Listener on port "@ + number::decimal(l.port as nat)
                    + " has require_certificate=true but no cafile"@,
            )
        } else if t.require_certificate && (t.certfile is None || t.keyfile is None) {
            Some(
                "Listener on port "@ + number::decimal(l.port as nat)
                    + " has require_certificate=true but missing certfile/keyfile"@,
            )
        } else {
            None
        },
        None => None,
    }
}

/// The fault of the first listener that has one.
pub open spec fn first_tls_fault(listeners: Seq<ListenerView>) -> Option<Seq<char>>
    decreases listeners.len(),
{
    if listeners.len() == 0 {
        None
    } else if tls_fault(listeners[0]) is Some {
        tls_fault(listeners[0])
    } else {
        first_tls_fault(listeners.drop_first())
    }
}

fn port_message(port: u16, rest: &str) -> (s: String)
    ensures
        s@ == "Listener on port "@ + number::decimal(port as nat) + rest@,
{
    let mut s = "Listener on port ".to_string();
    s.append(decimal_string(port as u64).as_str());
    s.append(rest);
    s
}

fn fault_of(l: &ListenerConfig) -> (r: Option<String>)
    ensures
        match r {
            Some(m) => tls_fault(l@) == Some(m@),
            None => tls_fault(l@) is None,
        },
{
    match &l.tls {
        Some(t) => {
            if t.require_certificate && t.cafile.is_none() {
                Some(port_message(l.port, " has require_certificate=true but no cafile"))
            } else if t.require_certificate && (t.certfile.is_none() || t.keyfile.is_none()) {
                Some(
                    port_message(
                        l.port,
                        " has require_certificate=true but missing certfile/keyfile",
                    ),
                )
            } else {
                None
            }
        },
        None => None,
    }
}

/// Refuses a configuration in which a listener asks for client certificates
/// but lacks the files for it.
pub fn check_listeners(config: &MastConfig) -> (r: Result<(), MastError>)
    ensures
        match first_tls_fault(config@.listeners) {
            Some(m) => r matches Err(MastError::Config(w)) && w@ == m,
            None => r is Ok,
        },
{
    let ghost all = config@.listeners;
    let mut i: usize = 0;
    assert(all.skip(0) =~= all);
    while i < config.listeners.len()
        invariant
            i <= config.listeners.len(),
            all == config@.listeners,
            all.len() == config.listeners.len(),
            first_tls_fault(all) == first_tls_fault(all.skip(i as int)),
        decreases config.listeners.len() - i,
    {
        assert(all.skip(i as int)[0] == config.listeners@[i as int]@);
        match fault_of(&config.listeners[i]) {
            Some(m) => {
                return Err(MastError::Config(m));
            },
            None => {},
        }
        assert(all.skip(i as int).drop_first() =~= all.skip(i + 1));
        i += 1;
    }
    Ok(())
}

/// The protocol of a listener, as it is logged.
pub open spec fn protocol_of(l: ListenerView) -> Seq<char> {
    match l.tls {
        Some(t) => if l.websocket {
            "WSS/mTLS"@
        } else if t.require_certificate {
            "mTLS"@
        } else {
            "TLS"@
        },
        None => if l.websocket {
            "WS"@
        } else {
            "TCP"@
        },
    }
}

/// The log line about a listener.
pub open spec fn listener_text(l: ListenerView) -> Seq<char> {
    let address = match l.bind_addr {
        Some(a) => a,
        None => "0.0.0.0"@,
    };
    "  listener "@ + address + ":"@ + number::decimal(l.port as nat) + " ["@ + protocol_of(l) + "]"@
}

/// The log line about a listener.
pub fn describe_listener(l: &ListenerConfig) -> (s: String)
    ensures
        s@ == listener_text(l@),
{
    let proto = match &l.tls {
        Some(t) => if l.websocket {
            "WSS/mTLS"
        } else if t.require_certificate {
            "mTLS"
        } else {
            "TLS"
        },
        None => if l.websocket {
            "WS"
        } else {
            "TCP"
        },
    };
    let mut s = "  listener ".to_string();
    match &l.bind_addr {
        Some(a) => s.append(a.as_str()),
        None => s.append("0.0.0.0"),
    }
    s.append(":");
    s.append(decimal_string(l.port as u64).as_str());
    s.append(" [");
    s.append(proto);
    s.append("]");
    s
}

/// Connections are checked, given whether anonymous clients are accepted and
/// which users there are.
pub open spec fn checks_connections(
    allow_anonymous: bool,
    users: Map<Seq<char>, Seq<char>>,
) -> bool {
    !allow_anonymous || users != Map::<Seq<char>, Seq<char>>::empty()
}

/// Tells whether connections are checked at all: a broker that lets everyone
/// in and has no passwords checks none.
pub fn needs_auth_handler(allow_anonymous: bool, passwd: &PasswdStore) -> (b: bool)
    ensures
        b == !(allow_anonymous && passwd@ == Map::<Seq<char>, Seq<char>>::empty()),
        b == checks_connections(allow_anonymous, passwd@),
{
    !(allow_anonymous && passwd.is_empty())
}

/// Whether a connection is accepted, and why. A blocked client is rejected
/// whatever its credentials; a client without a username is accepted if
/// anonymous clients are; any other needs its password.
pub open spec fn verdict(
    blocked: bool,
    allow_anonymous: bool,
    username: Seq<char>,
    credentials_ok: bool,
) -> (bool, Seq<char>) {
    if blocked {
        (false, "blocked"@)
    } else if username.len() == 0 {
        if allow_anonymous {
            (true, "anonymous"@)
        } else {
            (false, "anon_denied"@)
        }
    } else if credentials_ok {
        (true, "ok"@)
    } else {
        (false, "bad_credentials"@)
    }
}

/// Whether a connection is accepted, and why, given what the deny-list and the
/// passwords say.
pub fn judge(blocked: bool, allow_anonymous: bool, username: &str, credentials_ok: bool) -> (v: (
    bool,
    &'static str,
))
    ensures
        (v.0, v.1@) == verdict(blocked, allow_anonymous, username@, credentials_ok),
{
    if blocked {
        (false, "blocked")
    } else if username.is_empty() {
        if allow_anonymous {
            (true, "anonymous")
        } else {
            (false, "anon_denied")
        }
    } else if credentials_ok {
        (true, "ok")
    } else {
        (false, "bad_credentials")
    }
}

/// Decides about a connection at the given time, and tells the threat monitor.
pub fn authorize_at(
    block_list: &BlockList,
    passwd: &PasswdStore,
    allow_anonymous: bool,
    client_id: String,
    username: String,
    password: &str,
    ts: i128,
) -> (r: (bool, BrokerEvent))
    ensures
        ({
            let v = verdict(
                block_list@.blocks(username@, client_id@),
                allow_anonymous,
                username@,
                passwd::accepts(passwd@, username@, password@),
            );
            r.0 == v.0 && r.1@ == event::connected(client_id@, username@, v.0, v.1, ts as int)
        }),
{
    let blocked = block_list.is_blocked(username.as_str(), client_id.as_str());
    let credentials_ok = !blocked && !username.as_str().is_empty() && passwd.verify(
        username.as_str(),
        password,
    );
    let (allowed, reason) = judge(blocked, allow_anonymous, username.as_str(), credentials_ok);
    assert((allowed, reason@) == verdict(
        block_list@.blocks(username@, client_id@),
        allow_anonymous,
        username@,
        passwd::accepts(passwd@, username@, password@),
    ));
    (allowed, BrokerEvent::connect_at(client_id, username, allowed, reason, ts))
}

/// Decides about a connection, and tells the threat monitor.
pub fn authorize(
    block_list: &BlockList,
    passwd: &PasswdStore,
    allow_anonymous: bool,
    client_id: String,
    username: String,
    password: &str,
) -> (r: (bool, BrokerEvent))
    ensures
        ({
            let v = verdict(
                block_list@.blocks(username@, client_id@),
                allow_anonymous,
                username@,
                passwd::accepts(passwd@, username@, password@),
            );
            r.0 == v.0 && exists|ts: int|
                r.1@ == #[trigger] event::connected(client_id@, username@, v.0, v.1, ts)
        }),
{
    let ts = now();
    authorize_at(block_list, passwd, allow_anonymous, client_id, username, password, ts)
}

/// Whether the threat monitor gets to see what happens.
#[derive(Debug, Clone, Copy, PartialEq, Eq, Structural)]
pub enum MonitorMode {
    /// It is switched off.
    Disabled,
    /// It is switched on, but has no key for the classification service.
    MissingKey,
    /// It is switched on.
    Enabled,
}

/// Whether the threat monitor gets to see what happens.
pub open spec fn mode_of(c: InferenceView) -> MonitorMode {
    if c.enabled && c.api_key.len() > 0 {
        MonitorMode::Enabled
    } else if c.enabled {
        MonitorMode::MissingKey
    } else {
        MonitorMode::Disabled
    }
}

/// Whether the threat monitor gets to see what happens.
pub fn monitor_mode(config: &MastConfig) -> (m: MonitorMode)
    ensures
        m == (if !config@.inference.enabled {
            MonitorMode::Disabled
        } else if config@.inference.api_key.len() == 0 {
            MonitorMode::MissingKey
        } else {
            MonitorMode::Enabled
        }),
        m == mode_of(config@.inference),
{
    if !config.inference.enabled {
        MonitorMode::Disabled
    } else if config.inference.api_key.as_str().is_empty() {
        MonitorMode::MissingKey
    } else {
        MonitorMode::Enabled
    }
}

} // verus!
