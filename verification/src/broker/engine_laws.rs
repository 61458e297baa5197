//! What holds of every decision of the broker.
use vstd::prelude::*;

use super::block_list::BlockListView;
use super::engine;
use super::settings;
use super::tls::{self, DetailsView};
use crate::assoc;
use crate::auth::passwd;
use crate::config::parser::{ConfigView, InferenceView, ListenerView};
use crate::number;

verus! {

/// A blocked client is rejected whatever its credentials.
pub proof fn law_blocked_clients_are_rejected(
    block_list: BlockListView,
    allow_anonymous: bool,
    username: Seq<char>,
    client_id: Seq<char>,
    credentials_ok: bool,
)
    requires
        block_list.blocks(username, client_id),
    ensures
        engine::verdict(
            block_list.blocks(username, client_id),
            allow_anonymous,
            username,
            credentials_ok,
        ) == (false, "blocked"@),
{
}

/// Blocking a client identifier blocks it under every username; blocking a
/// username blocks it with every client identifier. Neither lets anyone in who
/// was blocked before.
pub proof fn law_blocking_blocks(
    block_list: BlockListView,
    blocked: Seq<char>,
    username: Seq<char>,
    client_id: Seq<char>,
)
    ensures
        ({
            let more = BlockListView {
                client_ids: block_list.client_ids.insert(blocked),
                ..block_list
            };
            &&& more.blocks(username, blocked)
            &&& block_list.blocks(username, client_id) ==> more.blocks(username, client_id)
        }),
        ({
            let more = BlockListView {
                usernames: block_list.usernames.insert(blocked),
                ..block_list
            };
            &&& blocked.len() > 0 ==> more.blocks(blocked, client_id)
            &&& block_list.blocks(username, client_id) ==> more.blocks(username, client_id)
        }),
{
}

/// Unblocking undoes blocking.
pub proof fn law_unblocking_undoes_blocking(block_list: BlockListView, name: Seq<char>)
    ensures
        !block_list.client_ids.contains(name) ==> block_list.client_ids.insert(name).remove(name)
            == block_list.client_ids,
        !block_list.usernames.contains(name) ==> block_list.usernames.insert(name).remove(name)
            == block_list.usernames,
{
    if !block_list.client_ids.contains(name) {
        assert(block_list.client_ids.insert(name).remove(name) =~= block_list.client_ids);
    }
    if !block_list.usernames.contains(name) {
        assert(block_list.usernames.insert(name).remove(name) =~= block_list.usernames);
    }
}

/// Without passwords and without anonymous clients every connection is
/// rejected.
pub proof fn law_nobody_gets_in_without_passwords(
    blocked: bool,
    username: Seq<char>,
    password: Seq<char>,
)
    ensures
        !engine::verdict(
            blocked,
            false,
            username,
            passwd::accepts(Map::empty(), username, password),
        ).0,
{
}

/// A client that gives a username gets in exactly with the password of that
/// user, and only if it is not blocked.
pub proof fn law_a_username_needs_its_password(
    blocked: bool,
    allow_anonymous: bool,
    username: Seq<char>,
    credentials_ok: bool,
)
    requires
        username.len() > 0,
    ensures
        engine::verdict(blocked, allow_anonymous, username, credentials_ok).0 <==> !blocked
            && credentials_ok,
{
}

/// A listener that asks for client certificates, and that the broker starts
/// with, is a TLS server that checks them.
pub proof fn law_required_certificates_are_checked(l: ListenerView, idx: nat, max_inflight: usize)
    requires
        l.tls is Some,
        l.tls->0.require_certificate,
        engine::tls_fault(l) is None,
    ensures
        settings::server_for(l, idx, max_inflight).tls matches Some(files) && files.capath is Some
            && files.capath == l.tls->0.cafile,
{
}

/// A configuration is refused exactly if a listener has a fault; the first
/// such fault is reported.
pub proof fn law_the_first_faulty_listener_is_reported(listeners: Seq<ListenerView>)
    ensures
        match engine::first_tls_fault(listeners) {
            None => forall|i: int|
                0 <= i < listeners.len() ==> engine::tls_fault(#[trigger] listeners[i]) is None,
            Some(m) => exists|n: int|
                {
                    &&& 0 <= n < listeners.len()
                    &&& engine::tls_fault(#[trigger] listeners[n]) == Some(m)
                    &&& forall|i: int|
                        0 <= i < n ==> engine::tls_fault(#[trigger] listeners[i]) is None
                },
        },
    decreases listeners.len(),
{
    if listeners.len() > 0 {
        let rest = listeners.drop_first();
        law_the_first_faulty_listener_is_reported(rest);
        if engine::tls_fault(listeners[0]) is None {
            match engine::first_tls_fault(rest) {
                None => {
                    assert forall|i: int| 0 <= i < listeners.len() implies engine::tls_fault(
                        #[trigger] listeners[i],
                    ) is None by {
                        if i > 0 {
                            assert(rest[i - 1] == listeners[i]);
                        }
                    }
                },
                Some(m) => {
                    let n = choose|n: int|
                        {
                            &&& 0 <= n < rest.len()
                            &&& engine::tls_fault(#[trigger] rest[n]) == Some(m)
                            &&& forall|i: int|
                                0 <= i < n ==> engine::tls_fault(#[trigger] rest[i]) is None
                        };
                    assert(engine::tls_fault(listeners[n + 1]) == Some(m));
                    assert forall|i: int| 0 <= i < n + 1 implies engine::tls_fault(
                        #[trigger] listeners[i],
                    ) is None by {
                        if i > 0 {
                            assert(rest[i - 1] == listeners[i]);
                        }
                    }
                },
            }
        }
    }
}

spec fn is_key_below(key: Seq<char>, n: nat) -> bool {
    exists|k: nat| k < n && key == #[trigger] number::decimal(k)
}

proof fn lemma_keys(c: ConfigView, n: nat, websocket: bool)
    requires
        n <= c.listeners.len(),
    ensures
        forall|i: int|
            0 <= i < settings::servers_for(c, n, websocket).len() ==> is_key_below(
                (#[trigger] settings::servers_for(c, n, websocket)[i]).0,
                n,
            ),
        assoc::distinct(settings::servers_for(c, n, websocket)),
    decreases n,
{
    if n > 0 {
        let m = (n - 1) as nat;
        lemma_keys(c, m, websocket);
        let before = settings::servers_for(c, m, websocket);
        let now = settings::servers_for(c, n, websocket);
        assert forall|i: int| 0 <= i < now.len() implies is_key_below((#[trigger] now[i]).0, n) by {
            if i < before.len() {
                assert(now[i] == before[i]);
                assert(is_key_below(before[i].0, m));
                let k = choose|k: nat| k < m && before[i].0 == #[trigger] number::decimal(k);
                assert(now[i].0 == number::decimal(k));
            } else {
                assert(now[i].0 == number::decimal(m));
            }
        }
        assert forall|i: int, j: int| 0 <= i < j < now.len() implies now[i].0 != now[j].0 by {
            if j == before.len() {
                assert(now[i] == before[i]);
                assert(is_key_below(before[i].0, m));
                let k = choose|k: nat| k < m && before[i].0 == #[trigger] number::decimal(k);
                if now[i].0 == now[j].0 {
                    number::law_numerals_are_distinct(k, m);
                }
            } else {
                assert(now[i] == before[i] && now[j] == before[j]);
            }
        }
    }
}

proof fn lemma_server_count(c: ConfigView, n: nat)
    requires
        n <= c.listeners.len(),
    ensures
        settings::servers_for(c, n, false).len() + settings::servers_for(c, n, true).len() == n,
    decreases n,
{
    if n > 0 {
        lemma_server_count(c, (n - 1) as nat);
    }
}

proof fn lemma_served(c: ConfigView, n: nat, i: int)
    requires
        n <= c.listeners.len(),
        0 <= i < n,
    ensures
        settings::servers_for(c, n, c.listeners[i].websocket).contains(
            (
                number::decimal(i as nat),
                settings::server_for(c.listeners[i], i as nat, c.max_inflight_messages),
            ),
        ),
    decreases n,
{
    let w = c.listeners[i].websocket;
    let entry = (
        number::decimal(i as nat),
        settings::server_for(c.listeners[i], i as nat, c.max_inflight_messages),
    );
    let now = settings::servers_for(c, n, w);
    let before = settings::servers_for(c, (n - 1) as nat, w);
    if i == n - 1 {
        assert(now[before.len() as int] == entry);
    } else {
        lemma_served(c, (n - 1) as nat, i);
        let k = choose|k: int| 0 <= k < before.len() && before[k] == entry;
        assert(now[k] == entry);
    }
}

/// Every listener has its server among those of its kind, under its number;
/// there are no other servers, and no two of one kind have the same key.
pub proof fn law_every_listener_is_served_once(c: ConfigView)
    ensures
        ({
            let v4 = settings::servers_for(c, c.listeners.len(), false);
            let ws = settings::servers_for(c, c.listeners.len(), true);
            &&& v4.len() + ws.len() == c.listeners.len()
            &&& assoc::distinct(v4)
            &&& assoc::distinct(ws)
        }),
        forall|i: int|
            #![trigger c.listeners[i]]
            0 <= i < c.listeners.len() ==> settings::servers_for(
                c,
                c.listeners.len(),
                c.listeners[i].websocket,
            ).contains(
                (
                    number::decimal(i as nat),
                    settings::server_for(c.listeners[i], i as nat, c.max_inflight_messages),
                ),
            ),
{
    assert forall|i: int|
        #![trigger c.listeners[i]]
        0 <= i < c.listeners.len() implies settings::servers_for(
        c,
        c.listeners.len(),
        c.listeners[i].websocket,
    ).contains(
        (
            number::decimal(i as nat),
            settings::server_for(c.listeners[i], i as nat, c.max_inflight_messages),
        ),
    ) by {
        lemma_served(c, c.listeners.len(), i);
    }
    lemma_server_count(c, c.listeners.len());
    lemma_keys(c, c.listeners.len(), false);
    lemma_keys(c, c.listeners.len(), true);
}

/// A connection is let in exactly if it is not blocked and either has no
/// username where anonymous clients are welcome, or has the password of its
/// username. The reason tells which of these decided.
pub proof fn law_who_gets_in_and_why(
    blocked: bool,
    allow_anonymous: bool,
    username: Seq<char>,
    credentials_ok: bool,
)
    ensures
        ({
            let v = engine::verdict(blocked, allow_anonymous, username, credentials_ok);
            let anonymous = username == Seq::<char>::empty();
            &&& v.0 <==> !blocked && (if anonymous {
                allow_anonymous
            } else {
                credentials_ok
            })
            &&& v.1 == "blocked"@ <==> blocked
            &&& v.1 == "anonymous"@ <==> !blocked && anonymous && allow_anonymous
            &&& v.1 == "anon_denied"@ <==> !blocked && anonymous && !allow_anonymous
            &&& v.1 == "ok"@ <==> !blocked && !anonymous && credentials_ok
            &&& v.1 == "bad_credentials"@ <==> !blocked && !anonymous && !credentials_ok
        }),
{
    reveal_strlit("blocked");
    reveal_strlit("anonymous");
    reveal_strlit("anon_denied");
    reveal_strlit("ok");
    reveal_strlit("bad_credentials");
    assert("blocked"@.len() == 7 && "anonymous"@.len() == 9 && "anon_denied"@.len() == 11
        && "ok"@.len() == 2 && "bad_credentials"@.len() == 15);
    if username.len() == 0 {
        assert(username =~= Seq::<char>::empty());
    }
}

/// A limit on the connections holds as it is written; a negative one stands for
/// a hundred thousand.
pub proof fn law_how_many_connections(n: int)
    ensures
        n < 0 ==> engine::connection_limit(n) == 100_000,
        0 <= n <= usize::MAX ==> engine::connection_limit(n) == n,
{
}

/// A listener is at fault exactly if it asks for client certificates and lacks
/// one of its three files; the message names the port and what is missing.
pub proof fn law_what_a_listener_with_certificates_needs(l: ListenerView)
    ensures
        engine::tls_fault(l) is Some <==> {
            &&& l.tls is Some
            &&& l.tls->0.require_certificate
            &&& l.tls->0.cafile is None || l.tls->0.certfile is None || l.tls->0.keyfile is None
        },
        engine::tls_fault(l) matches Some(m) ==> m == "Listener on port "@ + number::decimal(
            l.port as nat,
        ) + (if l.tls->0.cafile is None {
            " has require_certificate=true but no cafile"@
        } else {
            " has require_certificate=true but missing certfile/keyfile"@
        }),
{
}

/// The log names the address, the port and the protocol of a listener.
pub proof fn law_the_log_line_of_a_listener(l: ListenerView)
    ensures
        ({
            let protocol = if l.tls is None && !l.websocket {
                "TCP"@
            } else if l.tls is None {
                "WS"@
            } else if l.websocket {
                "WSS/mTLS"@
            } else if l.tls->0.require_certificate {
                "mTLS"@
            } else {
                "TLS"@
            };
            let address = if l.bind_addr is Some {
                l.bind_addr->0
            } else {
                "0.0.0.0"@
            };
            engine::listener_text(l) == "  listener "@ + address + ":"@ + number::decimal(
                l.port as nat,
            ) + " ["@ + protocol + "]"@
        }),
{
}

/// A server listens on the address and port of its listener, or on the same
/// port of every address; it has a name with the listener's number, and the
/// limits that all servers have.
pub proof fn law_a_server_follows_its_listener(l: ListenerView, idx: nat, max_inflight: usize)
    ensures
        ({
            let s = settings::server_for(l, idx, max_inflight);
            let port = ":"@ + number::decimal(l.port as nat);
            &&& s.name == "listener-"@ + number::decimal(idx)
            &&& l.bind_addr matches Some(a) ==> s.listen == a + port
            &&& l.bind_addr is None ==> s.listen == "0.0.0.0"@ + port
            &&& s.fallback == "0.0.0.0"@ + port
            &&& s.next_connection_delay_ms == 1
            &&& s.connections.connection_timeout_ms == 5000
            &&& s.connections.max_payload_size == 1_048_576
            &&& s.connections.max_inflight_count == max_inflight
            &&& s.connections.dynamic_filters
        }),
{
    assert forall|a: Seq<char>| #[trigger] settings::address(a, l.port) == a + (":"@
        + number::decimal(l.port as nat)) by {
        assert(a + ":"@ + number::decimal(l.port as nat) =~= a + (":"@ + number::decimal(
            l.port as nat,
        )));
    }
}

/// A server speaks TLS exactly if its listener has a certificate and a key. It
/// asks for client certificates exactly if the listener says so and names the
/// file that vouches for them.
pub proof fn law_when_a_server_speaks_tls(l: ListenerView, idx: nat, max_inflight: usize)
    ensures
        ({
            let tls = settings::server_for(l, idx, max_inflight).tls;
            &&& tls is Some <==> l.tls is Some && l.tls->0.certfile is Some && l.tls->0.keyfile
                is Some
            &&& tls is Some ==> {
                &&& Some(tls->0.certpath) == l.tls->0.certfile
                &&& Some(tls->0.keypath) == l.tls->0.keyfile
                &&& l.tls->0.require_certificate ==> tls->0.capath == l.tls->0.cafile
                &&& !l.tls->0.require_certificate ==> tls->0.capath is None
            }
        }),
{
}

/// The broker is started with the configured limits and fixed ones, and with the
/// servers of each kind, if there are any.
pub proof fn law_the_settings_follow_the_configuration(c: ConfigView, max_connections: usize)
    requires
        c.max_queued_messages <= u64::MAX,
    ensures
        ({
            let s = settings::settings_for(c, max_connections);
            let v4 = settings::servers_for(c, c.listeners.len(), false);
            let ws = settings::servers_for(c, c.listeners.len(), true);
            &&& s.id == 0
            &&& s.router.max_connections == max_connections
            &&& s.router.max_outgoing_packet_count == c.max_queued_messages
            &&& s.router.max_segment_size == 104_857_600
            &&& s.router.max_segment_count == 10
            &&& s.v4 is None <==> forall|i: int|
                0 <= i < c.listeners.len() ==> (#[trigger] c.listeners[i]).websocket
            &&& s.ws is None <==> forall|i: int|
                0 <= i < c.listeners.len() ==> !(#[trigger] c.listeners[i]).websocket
            &&& s.v4 matches Some(v) ==> v == v4
            &&& s.ws matches Some(v) ==> v == ws
        }),
{
    lemma_none_of_a_kind(c, c.listeners.len(), false);
    lemma_none_of_a_kind(c, c.listeners.len(), true);
}

proof fn lemma_none_of_a_kind(c: ConfigView, n: nat, websocket: bool)
    requires
        n <= c.listeners.len(),
    ensures
        settings::servers_for(c, n, websocket).len() == 0 <==> forall|i: int|
            0 <= i < n ==> (#[trigger] c.listeners[i]).websocket != websocket,
    decreases n,
{
    if n > 0 {
        lemma_none_of_a_kind(c, (n - 1) as nat, websocket);
    }
}

/// The servers of one kind stand in the order of their listeners.
pub proof fn law_servers_are_in_the_order_of_the_listeners(
    c: ConfigView,
    websocket: bool,
    n: nat,
    l: ListenerView,
)
    requires
        n < c.listeners.len(),
        c.listeners[n as int] == l,
    ensures
        l.websocket != websocket ==> settings::servers_for(c, n + 1, websocket)
            == settings::servers_for(c, n, websocket),
        l.websocket == websocket ==> {
            let all = settings::servers_for(c, n + 1, websocket);
            &&& all.len() == settings::servers_for(c, n, websocket).len() + 1
            &&& all.drop_last() == settings::servers_for(c, n, websocket)
            &&& all.last().0 == number::decimal(n)
            &&& all.last().1 == settings::server_for(l, n, c.max_inflight_messages)
        },
{
    let before = settings::servers_for(c, n, websocket);
    let all = settings::servers_for(c, n + 1, websocket);
    if l.websocket == websocket {
        assert(all.drop_last() =~= before);
    }
}

/// A report about a rejected certificate has what could be read of it, along
/// with the number of intermediate certificates, and always the error.
pub proof fn law_a_rejection_is_reported(
    details: Option<DetailsView>,
    presented_intermediates: nat,
    error: Seq<char>,
)
    ensures
        ({
            let r = tls::report_on(details, presented_intermediates, error);
            &&& r.error == error
            &&& details matches Some(d) ==> r.details == Some((d, presented_intermediates))
                && r.message == "client cert rejected"@
            &&& details is None ==> r.details is None && r.message
                == "client cert rejected (cert parse failed)"@
        }),
{
}

/// Where connections are not checked, everyone may come in without a name, and
/// nobody has a password; if only one of these holds, they are checked.
pub proof fn law_when_connections_are_checked(
    allow_anonymous: bool,
    users: Map<Seq<char>, Seq<char>>,
)
    ensures
        !engine::checks_connections(allow_anonymous, users) <==> allow_anonymous && forall|
            user: Seq<char>,
        | !(#[trigger] users.dom().contains(user)),
{
    if forall|user: Seq<char>| !(#[trigger] users.dom().contains(user)) {
        assert(users =~= Map::<Seq<char>, Seq<char>>::empty());
    }
}

/// The monitor runs exactly if it is switched on and has a key; the key is
/// missed only if it is switched on.
pub proof fn law_when_the_monitor_runs(c: InferenceView)
    ensures
        engine::mode_of(c) is Enabled <==> c.enabled && c.api_key != Seq::<char>::empty(),
        engine::mode_of(c) is MissingKey <==> c.enabled && c.api_key == Seq::<char>::empty(),
        engine::mode_of(c) is Disabled <==> !c.enabled,
{
    if c.api_key.len() == 0 {
        assert(c.api_key =~= Seq::<char>::empty());
    }
}

} // verus!
