use captain_mast::auth::PasswdStore;
use captain_mast::broker::block_list::BlockList;
use captain_mast::broker::engine::{
    authorize, authorize_at, check_listeners, describe_listener, judge, max_connections_of, monitor_mode,
    needs_auth_handler, MonitorMode,
};
use captain_mast::broker::settings::{address_to_use, build_rumqttd_config};
use captain_mast::broker::tls::{report_details, report_rejection, CertificateDetails};
use captain_mast::config::parser::MastConfig;
use captain_mast::error::MastError;
use captain_mast::inference::BrokerEvent;

const HASH: &str = "$2a$05$CCCCCCCCCCCCCCCCCCCCC.E5YPO9kmyuRGyh0XouQYb4YMJKvyOeW";

fn parse(text: &str) -> MastConfig {
    match MastConfig::parse(text) {
        Ok(c) => c,
        Err(e) => panic!("{:?}", e),
    }
}

#[test]
fn the_deny_list() {
    let mut b = BlockList::new();
    assert!(!b.is_blocked("bob", "c1"));
    b.block_username("bob");
    b.block_username("bob");
    b.block_client("c2");
    assert!(b.is_blocked("bob", "c1"));
    assert!(b.is_blocked("eve", "c2"));
    assert!(!b.is_blocked("c2", "bob"));
    assert_eq!(b.blocked_usernames(), vec!["bob"]);
    assert_eq!(b.blocked_clients(), vec!["c2"]);
    b.unblock_username("bob");
    b.unblock_client("c2");
    b.unblock_client("c3");
    assert!(!b.is_blocked("bob", "c2"));
    assert!(b.blocked_usernames().is_empty());
    assert!(b.blocked_clients().is_empty());
}

#[test]
fn no_username_is_not_blocked_by_name() {
    let mut b = BlockList::new();
    b.block_username("");
    assert!(!b.is_blocked("", "c1"));
    b.block_client("");
    assert!(b.is_blocked("", ""));
}

#[test]
fn the_number_of_connections() {
    assert_eq!(max_connections_of(&parse("")), 100_000);
    assert_eq!(max_connections_of(&parse("max_connections -7\n")), 100_000);
    assert_eq!(max_connections_of(&parse("max_connections 0\n")), 0);
    assert_eq!(max_connections_of(&parse("max_connections 12\n")), 12);
}

#[test]
fn required_certificates_need_their_files() {
    let mut c = parse("listener 1883\nlistener 8883\ncertfile c\n");
    assert!(check_listeners(&c).is_ok());
    let mut tls = c.listeners[1].tls.clone().unwrap();
    tls.require_certificate = true;
    c.listeners[1].tls = Some(tls.clone());
    match check_listeners(&c) {
        Err(MastError::Config(m)) => assert_eq!(
            m,
            "Listener on port 8883 has require_certificate=true but no cafile"
        ),
        other => panic!("{:?}", other),
    }
    tls.cafile = Some("ca".to_string());
    c.listeners[1].tls = Some(tls.clone());
    match check_listeners(&c) {
        Err(MastError::Config(m)) => assert_eq!(
            m,
            "Listener on port 8883 has require_certificate=true but missing certfile/keyfile"
        ),
        other => panic!("{:?}", other),
    }
    tls.keyfile = Some("k".to_string());
    c.listeners[1].tls = Some(tls);
    assert!(check_listeners(&c).is_ok());
}

#[test]
fn listeners_are_described() {
    let mut c = parse(
        "listener 1 127.0.0.1\nlistener 2\nkeyfile k\nlistener 3\nwebsocket true\n\
         listener 4\nkeyfile k\nwebsocket true\nlistener 5\nkeyfile k\n",
    );
    let mut tls = c.listeners[4].tls.clone().unwrap();
    tls.require_certificate = true;
    c.listeners[4].tls = Some(tls);
    let all: Vec<String> = c.listeners.iter().map(describe_listener).collect();
    assert_eq!(
        all,
        vec![
            "  listener 127.0.0.1:1 [TCP]",
            "  listener 0.0.0.0:2 [TLS]",
            "  listener 0.0.0.0:3 [WS]",
            "  listener 0.0.0.0:4 [WSS/mTLS]",
            "  listener 0.0.0.0:5 [mTLS]",
        ]
    );
}

#[test]
fn each_listener_becomes_a_server() {
    let mut c = parse(
        "max_inflight_messages 5\nmax_queued_messages 77\n\
         listener 1883 ::1\nlistener 9001\nprotocol websockets\n\
         listener 8883\ncafile ca\ncertfile ce\nkeyfile ke\nlistener 8884\ncertfile ce\n",
    );
    let s = build_rumqttd_config(&c, 9);
    assert_eq!(s.id, 0);
    assert_eq!(s.router.max_connections, 9);
    assert_eq!(s.router.max_outgoing_packet_count, 77);
    assert_eq!(s.router.max_segment_size, 104_857_600);
    assert_eq!(s.router.max_segment_count, 10);
    let v4 = s.v4.unwrap();
    let ws = s.ws.unwrap();
    let keys: Vec<&str> = v4.iter().map(|e| e.0.as_str()).collect();
    assert_eq!(keys, vec!["0", "2", "3"]);
    assert_eq!(ws.len(), 1);
    assert_eq!(ws[0].0, "1");
    assert_eq!(ws[0].1.name, "listener-1");
    assert_eq!(ws[0].1.listen, "0.0.0.0:9001");
    assert_eq!(v4[0].1.listen, "::1:1883");
    assert_eq!(v4[0].1.fallback, "0.0.0.0:1883");
    assert_eq!(address_to_use(&v4[0].1, true), "::1:1883");
    assert_eq!(address_to_use(&v4[0].1, false), "0.0.0.0:1883");
    assert_eq!(v4[0].1.next_connection_delay_ms, 1);
    assert_eq!(v4[0].1.connections.connection_timeout_ms, 5000);
    assert_eq!(v4[0].1.connections.max_payload_size, 1_048_576);
    assert_eq!(v4[0].1.connections.max_inflight_count, 5);
    assert!(v4[0].1.connections.dynamic_filters);
    assert!(v4[0].1.tls.is_none());
    let tls = v4[1].1.tls.as_ref().unwrap();
    assert_eq!((tls.certpath.as_str(), tls.keypath.as_str()), ("ce", "ke"));
    assert!(tls.capath.is_none());
    assert!(v4[2].1.tls.is_none());

    let mut tls = c.listeners[2].tls.clone().unwrap();
    tls.require_certificate = true;
    c.listeners[2].tls = Some(tls);
    let v4 = build_rumqttd_config(&c, 9).v4.unwrap();
    let tls = v4[1].1.tls.as_ref().unwrap();
    assert_eq!(tls.capath.as_deref(), Some("ca"));
}

#[test]
fn without_websockets_there_are_no_such_servers() {
    let s = build_rumqttd_config(&parse(""), 1);
    assert_eq!(s.v4.unwrap().len(), 1);
    assert!(s.ws.is_none());
    let s = build_rumqttd_config(&parse("listener 9001\nwebsocket true\n"), 1);
    assert!(s.v4.is_none());
    assert_eq!(s.ws.unwrap().len(), 1);
}

#[test]
fn when_connections_are_checked() {
    let none = PasswdStore::empty();
    let some = PasswdStore::parse("bob:h\n");
    assert!(!needs_auth_handler(true, &none));
    assert!(needs_auth_handler(false, &none));
    assert!(needs_auth_handler(true, &some));
    assert!(needs_auth_handler(false, &some));
}

#[test]
fn verdicts() {
    assert_eq!(judge(true, true, "", true), (false, "blocked"));
    assert_eq!(judge(true, true, "bob", true), (false, "blocked"));
    assert_eq!(judge(false, true, "", false), (true, "anonymous"));
    assert_eq!(judge(false, false, "", true), (false, "anon_denied"));
    assert_eq!(judge(false, false, "bob", true), (true, "ok"));
    assert_eq!(judge(false, true, "bob", false), (false, "bad_credentials"));
}

fn attempt(b: &BlockList, anonymous: bool, user: &str, password: &str) -> (bool, &'static str) {
    let passwd = PasswdStore::parse(&format!("bob:{}\n", HASH));
    let (ok, event) =
        authorize(b, &passwd, anonymous, "c1".to_string(), user.to_string(), password);
    match event {
        BrokerEvent::Connect { client_id, username, allowed, reason, ts } => {
            assert_eq!(client_id, "c1");
            assert_eq!(username, user);
            assert_eq!(allowed, ok);
            // Any clock that runs shows a time after 2020.
            assert!(ts > 1_577_836_800_000_000_000);
            (ok, reason)
        }
        other => panic!("{:?}", other),
    }
}

#[test]
fn connections_are_decided() {
    let mut b = BlockList::new();
    assert_eq!(attempt(&b, false, "bob", "U*U"), (true, "ok"));
    assert_eq!(attempt(&b, true, "bob", "x"), (false, "bad_credentials"));
    assert_eq!(attempt(&b, true, "eve", "U*U"), (false, "bad_credentials"));
    assert_eq!(attempt(&b, true, "", "U*U"), (true, "anonymous"));
    assert_eq!(attempt(&b, false, "", ""), (false, "anon_denied"));
    b.block_client("c1");
    assert_eq!(attempt(&b, true, "bob", "U*U"), (false, "blocked"));
    b.unblock_client("c1");
    assert_eq!(attempt(&b, true, "bob", "U*U"), (true, "ok"));
    b.block_username("bob");
    assert_eq!(attempt(&b, true, "bob", "U*U"), (false, "blocked"));
}

#[test]
fn connections_are_decided_at_a_time() {
    let passwd = PasswdStore::parse(&format!("bob:{}\n", HASH));
    let b = BlockList::new();
    let (ok, event) =
        authorize_at(&b, &passwd, false, "c1".to_string(), "bob".to_string(), "U*U", 77);
    assert!(ok);
    assert!(matches!(event, BrokerEvent::Connect { allowed: true, reason: "ok", ts: 77, .. }));
}

#[test]
fn the_monitor_needs_a_key() {
    let mut c = parse("");
    assert_eq!(monitor_mode(&c), MonitorMode::Disabled);
    c.inference.api_key = "k".to_string();
    assert_eq!(monitor_mode(&c), MonitorMode::Disabled);
    c.inference.enabled = true;
    assert_eq!(monitor_mode(&c), MonitorMode::Enabled);
    c.inference.api_key = String::new();
    assert_eq!(monitor_mode(&c), MonitorMode::MissingKey);
}

const CERTIFICATE: [u8; 144] = [
    0x30, 0x81, 0x8d, 0x30, 0x77, 0x02, 0x01, 0x01, 0x30, 0x0d, 0x06, 0x09,
    0x2a, 0x86, 0x48, 0x86, 0xf7, 0x0d, 0x01, 0x01, 0x0b, 0x05, 0x00, 0x30,
    0x12, 0x31, 0x10, 0x30, 0x0e, 0x06, 0x03, 0x55, 0x04, 0x03, 0x0c, 0x07,
    0x54, 0x65, 0x73, 0x74, 0x20, 0x43, 0x41, 0x30, 0x1e, 0x17, 0x0d, 0x32,
    0x34, 0x30, 0x31, 0x30, 0x31, 0x30, 0x30, 0x30, 0x30, 0x30, 0x30, 0x5a,
    0x17, 0x0d, 0x32, 0x35, 0x30, 0x31, 0x30, 0x32, 0x30, 0x33, 0x30, 0x34,
    0x30, 0x35, 0x5a, 0x30, 0x13, 0x31, 0x11, 0x30, 0x0f, 0x06, 0x03, 0x55,
    0x04, 0x03, 0x0c, 0x08, 0x64, 0x65, 0x76, 0x69, 0x63, 0x65, 0x2d, 0x37,
    0x30, 0x1a, 0x30, 0x0d, 0x06, 0x09, 0x2a, 0x86, 0x48, 0x86, 0xf7, 0x0d,
    0x01, 0x01, 0x01, 0x05, 0x00, 0x03, 0x09, 0x00, 0x30, 0x06, 0x02, 0x01,
    0x0f, 0x02, 0x01, 0x03, 0x30, 0x0d, 0x06, 0x09, 0x2a, 0x86, 0x48, 0x86,
    0xf7, 0x0d, 0x01, 0x01, 0x0b, 0x05, 0x00, 0x03, 0x03, 0x00, 0x01, 0x02,
];

#[test]
fn a_rejected_certificate_is_reported() {
    let r = report_rejection(&CERTIFICATE, 2, "UnknownIssuer".to_string());
    assert_eq!(r.message, "client cert rejected");
    assert_eq!(r.error, "UnknownIssuer");
    let (d, n) = r.details.unwrap();
    assert_eq!(n, 2);
    assert_eq!(d.subject, "CN=device-7");
    assert_eq!(d.issuer, "CN=Test CA");
    assert_eq!(d.not_before, "Jan  1 00:00:00 2024 +00:00");
    assert_eq!(d.not_after, "Jan  2 03:04:05 2025 +00:00");
    assert_eq!(d.sig_alg, "OID(1.2.840.113549.1.1.11)");
}

#[test]
fn bytes_that_are_no_certificate_are_reported() {
    let r = report_rejection(&CERTIFICATE[1..], 2, "BadEncoding".to_string());
    assert_eq!(r.message, "client cert rejected (cert parse failed)");
    assert_eq!(r.error, "BadEncoding");
    assert!(r.details.is_none());
}

#[test]
fn a_report_says_what_was_read() {
    let d = CertificateDetails {
        subject: "s".to_string(),
        issuer: "i".to_string(),
        not_before: "b".to_string(),
        not_after: "a".to_string(),
        sig_alg: "g".to_string(),
    };
    let r = report_details(Some(d), 0, "e".to_string());
    assert_eq!(r.message, "client cert rejected");
    assert_eq!(r.details.unwrap().0.issuer, "i");
    assert!(report_details(None, 3, "e".to_string()).details.is_none());
}
