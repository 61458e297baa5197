use captain_mast::config::notes::{skipped_lines, ConfigNote};
use captain_mast::config::parser::{LogDest, LogLevel, MastConfig};
use captain_mast::error::MastError;

fn parse(text: &str) -> MastConfig {
    match MastConfig::parse(text) {
        Ok(c) => c,
        Err(e) => panic!("{:?}", e),
    }
}

fn refusal(text: &str) -> (usize, String) {
    match MastConfig::parse(text) {
        Err(MastError::ConfigParse { line, message }) => (line, message),
        other => panic!("{:?}", other),
    }
}

#[test]
fn an_empty_file_gives_the_defaults() {
    for text in ["", "\n", "# nothing\n\n   \n", "color blue\n"] {
        let c = parse(text);
        assert_eq!(c.listeners.len(), 1);
        assert_eq!(c.listeners[0].port, 1883);
        assert!(c.listeners[0].bind_addr.is_none());
        assert!(c.listeners[0].tls.is_none());
        assert!(!c.listeners[0].websocket);
        assert!(c.password_file.is_none());
        assert!(c.acl_file.is_none());
        assert!(c.allow_anonymous);
        assert_eq!(c.log_level, LogLevel::Info);
        assert_eq!(c.log_dest, vec![LogDest::Stdout]);
        assert!(!c.persistence);
        assert!(c.persistence_location.is_none());
        assert_eq!(c.max_connections, -1);
        assert_eq!(c.max_inflight_messages, 20);
        assert_eq!(c.max_queued_messages, 1000);
        assert!(!c.inference.enabled);
    }
}

#[test]
fn listeners_with_their_settings() {
    let c = parse(
        "cafile lost.pem\n\
         listener 1884 127.0.0.1 rest\n\
         listener 8883\n\
         certfile /c.pem\n\
         keyfile /k.pem\n\
         cafile /ca dir/ca.pem\n\
         listener 9001\n\
         protocol websockets\n\
         listener 9002\n\
         websocket true\n\
         protocol mqtt\n",
    );
    assert_eq!(c.listeners.len(), 4);
    assert_eq!(c.listeners[0].port, 1884);
    assert_eq!(c.listeners[0].bind_addr.as_deref(), Some("127.0.0.1"));
    assert!(c.listeners[0].tls.is_none());
    let tls = c.listeners[1].tls.clone().unwrap();
    assert_eq!(tls.certfile.as_deref(), Some("/c.pem"));
    assert_eq!(tls.keyfile.as_deref(), Some("/k.pem"));
    assert_eq!(tls.cafile.as_deref(), Some("/ca dir/ca.pem"));
    assert!(!tls.require_certificate);
    assert!(c.listeners[2].websocket);
    assert!(!c.listeners[3].websocket);
}

#[test]
fn settings_for_the_whole_broker() {
    let c = parse(
        "password_file /etc/pw\n\
         acl_file\t/etc/acl \n\
         allow_anonymous false\n\
         persistence true\n\
         persistence_location /var/lib/mast\n\
         max_connections 50\n\
         max_inflight_messages +7\n\
         max_queued_messages 0\n",
    );
    assert_eq!(c.password_file.as_deref(), Some("/etc/pw"));
    assert_eq!(c.acl_file.as_deref(), Some("/etc/acl"));
    assert!(!c.allow_anonymous);
    assert!(c.persistence);
    assert_eq!(c.persistence_location.as_deref(), Some("/var/lib/mast"));
    assert_eq!(c.max_connections, 50);
    assert_eq!(c.max_inflight_messages, 7);
    assert_eq!(c.max_queued_messages, 0);
}

#[test]
fn numbers_that_cannot_be_read() {
    let c = parse(
        "max_connections many\nmax_inflight_messages -1\nmax_queued_messages 1.5\npersistence yes\n",
    );
    assert_eq!(c.max_connections, -1);
    assert_eq!(c.max_inflight_messages, 20);
    assert_eq!(c.max_queued_messages, 1000);
    assert!(!c.persistence);
}

#[test]
fn log_levels() {
    assert_eq!(parse("log_type all\n").log_level, LogLevel::Debug);
    assert_eq!(parse("log_level debug\n").log_level, LogLevel::Debug);
    assert_eq!(parse("log_level information\n").log_level, LogLevel::Info);
    assert_eq!(parse("log_level notice\n").log_level, LogLevel::Notice);
    assert_eq!(parse("log_level warning\n").log_level, LogLevel::Warn);
    assert_eq!(parse("log_type warn\n").log_level, LogLevel::Warn);
    assert_eq!(parse("log_level error\n").log_level, LogLevel::Error);
    assert_eq!(parse("log_level error\nlog_level loud\n").log_level, LogLevel::Info);
}

#[test]
fn log_destinations() {
    let c = parse("log_dest stderr\nlog_dest syslog\nlog_dest file   /var/log/mast.log\n");
    assert_eq!(
        c.log_dest,
        vec![LogDest::Stderr, LogDest::File("/var/log/mast.log".to_string())]
    );
    assert!(parse("log_dest syslog\n").log_dest.is_empty());
}

#[test]
fn the_last_setting_counts() {
    let c = parse("acl_file a\nacl_file b\nallow_anonymous false\nallow_anonymous true\n");
    assert_eq!(c.acl_file.as_deref(), Some("b"));
    assert!(c.allow_anonymous);
}

#[test]
fn remarks_do_not_matter() {
    let c = parse("# max_connections 1\n  \n\tmax_connections 2 \r\n#max_connections 3\n");
    assert_eq!(c.max_connections, 2);
}

#[test]
fn faulty_lines_are_refused() {
    assert_eq!(refusal("\nlistener\n"), (2, "Invalid port: ''".to_string()));
    assert_eq!(
        refusal("listener 65536 x\n"),
        (1, "Invalid port: '65536 x'".to_string())
    );
    assert_eq!(
        refusal("# a\nallow_anonymous TRUE\nlistener x\n"),
        (2, "Expected true/false for allow_anonymous, got 'TRUE'".to_string())
    );
}

fn notes(text: &str) -> Vec<(usize, String)> {
    skipped_lines(text)
        .into_iter()
        .map(|(line, note)| match note {
            ConfigNote::UnknownLogDest(value) => (line, format!("log_dest {}", value)),
            ConfigNote::UnknownDirective(key) => (line, format!("directive {}", key)),
        })
        .collect()
}

#[test]
fn skipped_lines_are_reported() {
    assert!(notes("# a\n\nlistener 1\nlog_dest stdout\nlog_dest file x\ncafile y\n").is_empty());
    assert_eq!(
        notes("# a\nlog_dest syslog x\nacl_file a\n  color blue\nlog_dest\n"),
        vec![
            (2, "log_dest syslog x".to_string()),
            (4, "directive color".to_string()),
            (5, "log_dest ".to_string()),
        ]
    );
}

#[test]
fn nothing_is_reported_from_a_refused_line_on() {
    assert_eq!(
        notes("color blue\nlistener x\nshape round\n"),
        vec![(1, "directive color".to_string())]
    );
}
