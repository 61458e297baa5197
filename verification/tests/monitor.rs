use captain_mast::broker::block_list::BlockList;
use captain_mast::config::parser::InferenceConfig;
use captain_mast::error::MastError;
use captain_mast::inference::client::{interpret, request_for, AnalysisResult, HfReply};
use captain_mast::inference::clock::{cutoff, cutoff_before, instant_of, now};
use captain_mast::inference::monitor::{
    conclude_on, enforce_on, Conclusion, Monitor, MonitorAction, MonitorEvent,
};
use captain_mast::inference::{BrokerEvent, EventWindow};

const SECOND: i128 = 1_000_000_000;

fn failure(client: &str, user: &str, ts: i128) -> BrokerEvent {
    BrokerEvent::connect_at(client.to_string(), user.to_string(), false, "bad_credentials", ts)
}

fn success(client: &str, user: &str, ts: i128) -> BrokerEvent {
    BrokerEvent::connect_at(client.to_string(), user.to_string(), true, "ok", ts)
}

fn message(topic: &str, ts: i128) -> BrokerEvent {
    BrokerEvent::publish_at(topic.to_string(), 3, ts)
}

#[test]
fn points_in_time() {
    assert_eq!(instant_of(true, 2, 5), 2_000_000_005);
    assert_eq!(instant_of(false, 2, 5), -2_000_000_005);
    assert_eq!(cutoff_before(100 * SECOND, 60), 40 * SECOND);
    assert_eq!(cutoff_before(0, 60), -60 * SECOND);
    assert_eq!(cutoff_before(-9_000_000_000_000_000_000 * SECOND, u64::MAX), 0);
    let before = now();
    let since = cutoff(60);
    let after = now();
    assert!(before > 1_577_836_800 * SECOND);
    assert!(before - 60 * SECOND <= since && since <= after - 60 * SECOND);
}

#[test]
fn events_know_their_time() {
    assert_eq!(failure("c", "u", 7).ts(), 7);
    assert_eq!(message("t", 8).ts(), 8);
    let before = now();
    let e = BrokerEvent::publish("t".to_string(), 1);
    let f = BrokerEvent::connect("c".to_string(), "u".to_string(), true, "ok");
    let after = now();
    assert!(before <= e.ts() && e.ts() <= f.ts() && f.ts() <= after);
}

#[test]
fn failures_are_counted() {
    let mut w = EventWindow::new(100);
    assert!(w.is_empty());
    assert_eq!(w.auth_fails_since(0), 0);
    w.push(failure("c", "u", 10));
    w.push(success("c", "u", 11));
    w.push(failure("c", "", 12));
    w.push(message("t", 13));
    assert!(!w.is_empty());
    assert_eq!(w.auth_fails_since(10), 2);
    assert_eq!(w.auth_fails_since(11), 1);
    assert_eq!(w.auth_fails_since(13), 0);
    assert_eq!(w.auth_fail_count(60), 0);
    w.push(BrokerEvent::connect("c".to_string(), "u".to_string(), false, "blocked"));
    assert_eq!(w.auth_fail_count(60), 1);
}

#[test]
fn a_window_holds_the_latest_events() {
    let mut w = EventWindow::new(2);
    w.push(failure("a", "u", 1));
    w.push(failure("b", "u", 2));
    w.push(failure("c", "u", 3));
    assert_eq!(w.auth_fails_since(0), 2);
    let mut s = w.fail_summary_since(0);
    s.sort();
    assert_eq!(
        s,
        vec![
            ("b".to_string(), "u".to_string(), 1),
            ("c".to_string(), "u".to_string(), 1)
        ]
    );
}

#[test]
fn failures_are_summed_up() {
    let mut w = EventWindow::new(100);
    w.push(failure("c", "u", 1));
    w.push(failure("c", "u", 2));
    w.push(failure("c", "v", 2));
    w.push(failure("d", "u", 2));
    w.push(success("d", "u", 2));
    w.push(failure("c", "u", 3));
    let mut s = w.fail_summary_since(2);
    s.sort();
    assert_eq!(
        s,
        vec![
            ("c".to_string(), "u".to_string(), 2),
            ("c".to_string(), "v".to_string(), 1),
            ("d".to_string(), "u".to_string(), 1)
        ]
    );
    assert_eq!(w.auth_fails_since(2), s.iter().map(|f| f.2).sum::<usize>());
    assert!(w.fail_summary(60).is_empty());
    w.push(BrokerEvent::connect("c".to_string(), "u".to_string(), false, "blocked"));
    assert_eq!(w.fail_summary(60), vec![("c".to_string(), "u".to_string(), 1)]);
}

#[test]
fn the_most_used_topics() {
    let mut w = EventWindow::new(1000);
    for i in 0..12 {
        for _ in 0..(i + 1) {
            w.push(message(&format!("t{}", i), 5));
        }
    }
    w.push(message("old", 4));
    let top = w.topic_summary_since(5);
    let expected: Vec<(String, usize)> =
        (2..12).rev().map(|i| (format!("t{}", i), i + 1)).collect();
    assert_eq!(top, expected);
    assert!(w.topic_summary(60).is_empty());
    w.push(BrokerEvent::publish("new".to_string(), 0));
    assert_eq!(w.topic_summary(60), vec![("new".to_string(), 1)]);
}

#[test]
fn the_prompt() {
    let mut w = EventWindow::new(100);
    assert_eq!(
        w.to_prompt(30),
        "MQTT broker activity (last 30s): 0 connection attempts (0 accepted, 0 rejected), \
         0 unique client IDs."
    );
    w.push(success("c", "u", 1));
    w.push(failure("c", "v", 2));
    w.push(failure("d", "", 2));
    w.push(success("d", "w", 2));
    w.push(failure("d", "", 3));
    w.push(message("a/b", 3));
    w.push(message("a/b", 3));
    w.push(message("x", 3));
    let topics = w.topic_summary_since(2);
    let fails = vec![
        ("d".to_string(), "".to_string(), 2),
        ("c".to_string(), "v".to_string(), 1),
    ];
    assert_eq!(
        w.prompt_since(300, 2, &fails, &topics),
        "MQTT broker activity (last 300s): 4 connection attempts (1 accepted, 3 rejected), \
         2 unique client IDs. Authentication failures:   client='d' user='' failed 2 times.   \
         client='c' user='v' failed 1 times. Active topics: a/b(2x), x(1x)."
    );
}

fn config() -> InferenceConfig {
    InferenceConfig {
        enabled: true,
        api_key: "key".to_string(),
        model: "org/model".to_string(),
        endpoint: None,
        analysis_interval_secs: 30,
        threat_threshold_bits: 0.75f32.to_bits(),
    }
}

#[test]
fn a_new_monitor() {
    let m = Monitor::new(&config());
    assert_eq!(m.endpoint(), "https://api-inference.huggingface.co/models/org/model");
    assert_eq!(m.api_key(), "key");
    assert_eq!(m.analysis_interval_secs(), 30);
    assert_eq!(f32::from_bits(m.threshold_bits()), 0.75);
    let mut c = config();
    c.endpoint = Some("http://localhost".to_string());
    assert_eq!(Monitor::new(&c).endpoint(), "http://localhost");
}

const NOTHING: MonitorAction =
    MonitorAction { stop: false, unlink: false, ready: false, analyze: false };
const STOP: MonitorAction = MonitorAction { stop: true, ..NOTHING };
const UNLINK: MonitorAction = MonitorAction { unlink: true, ..NOTHING };
const READY: MonitorAction = MonitorAction { ready: true, ..NOTHING };
const ANALYZE: MonitorAction = MonitorAction { analyze: true, ..NOTHING };

#[test]
fn a_burst_of_failures_is_analyzed() {
    let mut m = Monitor::new(&config());
    let t = 1000 * SECOND;
    let old = t - 61 * SECOND;
    assert_eq!(m.handle_at(MonitorEvent::Auth(failure("c", "u", old)), old), NOTHING);
    for _ in 0..4 {
        let a = m.handle_at(MonitorEvent::Auth(failure("c", "u", t)), t);
        assert_eq!(a, NOTHING);
    }
    let a = m.handle_at(MonitorEvent::Auth(failure("d", "u", t)), t);
    assert_eq!(a, ANALYZE);
    let a = m.handle_at(MonitorEvent::Auth(success("d", "u", t)), t);
    assert_eq!(a, NOTHING);
}

#[test]
fn ticks_are_analyzed_once_there_is_something() {
    let mut m = Monitor::new(&config());
    assert_eq!(m.handle_at(MonitorEvent::Tick, 5), NOTHING);
    let e = MonitorEvent::forwarded(b"a/b", 3);
    assert_eq!(m.handle_at(e, 5), READY);
    assert_eq!(m.handle_at(MonitorEvent::Tick, 6), ANALYZE);
}

#[test]
fn other_news() {
    let mut m = Monitor::new(&config());
    assert_eq!(m.handle(MonitorEvent::OtherNotification), READY);
    assert_eq!(m.handle(MonitorEvent::NoNotification), NOTHING);
    assert_eq!(m.handle(MonitorEvent::LinkFailed), UNLINK);
    assert_eq!(m.handle(MonitorEvent::Tick), NOTHING);
    assert_eq!(m.handle(MonitorEvent::AuthClosed), STOP);
}

#[test]
fn connections_are_watched_without_the_link() {
    let mut m = Monitor::new(&config());
    assert_eq!(m.handle_at(MonitorEvent::LinkFailed, 1), UNLINK);
    for _ in 0..4 {
        assert_eq!(m.handle_at(MonitorEvent::Auth(failure("c", "u", 2)), 2), NOTHING);
    }
    assert_eq!(m.handle_at(MonitorEvent::Auth(failure("c", "u", 2)), 2), ANALYZE);
    assert_eq!(m.handle_at(MonitorEvent::Tick, 3), ANALYZE);
}

#[test]
fn topics_are_decoded() {
    let decoded = |bytes: &[u8]| match MonitorEvent::forwarded(bytes, 9) {
        MonitorEvent::Published { topic, payload_len } => {
            assert_eq!(payload_len, 9);
            topic
        }
        other => panic!("{:?}", other),
    };
    assert_eq!(decoded("a/é".as_bytes()), "a/é");
    assert_eq!(decoded(b"a/\xff/b"), "a/\u{fffd}/b");
}

#[test]
fn the_request_tells_what_happened() {
    let mut m = Monitor::new(&config());
    m.handle(MonitorEvent::forwarded(b"a/b", 3));
    let r = m.request();
    assert_eq!(
        r.inputs,
        "MQTT broker activity (last 30s): 0 connection attempts (0 accepted, 0 rejected), \
         0 unique client IDs. Active topics: a/b(1x)."
    );
    assert!(!r.multi_label);
    assert_eq!(
        r.candidate_labels,
        vec![
            "normal activity",
            "brute force attack",
            "unauthorized device",
            "credential stuffing",
            "anomalous traffic",
        ]
    );
    assert_eq!(request_for("p".to_string()).inputs, "p");
}

fn refusal(reply: HfReply) -> String {
    match interpret(reply) {
        Err(MastError::Inference(m)) => m,
        other => panic!("{:?}", other),
    }
}

#[test]
fn replies_that_say_nothing() {
    assert_eq!(refusal(HfReply::NotSent("down".to_string())), "HF request failed: down");
    assert_eq!(
        refusal(HfReply::Refused("503 Service Unavailable".to_string())),
        "HF API returned 503 Service Unavailable"
    );
    assert_eq!(
        refusal(HfReply::Unreadable("eof".to_string())),
        "HF response parse error: eof"
    );
}

fn classified(labels: &[&str], scores: &[f32]) -> AnalysisResult {
    let reply = HfReply::Classified {
        labels: labels.iter().map(|l| l.to_string()).collect(),
        scores: scores.iter().map(|s| s.to_bits()).collect(),
    };
    match interpret(reply) {
        Ok(a) => a,
        Err(e) => panic!("{:?}", e),
    }
}

#[test]
fn replies_with_labels() {
    let a = classified(&["x", "y", "z"], &[0.5, 0.25]);
    assert_eq!(a.label, "x");
    assert_eq!(f32::from_bits(a.score_bits), 0.5);
    assert_eq!(
        a.all,
        vec![("x".to_string(), 0.5f32.to_bits()), ("y".to_string(), 0.25f32.to_bits())]
    );
    let a = classified(&["x", "y", "z"], &[0.1, 0.9, 0.9]);
    assert_eq!(a.label, "y");
    assert_eq!(f32::from_bits(a.score_bits), 0.9);
    assert_eq!(a.all.len(), 3);
    assert_eq!(a.all[0], ("x".to_string(), 0.1f32.to_bits()));
    let a = classified(&["x"], &[0.1, 0.9]);
    assert_eq!(a.label, "x");
    assert_eq!(f32::from_bits(a.score_bits), 0.1);
    assert_eq!(a.all, vec![("x".to_string(), 0.1f32.to_bits())]);
    let a = classified(&[], &[0.5]);
    assert_eq!(a.label, "");
    assert_eq!(f32::from_bits(a.score_bits), 0.5);
    assert!(a.all.is_empty());
    let a = classified(&["x"], &[]);
    assert_eq!(a.label, "x");
    assert_eq!(a.score_bits, 0.0f32.to_bits());
}

#[test]
fn scores_are_ordered_as_numbers() {
    assert_eq!(classified(&["x", "y"], &[0.9, -0.1]).label, "x");
    assert_eq!(classified(&["x", "y"], &[-0.2, -0.1]).label, "y");
    assert_eq!(classified(&["x", "y"], &[-0.1, 0.0]).label, "y");
    assert_eq!(classified(&["x", "y"], &[-0.0, 0.0]).label, "x");
    assert_eq!(classified(&["x", "y"], &[0.0, -0.0]).label, "x");
    assert_eq!(classified(&["x", "y"], &[-0.0, 0.001]).label, "y");
}

fn fails() -> Vec<(String, String, usize)> {
    vec![
        ("c1".to_string(), "bob".to_string(), 2),
        ("c2".to_string(), "eve".to_string(), 3),
        ("c3".to_string(), "".to_string(), 7),
    ]
}

#[test]
fn offenders_are_blocked() {
    let mut b = BlockList::new();
    b.block_client("c0");
    assert_eq!(enforce_on(&fails(), &mut b), fails()[1..].to_vec());
    assert!(b.is_blocked("", "c0"));
    assert!(!b.is_blocked("bob", "c1"));
    assert!(b.is_blocked("", "c2"));
    assert!(b.is_blocked("eve", "c9"));
    assert!(b.is_blocked("", "c3"));
    assert_eq!(b.blocked_usernames(), vec!["eve"]);
    assert!(enforce_on(&fails()[..1].to_vec(), &mut b).is_empty());
    assert!(enforce_on(&Vec::new(), &mut b).is_empty());
    assert!(!b.is_blocked("bob", "c1"));
}

#[test]
fn only_threats_are_acted_on() {
    let mut b = BlockList::new();
    let normal = Ok(classified(&["normal activity"], &[0.9]));
    let threat = Ok(classified(&["brute force attack"], &[0.9]));
    let failed = Err(MastError::Inference("down".to_string()));
    assert!(matches!(conclude_on(&normal, true, &fails(), &mut b), Conclusion::Normal));
    assert!(matches!(conclude_on(&threat, false, &fails(), &mut b), Conclusion::Normal));
    assert!(matches!(conclude_on(&failed, true, &fails(), &mut b), Conclusion::Failed));
    assert!(b.blocked_clients().is_empty());
    let none = Vec::new();
    assert!(matches!(conclude_on(&threat, true, &none, &mut b), Conclusion::NoOffender));
    match conclude_on(&threat, true, &fails(), &mut b) {
        Conclusion::Blocked(who) => assert_eq!(who, fails()[1..].to_vec()),
        other => panic!("{:?}", other),
    }
    assert_eq!(b.blocked_clients().len(), 2);
}

#[test]
fn the_monitor_looks_back_one_interval() {
    let mut m = Monitor::new(&config());
    let t = 1000 * SECOND;
    for _ in 0..3 {
        m.handle_at(MonitorEvent::Auth(failure("c", "u", t)), t);
    }
    let threat = Ok(classified(&["brute force attack"], &[0.9]));
    let mut b = BlockList::new();
    let late = t + 30 * SECOND + 1;
    assert!(matches!(m.conclude_at(&threat, true, late, &mut b), Conclusion::NoOffender));
    assert!(b.blocked_clients().is_empty());
    assert!(m.request_at(late).inputs.contains(" 0 connection attempts "));
    let in_time = t + 30 * SECOND;
    assert!(m.request_at(in_time).inputs.contains(" 3 connection attempts "));
    match m.conclude_at(&threat, true, in_time, &mut b) {
        Conclusion::Blocked(who) => {
            assert_eq!(who, vec![("c".to_string(), "u".to_string(), 3)])
        }
        other => panic!("{:?}", other),
    }
    assert!(b.is_blocked("", "c"));
}

#[test]
fn a_window_looks_back_from_a_time() {
    let mut w = EventWindow::new(10);
    w.push(failure("c", "u", 10 * SECOND));
    w.push(message("a", 20 * SECOND));
    assert_eq!(w.auth_fail_count_at(10, 20 * SECOND), 1);
    assert_eq!(w.auth_fail_count_at(9, 20 * SECOND), 0);
    assert_eq!(w.fail_summary_at(10, 20 * SECOND), vec![("c".to_string(), "u".to_string(), 1)]);
    assert!(w.fail_summary_at(9, 20 * SECOND).is_empty());
    assert_eq!(w.topic_summary_at(10, 30 * SECOND), vec![("a".to_string(), 1)]);
    assert!(w.topic_summary_at(9, 30 * SECOND).is_empty());
    assert_eq!(
        w.to_prompt_at(9, 20 * SECOND),
        "MQTT broker activity (last 9s): 0 connection attempts (0 accepted, 0 rejected), \
         0 unique client IDs. Active topics: a(1x)."
    );
    assert_eq!(
        w.to_prompt_at(10, 20 * SECOND),
        "MQTT broker activity (last 10s): 1 connection attempts (0 accepted, 1 rejected), \
         1 unique client IDs. Authentication failures:   client='c' user='u' failed 1 times. \
         Active topics: a(1x)."
    );
}

#[test]
fn the_monitor_blocks_recent_offenders() {
    let mut m = Monitor::new(&config());
    let mut b = BlockList::new();
    let threat = Ok(classified(&["credential stuffing"], &[0.9]));
    for _ in 0..3 {
        let e = BrokerEvent::connect("c".to_string(), "u".to_string(), false, "bad_credentials");
        m.handle(MonitorEvent::Auth(e));
        m.handle(MonitorEvent::Auth(failure("old", "o", 0)));
    }
    assert!(matches!(m.conclude(&threat, true, &mut b), Conclusion::Blocked(_)));
    assert!(b.is_blocked("u", "c"));
    assert!(!b.is_blocked("o", "old"));
}
