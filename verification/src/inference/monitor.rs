//! The threat monitor's decisions: when to ask for a classification, and whom
//! to block.
use vstd::prelude::*;
use vstd::string::*;
use vstd::utf8::*;

use super::client::{self, request_for, AnalysisResult, ZeroShotRequest};
use super::clock::{self, now};
use super::event::{self, BrokerEvent, EventView, EventWindow, Failures, WindowView};
use crate::broker::block_list::{BlockList, BlockListView};
use crate::config::parser::{InferenceConfig, InferenceView};
use crate::error::MastError;
use crate::text::{self, same_text};

verus! {

/// A name for the text that `String::from_utf8_lossy` makes of bytes.
pub uninterp spec fn lossy_text(bytes: Seq<u8>) -> Seq<char>;

/// Calls `String::from_utf8_lossy`. Bytes that are UTF-8 are decoded; others
/// are replaced where they are not, in a way that depends on the bytes alone.
#[verifier::external_body]
fn decode_lossy(bytes: &[u8]) -> (s: String)
    ensures
        s@ == lossy_text(bytes@),
        valid_utf8(bytes@) ==> s@ == decode_utf8(bytes@),
{
    String::from_utf8_lossy(bytes).into_owned()
}

/// What the monitor hears of.
#[derive(Debug)]
pub enum MonitorEvent {
    /// A connection was decided.
    Auth(BrokerEvent),
    /// There will be no more news of connections: the broker shuts down.
    AuthClosed,
    /// A message was published.
    Published { topic: String, payload_len: usize },
    /// The broker sent a notification about something else.
    OtherNotification,
    /// The broker sent no notification after all.
    NoNotification,
    /// The broker sends no more notifications.
    LinkFailed,
    /// The time for a periodic analysis has come.
    Tick,
}

/// What a `MonitorEvent` holds.
#[verifier::ext_equal]
pub enum NewsView {
    Auth(EventView),
    AuthClosed,
    Published { topic: Seq<char>, payload_len: nat },
    OtherNotification,
    NoNotification,
    LinkFailed,
    Tick,
}

impl View for MonitorEvent {
    type V = NewsView;

    open spec fn view(&self) -> NewsView {
        match self {
            MonitorEvent::Auth(e) => NewsView::Auth(e@),
            MonitorEvent::AuthClosed => NewsView::AuthClosed,
            MonitorEvent::Published { topic, payload_len } => NewsView::Published {
                topic: topic@,
                payload_len: *payload_len as nat,
            },
            MonitorEvent::OtherNotification => NewsView::OtherNotification,
            MonitorEvent::NoNotification => NewsView::NoNotification,
            MonitorEvent::LinkFailed => NewsView::LinkFailed,
            MonitorEvent::Tick => NewsView::Tick,
        }
    }
}

/// What to do after an event.
#[derive(Debug, Clone, Copy, PartialEq, Eq, Structural)]
pub struct MonitorAction {
    /// The monitor is done.
    pub stop: bool,
    /// Wait for no more notifications from the broker.
    pub unlink: bool,
    /// Tell the broker that the next notifications can come.
    pub ready: bool,
    /// Ask for a classification.
    pub analyze: bool,
}

/// The threat monitor.
pub struct Monitor {
    window: EventWindow,
    endpoint: String,
    api_key: String,
    analysis_interval_secs: u64,
    threshold_bits: u32,
}

/// What a `Monitor` holds. The events that it asks about are those of the last
/// interval.
#[verifier::ext_equal]
pub struct MonitorView {
    pub window: WindowView,
    pub endpoint: Seq<char>,
    pub api_key: Seq<char>,
    pub analysis_interval_secs: u64,
    pub threshold_bits: u32,
}

impl View for Monitor {
    type V = MonitorView;

    closed spec fn view(&self) -> MonitorView {
        MonitorView {
            window: self.window@,
            endpoint: self.endpoint@,
            api_key: self.api_key@,
            analysis_interval_secs: self.analysis_interval_secs,
            threshold_bits: self.threshold_bits,
        }
    }
}

impl Monitor {
    #[verifier::type_invariant]
    spec fn inv(self) -> bool {
        self.window@.max_size > 0
    }
}

/// The monitor before the first event.
pub open spec fn new_monitor(c: InferenceView) -> MonitorView {
    MonitorView {
        window: WindowView { events: Seq::empty(), max_size: 2000 },
        endpoint: match c.endpoint {
            Some(e) => e,
            None => "https://api-inference.huggingface.co/models/"@ + c.model,
        },
        api_key: c.api_key,
        analysis_interval_secs: c.analysis_interval_secs,
        threshold_bits: c.threat_threshold_bits,
    }
}

/// The event is a rejected connection.
pub open spec fn is_rejection(e: EventView) -> bool {
    e matches EventView::Connect { allowed, .. } && !allowed
}

/// The window shows a burst of failures: five or more in the last minute.
pub open spec fn is_burst(w: WindowView, time: int) -> bool {
    event::count(w.events, event::rejected(clock::cutoff_at(time, 60))) >= 5
}

/// The window of recent events after some news at the given time.
pub open spec fn window_after(w: WindowView, news: NewsView, time: int) -> WindowView {
    match news {
        NewsView::Auth(e) => event::pushed(w, e),
        NewsView::Published { topic, payload_len } => event::pushed(
            w,
            event::published(topic, payload_len, time),
        ),
        _ => w,
    }
}

/// What to do after some news at the given time. Only the end of the news of
/// connections stops the monitor; without the broker's notifications it goes on
/// with those. A failure in a burst of failures, and a tick if there are
/// events, lead to an analysis.
pub open spec fn action_after(w: WindowView, news: NewsView, time: int) -> MonitorAction {
    MonitorAction {
        stop: news is AuthClosed,
        unlink: news is LinkFailed,
        ready: news is Published || news is OtherNotification,
        analyze: match news {
            NewsView::Auth(e) => is_rejection(e) && is_burst(window_after(w, news, time), time),
            NewsView::Tick => w.events.len() > 0,
            _ => false,
        },
    }
}

/// The usernames of those with three or more failures.
pub open spec fn offending_usernames(fails: Seq<Failures>) -> Set<Seq<char>> {
    Set::new(
        |name: Seq<char>|
            name.len() > 0 && exists|i: int|
                0 <= i < fails.len() && (#[trigger] fails[i]).2 >= 3 && fails[i].1 == name,
    )
}

/// The clients with three or more failures.
pub open spec fn offending_clients(fails: Seq<Failures>) -> Set<Seq<char>> {
    Set::new(
        |name: Seq<char>|
            exists|i: int|
                0 <= i < fails.len() && (#[trigger] fails[i]).2 >= 3 && fails[i].0 == name,
    )
}

/// The deny-list after the offenders were blocked.
pub open spec fn enforced(b: BlockListView, fails: Seq<Failures>) -> BlockListView {
    BlockListView {
        usernames: b.usernames.union(offending_usernames(fails)),
        client_ids: b.client_ids.union(offending_clients(fails)),
    }
}

/// Those with three or more failures.
pub open spec fn offenders(fails: Seq<Failures>) -> Seq<Failures> {
    fails.filter(|f: Failures| f.2 >= 3)
}

/// Blocks the clients responsible for repeated failures. Returns them, with
/// their usernames and their numbers of failures.
pub fn enforce_on(fails: &Vec<(String, String, usize)>, block_list: &mut BlockList) -> (blocked: Vec<
    (String, String, usize),
>)
    ensures
        final(block_list)@ == enforced(old(block_list)@, event::failures_view(fails@)),
        event::failures_view(blocked@) == offenders(event::failures_view(fails@)),
{
    let ghost f = event::failures_view(fails@);
    let ghost before = block_list@;
    let mut blocked: Vec<(String, String, usize)> = Vec::new();
    let mut i: usize = 0;
    proof {
        reveal(Seq::filter);
        assert(block_list@ =~= enforced(before, f.take(0)));
        assert(event::failures_view(blocked@) =~= offenders(f.take(0)));
    }
    while i < fails.len()
        invariant
            i <= fails.len(),
            f == event::failures_view(fails@),
            block_list@ == enforced(before, f.take(i as int)),
            event::failures_view(blocked@) == offenders(f.take(i as int)),
        decreases fails.len() - i,
    {
        let ghost done = f.take(i as int);
        let ghost next = f.take(i + 1);
        let ghost one = f[i as int];
        let ghost listed = event::failures_view(blocked@);
        assert(next =~= done.push(one));
        if fails[i].2 >= 3 {
            if !fails[i].1.as_str().is_empty() {
                block_list.block_username(fails[i].1.as_str());
            }
            block_list.block_client(fails[i].0.as_str());
            blocked.push((fails[i].0.clone(), fails[i].1.clone(), fails[i].2));
            assert(event::failures_view(blocked@) =~= listed.push(one));
        }
        proof {
            lemma_one_more_offender(done, one);
            assert(block_list@ =~= enforced(before, next));
        }
        i += 1;
    }
    assert(f.take(i as int) =~= f);
    blocked
}

proof fn lemma_one_more_offender(s: Seq<Failures>, f: Failures)
    ensures
        offenders(s.push(f)) == (if f.2 >= 3 {
            offenders(s).push(f)
        } else {
            offenders(s)
        }),
        offending_clients(s.push(f)) == (if f.2 >= 3 {
            offending_clients(s).insert(f.0)
        } else {
            offending_clients(s)
        }),
        offending_usernames(s.push(f)) == (if f.2 >= 3 && f.1.len() > 0 {
            offending_usernames(s).insert(f.1)
        } else {
            offending_usernames(s)
        }),
{
    let t = s.push(f);
    let n = s.len() as int;
    reveal(Seq::filter);
    assert(t.drop_last() =~= s);
    assert(t[n] == f);
    assert forall|i: int| 0 <= i < n implies t[i] == s[i] by {}
    let clients = if f.2 >= 3 {
        offending_clients(s).insert(f.0)
    } else {
        offending_clients(s)
    };
    assert forall|x: Seq<char>| offending_clients(t).contains(x) == clients.contains(x) by {
        if offending_clients(s).contains(x) {
            let i = choose|i: int| 0 <= i < s.len() && (#[trigger] s[i]).2 >= 3 && s[i].0 == x;
            assert(t[i].2 >= 3 && t[i].0 == x);
        }
        if offending_clients(t).contains(x) {
            let i = choose|i: int| 0 <= i < t.len() && (#[trigger] t[i]).2 >= 3 && t[i].0 == x;
            if i < n {
                assert(s[i].2 >= 3 && s[i].0 == x);
            }
        }
    }
    assert(offending_clients(t) =~= clients);
    let usernames = if f.2 >= 3 && f.1.len() > 0 {
        offending_usernames(s).insert(f.1)
    } else {
        offending_usernames(s)
    };
    assert forall|x: Seq<char>| offending_usernames(t).contains(x) == usernames.contains(x) by {
        if offending_usernames(s).contains(x) {
            let i = choose|i: int| 0 <= i < s.len() && (#[trigger] s[i]).2 >= 3 && s[i].1 == x;
            assert(t[i].2 >= 3 && t[i].1 == x);
        }
        if offending_usernames(t).contains(x) {
            let i = choose|i: int| 0 <= i < t.len() && (#[trigger] t[i]).2 >= 3 && t[i].1 == x;
            if i < n {
                assert(s[i].2 >= 3 && s[i].1 == x);
            }
        }
    }
    assert(offending_usernames(t) =~= usernames);
}

/// A label and a score tell of a threat: the activity is not normal, and the
/// score reaches the threshold.
pub open spec fn is_threat(label: Seq<char>, confident: bool) -> bool {
    label != "normal activity"@ && confident
}

/// What an analysis led to.
#[derive(Debug)]
pub enum Conclusion {
    /// There was no classification; nothing was done.
    Failed,
    /// Nothing is wrong; nothing was done.
    Normal,
    /// There is a threat, and these offenders were blocked.
    Blocked(Vec<(String, String, usize)>),
    /// There is a threat, but no specific offender.
    NoOffender,
}

/// What a `Conclusion` holds.
#[verifier::ext_equal]
pub enum ConclusionView {
    Failed,
    Normal,
    Blocked(Seq<Failures>),
    NoOffender,
}

impl View for Conclusion {
    type V = ConclusionView;

    open spec fn view(&self) -> ConclusionView {
        match self {
            Conclusion::Failed => ConclusionView::Failed,
            Conclusion::Normal => ConclusionView::Normal,
            Conclusion::Blocked(offenders) => ConclusionView::Blocked(
                event::failures_view(offenders@),
            ),
            Conclusion::NoOffender => ConclusionView::NoOffender,
        }
    }
}

/// What an analysis leads to, given the failures in the window.
pub open spec fn conclusion(
    result: Result<AnalysisResult, MastError>,
    confident: bool,
    fails: Seq<Failures>,
) -> ConclusionView {
    match result {
        Ok(r) => if is_threat(r@.label, confident) {
            if offenders(fails).len() > 0 {
                ConclusionView::Blocked(offenders(fails))
            } else {
                ConclusionView::NoOffender
            }
        } else {
            ConclusionView::Normal
        },
        Err(_) => ConclusionView::Failed,
    }
}

/// The deny-list after an analysis, given the failures in the window.
pub open spec fn list_after(
    b: BlockListView,
    result: Result<AnalysisResult, MastError>,
    confident: bool,
    fails: Seq<Failures>,
) -> BlockListView {
    match result {
        Ok(r) if is_threat(r@.label, confident) => enforced(b, fails),
        _ => b,
    }
}

/// At the given time an analysis leads from one deny-list to another, and to a
/// conclusion: the failures are those of the interval before.
pub open spec fn concludes(
    m: MonitorView,
    result: Result<AnalysisResult, MastError>,
    confident: bool,
    time: int,
    before: BlockListView,
    after: BlockListView,
    c: ConclusionView,
) -> bool {
    exists|fails: Seq<Failures>|
        {
            &&& #[trigger] event::is_fail_summary(
                fails,
                m.window.events,
                clock::cutoff_at(time, m.analysis_interval_secs as nat),
            )
            &&& c == conclusion(result, confident, fails)
            &&& after == list_after(before, result, confident, fails)
        }
}

/// Acts on the outcome of a classification. `confident` tells whether its score
/// reaches the threshold.
pub fn conclude_on(
    result: &Result<AnalysisResult, MastError>,
    confident: bool,
    fails: &Vec<(String, String, usize)>,
    block_list: &mut BlockList,
) -> (c: Conclusion)
    ensures
        c@ == conclusion(*result, confident, event::failures_view(fails@)),
        final(block_list)@ == list_after(
            old(block_list)@,
            *result,
            confident,
            event::failures_view(fails@),
        ),
{
    match result {
        Ok(r) => {
            if !same_text(r.label.as_str(), "normal activity") && confident {
                let blocked = enforce_on(fails, block_list);
                if blocked.len() > 0 {
                    Conclusion::Blocked(blocked)
                } else {
                    Conclusion::NoOffender
                }
            } else {
                Conclusion::Normal
            }
        },
        Err(_) => Conclusion::Failed,
    }
}

impl MonitorEvent {
    /// A message that the broker forwarded, with its topic as bytes.
    pub fn forwarded(topic: &[u8], payload_len: usize) -> (e: MonitorEvent)
        ensures
            e@ == (NewsView::Published {
                topic: lossy_text(topic@),
                payload_len: payload_len as nat,
            }),
            valid_utf8(topic@) ==> e@ == (NewsView::Published {
                topic: decode_utf8(topic@),
                payload_len: payload_len as nat,
            }),
    {
        MonitorEvent::Published { topic: decode_lossy(topic), payload_len }
    }
}

impl Monitor {
    /// A monitor that has seen nothing yet.
    pub fn new(cfg: &InferenceConfig) -> (m: Monitor)
        ensures
            m@ == new_monitor(cfg@),
    {
        let endpoint = match &cfg.endpoint {
            Some(e) => e.clone(),
            None => "https://api-inference.huggingface.co/models/".to_string().concat(
                cfg.model.as_str(),
            ),
        };
        Monitor {
            window: EventWindow::new(2000),
            endpoint,
            api_key: cfg.api_key.clone(),
            analysis_interval_secs: cfg.analysis_interval_secs,
            threshold_bits: cfg.threat_threshold_bits,
        }
    }

    /// Where requests are sent.
    pub fn endpoint(&self) -> (s: &str)
        ensures
            s@ == self@.endpoint,
    {
        self.endpoint.as_str()
    }

    /// The key that requests carry.
    pub fn api_key(&self) -> (s: &str)
        ensures
            s@ == self@.api_key,
    {
        self.api_key.as_str()
    }

    /// The seconds between two periodic analyses, which is also how far back
    /// they look.
    pub fn analysis_interval_secs(&self) -> (n: u64)
        ensures
            n == self@.analysis_interval_secs,
    {
        self.analysis_interval_secs
    }

    /// The bits of the threshold for a threat.
    pub fn threshold_bits(&self) -> (n: u32)
        ensures
            n == self@.threshold_bits,
    {
        self.threshold_bits
    }

    fn note(&mut self, event: BrokerEvent)
        ensures
            final(self)@ == (MonitorView {
                window: event::pushed(old(self)@.window, event@),
                ..old(self)@
            }),
    {
        proof {
            use_type_invariant(&*self);
        }
        let mut window = EventWindow::new(2000);
        std::mem::swap(&mut window, &mut self.window);
        window.push(event);
        self.window = window;
    }

    /// Takes note of some news at the given time, and tells what to do.
    pub fn handle_at(&mut self, news: MonitorEvent, time: i128) -> (a: MonitorAction)
        ensures
            a == action_after(old(self)@.window, news@, time as int),
            final(self)@ == (MonitorView {
                window: window_after(old(self)@.window, news@, time as int),
                ..old(self)@
            }),
    {
        proof {
            use_type_invariant(&*self);
        }
        match news {
            MonitorEvent::Auth(e) => {
                let rejection = matches!(&e, BrokerEvent::Connect { allowed: false, .. });
                self.note(e);
                let analyze = rejection && self.window.auth_fail_count_at(60, time) >= 5;
                MonitorAction { stop: false, unlink: false, ready: false, analyze }
            },
            MonitorEvent::AuthClosed => MonitorAction {
                stop: true,
                unlink: false,
                ready: false,
                analyze: false,
            },
            MonitorEvent::Published { topic, payload_len } => {
                self.note(BrokerEvent::publish_at(topic, payload_len, time));
                MonitorAction { stop: false, unlink: false, ready: true, analyze: false }
            },
            MonitorEvent::OtherNotification => MonitorAction {
                stop: false,
                unlink: false,
                ready: true,
                analyze: false,
            },
            MonitorEvent::NoNotification => MonitorAction {
                stop: false,
                unlink: false,
                ready: false,
                analyze: false,
            },
            MonitorEvent::LinkFailed => MonitorAction {
                stop: false,
                unlink: true,
                ready: false,
                analyze: false,
            },
            MonitorEvent::Tick => MonitorAction {
                stop: false,
                unlink: false,
                ready: false,
                analyze: !self.window.is_empty(),
            },
        }
    }

    /// Takes note of some news, and tells what to do.
    pub fn handle(&mut self, news: MonitorEvent) -> (a: MonitorAction)
        ensures
            exists|time: int|
                {
                    &&& a == action_after(old(self)@.window, news@, time)
                    &&& final(self)@ == (MonitorView {
                        window: #[trigger] window_after(old(self)@.window, news@, time),
                        ..old(self)@
                    })
                },
    {
        let time = now();
        self.handle_at(news, time)
    }

    /// The request about what happened in the interval before `time`.
    pub fn request_at(&self, time: i128) -> (r: ZeroShotRequest)
        ensures
            event::is_prompt(
                r.inputs@,
                self@.window.events,
                self@.analysis_interval_secs as nat,
                time as int,
            ),
            text::string_texts(r.candidate_labels@) == client::labels(),
            !r.multi_label,
    {
        request_for(self.window.to_prompt_at(self.analysis_interval_secs, time))
    }

    /// The request about what happened in the last interval.
    pub fn request(&self) -> (r: ZeroShotRequest)
        ensures
            exists|time: int| #[trigger]
                event::is_prompt(
                    r.inputs@,
                    self@.window.events,
                    self@.analysis_interval_secs as nat,
                    time,
                ),
            text::string_texts(r.candidate_labels@) == client::labels(),
            !r.multi_label,
    {
        let time = now();
        self.request_at(time)
    }

    /// Acts at the given time on the outcome of a classification. `confident`
    /// tells whether its score reaches the threshold.
    pub fn conclude_at(
        &self,
        result: &Result<AnalysisResult, MastError>,
        confident: bool,
        time: i128,
        block_list: &mut BlockList,
    ) -> (c: Conclusion)
        ensures
            concludes(
                self@,
                *result,
                confident,
                time as int,
                old(block_list)@,
                final(block_list)@,
                c@,
            ),
    {
        let fails = self.window.fail_summary_at(self.analysis_interval_secs, time);
        let c = conclude_on(result, confident, &fails, block_list);
        assert(event::is_fail_summary(
            event::failures_view(fails@),
            self@.window.events,
            clock::cutoff_at(time as int, self@.analysis_interval_secs as nat),
        ));
        c
    }

    /// Acts on the outcome of a classification. `confident` tells whether its
    /// score reaches the threshold.
    pub fn conclude(
        &self,
        result: &Result<AnalysisResult, MastError>,
        confident: bool,
        block_list: &mut BlockList,
    ) -> (c: Conclusion)
        ensures
            exists|time: int| #[trigger]
                concludes(
                    self@,
                    *result,
                    confident,
                    time,
                    old(block_list)@,
                    final(block_list)@,
                    c@,
                ),
    {
        let time = now();
        self.conclude_at(result, confident, time, block_list)
    }
}

} // verus!
