//! What happens at the broker, and the window of recent events.
use vstd::prelude::*;
use vstd::string::*;

use super::clock::{self, cutoff_before, now};
use super::event_laws;
use crate::assoc::{self, find_name};
use crate::names::add_name;
use crate::number::{self, decimal_string};
use crate::text::{self, joined, same_text};

verus! {

/// An event emitted by the broker. Its time is in nanoseconds since the start
/// of 1970.
#[derive(Debug, Clone)]
pub enum BrokerEvent {
    /// A connection was accepted or rejected.
    Connect {
        client_id: String,
        username: String,
        allowed: bool,
        reason: &'static str,
        ts: i128,
    },
    /// A message was published to a topic.
    Publish { topic: String, payload_len: usize, ts: i128 },
}

/// What a `BrokerEvent` holds.
#[verifier::ext_equal]
pub enum EventView {
    Connect {
        client_id: Seq<char>,
        username: Seq<char>,
        allowed: bool,
        reason: Seq<char>,
        ts: int,
    },
    Publish { topic: Seq<char>, payload_len: nat, ts: int },
}

impl View for BrokerEvent {
    type V = EventView;

    open spec fn view(&self) -> EventView {
        match self {
            BrokerEvent::Connect { client_id, username, allowed, reason, ts } => EventView::Connect {
                client_id: client_id@,
                username: username@,
                allowed: *allowed,
                reason: reason@,
                ts: *ts as int,
            },
            BrokerEvent::Publish { topic, payload_len, ts } => EventView::Publish {
                topic: topic@,
                payload_len: *payload_len as nat,
                ts: *ts as int,
            },
        }
    }
}

impl EventView {
    /// When the event happened.
    pub open spec fn when(self) -> int {
        match self {
            EventView::Connect { ts, .. } => ts,
            EventView::Publish { ts, .. } => ts,
        }
    }
}

impl BrokerEvent {
    /// A connection that was decided at the given time.
    pub fn connect_at(
        client_id: String,
        username: String,
        allowed: bool,
        reason: &'static str,
        ts: i128,
    ) -> (e: BrokerEvent)
        ensures
            e@ == (EventView::Connect {
                client_id: client_id@,
                username: username@,
                allowed,
                reason: reason@,
                ts: ts as int,
            }),
    {
        BrokerEvent::Connect { client_id, username, allowed, reason, ts }
    }

    /// A connection that was decided just now.
    pub fn connect(client_id: String, username: String, allowed: bool, reason: &'static str) -> (e:
        BrokerEvent)
        ensures
            exists|ts: int|
                e@ == #[trigger] connected(client_id@, username@, allowed, reason@, ts),
    {
        let ts = now();
        let e = BrokerEvent::connect_at(client_id, username, allowed, reason, ts);
        assert(e@ == connected(client_id@, username@, allowed, reason@, ts as int));
        e
    }

    /// A message that was published at the given time.
    pub fn publish_at(topic: String, payload_len: usize, ts: i128) -> (e: BrokerEvent)
        ensures
            e@ == (EventView::Publish {
                topic: topic@,
                payload_len: payload_len as nat,
                ts: ts as int,
            }),
    {
        BrokerEvent::Publish { topic, payload_len, ts }
    }

    /// A message that was published just now.
    pub fn publish(topic: String, payload_len: usize) -> (e: BrokerEvent)
        ensures
            exists|ts: int| e@ == #[trigger] published(topic@, payload_len as nat, ts),
    {
        let ts = now();
        let e = BrokerEvent::publish_at(topic, payload_len, ts);
        assert(e@ == published(topic@, payload_len as nat, ts as int));
        e
    }

    /// When the event happened.
    pub fn ts(&self) -> (t: i128)
        ensures
            t == self@.when(),
    {
        match self {
            BrokerEvent::Connect { ts, .. } => *ts,
            BrokerEvent::Publish { ts, .. } => *ts,
        }
    }
}

/// A connection that was decided at `ts`.
pub open spec fn connected(
    client_id: Seq<char>,
    username: Seq<char>,
    allowed: bool,
    reason: Seq<char>,
    ts: int,
) -> EventView {
    EventView::Connect { client_id, username, allowed, reason, ts }
}

/// A message that was published at `ts`.
pub open spec fn published(topic: Seq<char>, payload_len: nat, ts: int) -> EventView {
    EventView::Publish { topic, payload_len, ts }
}

/// How many of the events have a property.
pub open spec fn count(events: Seq<EventView>, p: spec_fn(EventView) -> bool) -> nat
    decreases events.len(),
{
    if events.len() == 0 {
        0
    } else {
        count(events.drop_last(), p) + (if p(events.last()) {
            1nat
        } else {
            0nat
        })
    }
}

/// Being a connection, decided at `cutoff` or later.
pub open spec fn connecting(cutoff: int) -> spec_fn(EventView) -> bool {
    |e: EventView| e is Connect && e.when() >= cutoff
}

/// Being an accepted connection, decided at `cutoff` or later.
pub open spec fn accepted(cutoff: int) -> spec_fn(EventView) -> bool {
    |e: EventView|
        e matches EventView::Connect { allowed, ts, .. } && allowed && ts >= cutoff
}

/// Being a rejected connection, decided at `cutoff` or later.
pub open spec fn rejected(cutoff: int) -> spec_fn(EventView) -> bool {
    |e: EventView|
        e matches EventView::Connect { allowed, ts, .. } && !allowed && ts >= cutoff
}

/// Being a rejected connection of the client under the username.
pub open spec fn rejected_as(
    cutoff: int,
    client: Seq<char>,
    user: Seq<char>,
) -> spec_fn(EventView) -> bool {
    |e: EventView|
        e matches EventView::Connect { client_id, username, allowed, ts, .. } && !allowed && ts
            >= cutoff && client_id == client && username == user
}

/// Being a message to the topic, published at `cutoff` or later.
pub open spec fn publishing(cutoff: int, to: Seq<char>) -> spec_fn(EventView) -> bool {
    |e: EventView| e matches EventView::Publish { topic, ts, .. } && ts >= cutoff && topic == to
}

/// The clients that tried to connect at `cutoff` or later.
pub open spec fn clients(events: Seq<EventView>, cutoff: int) -> Set<Seq<char>>
    decreases events.len(),
{
    if events.len() == 0 {
        Set::empty()
    } else {
        let before = clients(events.drop_last(), cutoff);
        match events.last() {
            EventView::Connect { client_id, ts, .. } if ts >= cutoff => before.insert(client_id),
            _ => before,
        }
    }
}

/// A client, a username, and a number of rejections.
pub type Failures = (Seq<char>, Seq<char>, nat);

/// The list names each client and username of a recent rejection once, with
/// the number of these rejections. It is in no particular order.
pub open spec fn is_fail_summary(s: Seq<Failures>, events: Seq<EventView>, cutoff: int) -> bool {
    &&& forall|i: int, j: int|
        0 <= i < j < s.len() ==> (#[trigger] s[i]).0 != (#[trigger] s[j]).0 || s[i].1 != s[j].1
    &&& forall|i: int|
        0 <= i < s.len() ==> (#[trigger] s[i]).2 > 0 && s[i].2 == count(
            events,
            rejected_as(cutoff, s[i].0, s[i].1),
        )
    &&& forall|client: Seq<char>, user: Seq<char>|
        #![trigger rejected_as(cutoff, client, user)]
        count(events, rejected_as(cutoff, client, user)) > 0 ==> lists(s, client, user)
}

/// The list has an entry for the client and the username.
pub open spec fn lists(s: Seq<Failures>, client: Seq<char>, user: Seq<char>) -> bool {
    exists|i: int| 0 <= i < s.len() && (#[trigger] s[i]).0 == client && s[i].1 == user
}

/// The list has the topics with the most recent messages, at most ten of them,
/// each once, with the number of its messages, those with more messages first.
/// Topics with equally many messages are in no particular order.
pub open spec fn is_topic_summary(
    s: Seq<(Seq<char>, nat)>,
    events: Seq<EventView>,
    cutoff: int,
) -> bool {
    &&& s.len() <= 10
    &&& assoc::distinct(s)
    &&& forall|i: int|
        0 <= i < s.len() ==> (#[trigger] s[i]).1 > 0 && s[i].1 == count(
            events,
            publishing(cutoff, s[i].0),
        )
    &&& forall|i: int, j: int| 0 <= i < j < s.len() ==> (#[trigger] s[i]).1 >= (#[trigger] s[j]).1
    &&& forall|topic: Seq<char>|
        #![trigger publishing(cutoff, topic)]
        count(events, publishing(cutoff, topic)) > 0 && !assoc::has_name(s, topic) ==> s.len() == 10
            && forall|i: int|
            0 <= i < s.len() ==> (#[trigger] s[i]).1 >= count(events, publishing(cutoff, topic))
}

/// What a window of events holds.
#[verifier::ext_equal]
pub struct WindowView {
    pub events: Seq<EventView>,
    pub max_size: nat,
}

/// Bounded rolling window of recent broker events.
pub struct EventWindow {
    events: Vec<BrokerEvent>,
    max_size: usize,
}

/// What a list of events holds.
pub open spec fn events_view(events: Seq<BrokerEvent>) -> Seq<EventView> {
    Seq::new(events.len(), |i: int| events[i]@)
}

impl View for EventWindow {
    type V = WindowView;

    closed spec fn view(&self) -> WindowView {
        WindowView { events: events_view(self.events@), max_size: self.max_size as nat }
    }
}

/// The window after an event: the oldest event gives way if it is full.
pub open spec fn pushed(w: WindowView, e: EventView) -> WindowView {
    WindowView {
        events: (if w.events.len() >= w.max_size {
            w.events.drop_first()
        } else {
            w.events
        }).push(e),
        max_size: w.max_size,
    }
}

/// What a list of failures holds.
pub open spec fn failures_view(v: Seq<(String, String, usize)>) -> Seq<Failures> {
    Seq::new(v.len(), |i: int| (v[i].0@, v[i].1@, v[i].2 as nat))
}

/// What a list of topics holds.
pub open spec fn topics_view(v: Seq<(String, usize)>) -> Seq<(Seq<char>, nat)> {
    Seq::new(v.len(), |i: int| (v[i].0@, v[i].1 as nat))
}

proof fn lemma_count_step(events: Seq<EventView>, i: int, p: spec_fn(EventView) -> bool)
    requires
        0 <= i < events.len(),
    ensures
        count(events.take(i + 1), p) == count(events.take(i), p) + (if p(events[i]) {
            1nat
        } else {
            0nat
        }),
{
    assert(events.take(i + 1).drop_last() =~= events.take(i));
    assert(events.take(i + 1).last() == events[i]);
}

/// No more events have a property than there are.
pub proof fn lemma_count_bound(events: Seq<EventView>, p: spec_fn(EventView) -> bool)
    ensures
        count(events, p) <= events.len(),
    decreases events.len(),
{
    if events.len() > 0 {
        lemma_count_bound(events.drop_last(), p);
    }
}

impl EventWindow {
    #[verifier::type_invariant]
    spec fn inv(self) -> bool {
        self.events.len() <= self.max_size
    }

    /// An empty window for at most `max_size` events.
    pub fn new(max_size: usize) -> (w: EventWindow)
        ensures
            w@ == (WindowView { events: Seq::empty(), max_size: max_size as nat }),
    {
        let w = EventWindow { events: Vec::new(), max_size };
        assert(w@.events =~= Seq::empty());
        w
    }

    /// Adds an event. A full window drops its oldest event.
    pub fn push(&mut self, event: BrokerEvent)
        requires
            old(self)@.max_size > 0,
        ensures
            final(self)@ == pushed(old(self)@, event@),
            final(self)@.events.len() <= final(self)@.max_size,
    {
        proof {
            use_type_invariant(&*self);
        }
        let ghost before = self@.events;
        let mut events: Vec<BrokerEvent> = Vec::new();
        std::mem::swap(&mut events, &mut self.events);
        if events.len() >= self.max_size {
            let _ = events.remove(0);
            assert(events_view(events@) =~= before.drop_first());
        }
        let ghost kept = events_view(events@);
        events.push(event);
        assert(events_view(events@) =~= kept.push(event@));
        self.events = events;
    }

    /// Tells whether there are no events.
    pub fn is_empty(&self) -> (b: bool)
        ensures
            b == (self@.events.len() == 0),
    {
        self.events.len() == 0
    }

    /// Number of auth failures since `cutoff`.
    pub fn auth_fails_since(&self, cutoff: i128) -> (n: usize)
        ensures
            n == count(self@.events, rejected(cutoff as int)),
    {
        let ghost p = rejected(cutoff as int);
        let mut n: usize = 0;
        let mut i: usize = 0;
        assert(self@.events.take(0) =~= Seq::empty());
        while i < self.events.len()
            invariant
                i <= self.events.len(),
                self@.events.len() == self.events.len(),
                p == rejected(cutoff as int),
                n <= i,
                n == count(self@.events.take(i as int), p),
            decreases self.events.len() - i,
        {
            proof {
                lemma_count_step(self@.events, i as int, p);
                assert(self@.events[i as int] == self.events@[i as int]@);
            }
            match &self.events[i] {
                BrokerEvent::Connect { allowed, ts, .. } => {
                    if !*allowed && *ts >= cutoff {
                        n += 1;
                    }
                },
                BrokerEvent::Publish { .. } => {},
            }
            i += 1;
        }
        assert(self@.events.take(i as int) =~= self@.events);
        n
    }

    /// Number of auth failures in the `window_secs` seconds before `time`.
    pub fn auth_fail_count_at(&self, window_secs: u64, time: i128) -> (n: usize)
        ensures
            n == count(
                self@.events,
                rejected(clock::cutoff_at(time as int, window_secs as nat)),
            ),
    {
        self.auth_fails_since(cutoff_before(time, window_secs))
    }

    /// Number of auth failures in the last `window_secs` seconds.
    pub fn auth_fail_count(&self, window_secs: u64) -> (n: usize)
        ensures
            exists|time: int|
                n == count(
                    self@.events,
                    rejected(#[trigger] clock::cutoff_at(time, window_secs as nat)),
                ),
    {
        let time = now();
        self.auth_fail_count_at(window_secs, time)
    }
}

fn find_failures(v: &Vec<(String, String, usize)>, client: &str, user: &str) -> (r: Option<usize>)
    ensures
        match r {
            Some(i) => i < v.len() && v@[i as int].0@ == client@ && v@[i as int].1@ == user@,
            None => !lists(failures_view(v@), client@, user@),
        },
{
    let mut i: usize = 0;
    while i < v.len()
        invariant
            i <= v.len(),
            forall|k: int|
                0 <= k < i ==> (#[trigger] failures_view(v@)[k]).0 != client@ || failures_view(
                    v@,
                )[k].1 != user@,
        decreases v.len() - i,
    {
        if same_text(v[i].0.as_str(), client) && same_text(v[i].1.as_str(), user) {
            return Some(i);
        }
        i += 1;
    }
    None
}

proof fn lemma_other_failures(
    before: Seq<EventView>,
    after: Seq<EventView>,
    cutoff: int,
    s: Seq<Failures>,
    t: Seq<Failures>,
    at: int,
    client: Seq<char>,
    user: Seq<char>,
)
    requires
        is_fail_summary(s, before, cutoff),
        forall|c: Seq<char>, u: Seq<char>|
            #![trigger rejected_as(cutoff, c, u)]
            count(after, rejected_as(cutoff, c, u)) == count(before, rejected_as(cutoff, c, u)) + (
            if c == client && u == user {
                1nat
            } else {
                0nat
            }),
        0 <= at <= s.len(),
        at < s.len() ==> s[at].0 == client && s[at].1 == user && t == s.update(
            at,
            (client, user, s[at].2 + 1),
        ),
        at == s.len() ==> !lists(s, client, user) && t == s.push((client, user, 1nat)),
    ensures
        is_fail_summary(t, after, cutoff),
{
    assert forall|i: int, j: int| 0 <= i < j < t.len() implies (#[trigger] t[i]).0
        != (#[trigger] t[j]).0 || t[i].1 != t[j].1 by {
        if j == s.len() {
            assert(s[i].0 != client || s[i].1 != user);
        } else {
            assert(s[i].0 != s[j].0 || s[i].1 != s[j].1);
            assert(t[i].0 == s[i].0 && t[j].0 == s[j].0);
        }
    }
    assert(at == s.len() ==> count(before, rejected_as(cutoff, client, user)) == 0);
    assert forall|i: int| 0 <= i < t.len() implies (#[trigger] t[i]).2 > 0 && t[i].2 == count(
        after,
        rejected_as(cutoff, t[i].0, t[i].1),
    ) by {
        if i < s.len() {
            assert(s[i].2 == count(before, rejected_as(cutoff, s[i].0, s[i].1)));
            if i != at && s[i].0 == client && s[i].1 == user {
                if at < s.len() {
                    if i < at {
                        assert(s[i].0 != s[at].0 || s[i].1 != s[at].1);
                    } else {
                        assert(s[at].0 != s[i].0 || s[at].1 != s[i].1);
                    }
                }
                assert(false);
            }
        }
    }
    assert forall|c: Seq<char>, u: Seq<char>|
        #![trigger rejected_as(cutoff, c, u)]
        count(after, rejected_as(cutoff, c, u)) > 0 implies lists(t, c, u) by {
        if c == client && u == user {
            assert(t[at].0 == c && t[at].1 == u);
        } else {
            assert(lists(s, c, u));
            let i = choose|i: int| 0 <= i < s.len() && (#[trigger] s[i]).0 == c && s[i].1 == u;
            assert(t[i].0 == c && t[i].1 == u);
        }
    }
}

fn find_topic(v: &Vec<(String, usize)>, topic: &str) -> (r: Option<usize>)
    ensures
        match r {
            Some(i) => i < v.len() && v@[i as int].0@ == topic@,
            None => !assoc::has_name(topics_view(v@), topic@),
        },
{
    let r = find_name(v, topic);
    assert(forall|i: int| 0 <= i < v.len() ==> topics_view(v@)[i].0 == (#[trigger] v@[i]).0@);
    r
}

/// The list has every topic with recent messages once, with their number.
spec fn is_tally(s: Seq<(Seq<char>, nat)>, events: Seq<EventView>, cutoff: int) -> bool {
    &&& assoc::distinct(s)
    &&& forall|i: int|
        0 <= i < s.len() ==> (#[trigger] s[i]).1 > 0 && s[i].1 == count(
            events,
            publishing(cutoff, s[i].0),
        )
    &&& forall|topic: Seq<char>|
        #![trigger publishing(cutoff, topic)]
        count(events, publishing(cutoff, topic)) > 0 ==> assoc::has_name(s, topic)
}

proof fn lemma_other_topics(
    before: Seq<EventView>,
    after: Seq<EventView>,
    cutoff: int,
    s: Seq<(Seq<char>, nat)>,
    t: Seq<(Seq<char>, nat)>,
    at: int,
    topic: Seq<char>,
)
    requires
        is_tally(s, before, cutoff),
        forall|x: Seq<char>|
            #![trigger publishing(cutoff, x)]
            count(after, publishing(cutoff, x)) == count(before, publishing(cutoff, x)) + (if x
                == topic {
                1nat
            } else {
                0nat
            }),
        0 <= at <= s.len(),
        at < s.len() ==> s[at].0 == topic && t == s.update(at, (topic, s[at].1 + 1)),
        at == s.len() ==> !assoc::has_name(s, topic) && t == s.push((topic, 1nat)),
    ensures
        is_tally(t, after, cutoff),
{
    if at < s.len() {
        assoc::lemma_update(s, at, s[at].1 + 1);
    } else {
        assoc::lemma_push(s, topic, 1nat);
    }
    assert(at == s.len() ==> count(before, publishing(cutoff, topic)) == 0);
    assert forall|i: int| 0 <= i < t.len() implies (#[trigger] t[i]).1 > 0 && t[i].1 == count(
        after,
        publishing(cutoff, t[i].0),
    ) by {
        if i < s.len() {
            assert(s[i].1 == count(before, publishing(cutoff, s[i].0)));
            if i != at && s[i].0 == topic {
                assert(t[i].0 == t[at].0);
                assert(false);
            }
        }
    }
    assert forall|x: Seq<char>|
        #![trigger publishing(cutoff, x)]
        count(after, publishing(cutoff, x)) > 0 implies assoc::has_name(t, x) by {
        if x == topic {
            assert(t[at].0 == x);
        } else {
            assert(assoc::has_name(s, x));
            let i = assoc::place_of(s, x);
            assert(t[i].0 == x);
        }
    }
}

/// Where a topic with the most messages stands.
fn busiest(v: &Vec<(String, usize)>) -> (m: usize)
    requires
        v.len() > 0,
    ensures
        m < v.len(),
        forall|k: int| 0 <= k < v.len() ==> (#[trigger] v@[k]).1 <= v@[m as int].1,
{
    let mut m: usize = 0;
    let mut i: usize = 1;
    while i < v.len()
        invariant
            m < i <= v.len(),
            forall|k: int| 0 <= k < i ==> (#[trigger] v@[k]).1 <= v@[m as int].1,
        decreases v.len() - i,
    {
        if v[i].1 > v[m].1 {
            m = i;
        }
        i += 1;
    }
    m
}

/// The ten topics with the most messages, those with more messages first.
fn top_ten(all: Vec<(String, usize)>, Ghost(events): Ghost<Seq<EventView>>, Ghost(cutoff): Ghost<int>) -> (top:
    Vec<(String, usize)>)
    requires
        is_tally(topics_view(all@), events, cutoff),
    ensures
        is_topic_summary(topics_view(top@), events, cutoff),
{
    let mut rest = all;
    let mut top: Vec<(String, usize)> = Vec::new();
    while top.len() < 10 && rest.len() > 0
        invariant
            top.len() <= 10,
            is_tally(topics_view(top@) + topics_view(rest@), events, cutoff),
            forall|i: int, j: int|
                0 <= i < j < top.len() ==> (#[trigger] top@[i]).1 >= (#[trigger] top@[j]).1,
            forall|i: int, j: int|
                0 <= i < top.len() && 0 <= j < rest.len() ==> (#[trigger] top@[i]).1 >= (
                #[trigger] rest@[j]).1,
        decreases rest.len(),
    {
        let ghost a = topics_view(top@);
        let ghost b = topics_view(rest@);
        let ghost u = a + b;
        let m = busiest(&rest);
        let best = rest.remove(m);
        top.push(best);
        let ghost k = m as int;
        proof {
            let x = b[k];
            let a2 = topics_view(top@);
            let b2 = topics_view(rest@);
            assert(a2 =~= a.push(x));
            assert(b2 =~= b.remove(k));
            let w = a2 + b2;
            let n = a.len() as int;
            assert forall|i: int| 0 <= i < w.len() implies w[i] == u[came_from(n, k, i)] && 0
                <= came_from(n, k, i) < u.len() by {}
            assert forall|i: int, j: int| 0 <= i < j < w.len() implies w[i].0 != w[j].0 by {
                let i2 = came_from(n, k, i);
                let j2 = came_from(n, k, j);
                assert(w[i] == u[i2] && w[j] == u[j2]);
                if i2 < j2 {
                    assert(u[i2].0 != u[j2].0);
                } else {
                    assert(u[j2].0 != u[i2].0);
                }
            }
            assert forall|i: int| 0 <= i < w.len() implies (#[trigger] w[i]).1 > 0 && w[i].1
                == count(events, publishing(cutoff, w[i].0)) by {
                assert(w[i] == u[came_from(n, k, i)]);
            }
            assert forall|topic: Seq<char>|
                #![trigger publishing(cutoff, topic)]
                count(events, publishing(cutoff, topic)) > 0 implies assoc::has_name(w, topic) by {
                assert(assoc::has_name(u, topic));
                let p = assoc::place_of(u, topic);
                let q = if p < n {
                    p
                } else if p == n + k {
                    n
                } else if p < n + k {
                    p + 1
                } else {
                    p
                };
                assert(w[q] == u[p]);
            }
        }
    }
    let ghost a = topics_view(top@);
    let ghost b = topics_view(rest@);
    let ghost u = a + b;
    proof {
        assert forall|i: int, j: int| 0 <= i < j < a.len() implies a[i].0 != a[j].0 by {
            assert(u[i] == a[i] && u[j] == a[j]);
        }
        assert forall|i: int| 0 <= i < a.len() implies (#[trigger] a[i]).1 > 0 && a[i].1 == count(
            events,
            publishing(cutoff, a[i].0),
        ) by {
            assert(u[i] == a[i]);
        }
        assert forall|topic: Seq<char>|
            #![trigger publishing(cutoff, topic)]
            count(events, publishing(cutoff, topic)) > 0 && !assoc::has_name(
                a,
                topic,
            ) implies a.len() == 10 && forall|i: int|
            0 <= i < a.len() ==> (#[trigger] a[i]).1 >= count(
                events,
                publishing(cutoff, topic),
            ) by {
            assert(assoc::has_name(u, topic));
            let p = assoc::place_of(u, topic);
            if p < a.len() {
                assert(a[p].0 == topic);
            }
            let q = p - a.len();
            assert(u[p] == b[q]);
            assert forall|i: int| 0 <= i < a.len() implies (#[trigger] a[i]).1 >= count(
                events,
                publishing(cutoff, topic),
            ) by {
                assert(top@[i].1 >= rest@[q].1);
            }
        }
    }
    top
}

/// The place from which the entry at `i` came when the entry at `n + k` was
/// moved forward to `n`.
spec fn came_from(n: int, k: int, i: int) -> int {
    if i < n {
        i
    } else if i == n {
        n + k
    } else if i <= n + k {
        i - 1
    } else {
        i
    }
}

impl EventWindow {
    /// Per (client_id, username) failure counts since `cutoff`.
    pub fn fail_summary_since(&self, cutoff: i128) -> (v: Vec<(String, String, usize)>)
        ensures
            is_fail_summary(failures_view(v@), self@.events, cutoff as int),
    {
        let ghost c = cutoff as int;
        let ghost events = self@.events;
        let mut v: Vec<(String, String, usize)> = Vec::new();
        let mut i: usize = 0;
        assert(events.take(0) =~= Seq::empty());
        while i < self.events.len()
            invariant
                i <= self.events.len(),
                c == cutoff as int,
                events == self@.events,
                events.len() == self.events.len(),
                is_fail_summary(failures_view(v@), events.take(i as int), c),
            decreases self.events.len() - i,
        {
            let ghost before = events.take(i as int);
            let ghost after = events.take(i + 1);
            let ghost s = failures_view(v@);
            proof {
                assert(events[i as int] == self.events@[i as int]@);
                assert forall|client: Seq<char>, user: Seq<char>|
                    #![trigger rejected_as(c, client, user)]
                    count(after, rejected_as(c, client, user)) == count(
                        before,
                        rejected_as(c, client, user),
                    ) + (if rejected_as(c, client, user)(events[i as int]) {
                        1nat
                    } else {
                        0nat
                    }) by {
                    lemma_count_step(events, i as int, rejected_as(c, client, user));
                }
            }
            match &self.events[i] {
                BrokerEvent::Connect { client_id, username, allowed, ts, .. } => {
                    if !*allowed && *ts >= cutoff {
                        match find_failures(&v, client_id.as_str(), username.as_str()) {
                            Some(at) => {
                                proof {
                                    assert(s[at as int].2 == count(
                                        before,
                                        rejected_as(c, s[at as int].0, s[at as int].1),
                                    ));
                                    lemma_count_bound(
                                        before,
                                        rejected_as(c, s[at as int].0, s[at as int].1),
                                    );
                                }
                                let (client, user, n) = v.remove(at);
                                v.insert(at, (client, user, n + 1));
                                proof {
                                    let t = failures_view(v@);
                                    assert(t =~= s.update(
                                        at as int,
                                        (client_id@, username@, s[at as int].2 + 1),
                                    ));
                                    lemma_other_failures(
                                        before,
                                        after,
                                        c,
                                        s,
                                        t,
                                        at as int,
                                        client_id@,
                                        username@,
                                    );
                                }
                            },
                            None => {
                                v.push((client_id.clone(), username.clone(), 1));
                                proof {
                                    let t = failures_view(v@);
                                    assert(t =~= s.push((client_id@, username@, 1nat)));
                                    lemma_other_failures(
                                        before,
                                        after,
                                        c,
                                        s,
                                        t,
                                        s.len() as int,
                                        client_id@,
                                        username@,
                                    );
                                }
                            },
                        }
                    }
                },
                BrokerEvent::Publish { .. } => {},
            }
            i += 1;
        }
        assert(events.take(i as int) =~= events);
        v
    }

    /// Failure counts of each client and username in the `window_secs` seconds
    /// before `time`.
    pub fn fail_summary_at(&self, window_secs: u64, time: i128) -> (v: Vec<
        (String, String, usize),
    >)
        ensures
            is_fail_summary(
                failures_view(v@),
                self@.events,
                clock::cutoff_at(time as int, window_secs as nat),
            ),
    {
        self.fail_summary_since(cutoff_before(time, window_secs))
    }

    /// Per (client_id, username) failure counts within the window.
    pub fn fail_summary(&self, window_secs: u64) -> (v: Vec<(String, String, usize)>)
        ensures
            exists|time: int|
                is_fail_summary(
                    failures_view(v@),
                    self@.events,
                    #[trigger] clock::cutoff_at(time, window_secs as nat),
                ),
    {
        let time = now();
        self.fail_summary_at(window_secs, time)
    }

    /// Top 10 topics by publish count since `cutoff`.
    pub fn topic_summary_since(&self, cutoff: i128) -> (v: Vec<(String, usize)>)
        ensures
            is_topic_summary(topics_view(v@), self@.events, cutoff as int),
    {
        let ghost c = cutoff as int;
        let ghost events = self@.events;
        let mut v: Vec<(String, usize)> = Vec::new();
        let mut i: usize = 0;
        assert(events.take(0) =~= Seq::empty());
        while i < self.events.len()
            invariant
                i <= self.events.len(),
                c == cutoff as int,
                events == self@.events,
                events.len() == self.events.len(),
                is_tally(topics_view(v@), events.take(i as int), c),
            decreases self.events.len() - i,
        {
            let ghost before = events.take(i as int);
            let ghost after = events.take(i + 1);
            let ghost s = topics_view(v@);
            proof {
                assert(events[i as int] == self.events@[i as int]@);
                assert forall|x: Seq<char>|
                    #![trigger publishing(c, x)]
                    count(after, publishing(c, x)) == count(before, publishing(c, x)) + (
                    if publishing(c, x)(events[i as int]) {
                        1nat
                    } else {
                        0nat
                    }) by {
                    lemma_count_step(events, i as int, publishing(c, x));
                }
            }
            match &self.events[i] {
                BrokerEvent::Connect { .. } => {},
                BrokerEvent::Publish { topic, ts, .. } => {
                    if *ts >= cutoff {
                        match find_topic(&v, topic.as_str()) {
                            Some(at) => {
                                proof {
                                    assert(s[at as int].1 == count(
                                        before,
                                        publishing(c, s[at as int].0),
                                    ));
                                    lemma_count_bound(before, publishing(c, s[at as int].0));
                                }
                                let (name, n) = v.remove(at);
                                v.insert(at, (name, n + 1));
                                proof {
                                    let t = topics_view(v@);
                                    assert(t =~= s.update(at as int, (topic@, s[at as int].1 + 1)));
                                    lemma_other_topics(before, after, c, s, t, at as int, topic@);
                                }
                            },
                            None => {
                                v.push((topic.clone(), 1));
                                proof {
                                    let t = topics_view(v@);
                                    assert(t =~= s.push((topic@, 1nat)));
                                    lemma_other_topics(
                                        before,
                                        after,
                                        c,
                                        s,
                                        t,
                                        s.len() as int,
                                        topic@,
                                    );
                                }
                            },
                        }
                    }
                },
            }
            i += 1;
        }
        assert(events.take(i as int) =~= events);
        top_ten(v, Ghost(events), Ghost(c))
    }

    /// Top 10 topics by publish count in the `window_secs` seconds before
    /// `time`.
    pub fn topic_summary_at(&self, window_secs: u64, time: i128) -> (v: Vec<(String, usize)>)
        ensures
            is_topic_summary(
                topics_view(v@),
                self@.events,
                clock::cutoff_at(time as int, window_secs as nat),
            ),
    {
        self.topic_summary_since(cutoff_before(time, window_secs))
    }

    /// Top 10 topics by publish count within the window.
    pub fn topic_summary(&self, window_secs: u64) -> (v: Vec<(String, usize)>)
        ensures
            exists|time: int|
                is_topic_summary(
                    topics_view(v@),
                    self@.events,
                    #[trigger] clock::cutoff_at(time, window_secs as nat),
                ),
    {
        let time = now();
        self.topic_summary_at(window_secs, time)
    }
}

/// The first sentence of a prompt.
pub open spec fn activity_text(
    window_secs: nat,
    attempts: nat,
    ok: nat,
    failed: nat,
    unique_clients: nat,
) -> Seq<char> {
    "MQTT broker activity (last "@ + number::decimal(window_secs) + "s): "@ + number::decimal(
        attempts,
    ) + " connection attempts ("@ + number::decimal(ok) + " accepted, "@ + number::decimal(failed)
        + " rejected), "@ + number::decimal(unique_clients) + " unique client IDs."@
}

/// What a prompt says of the failures of one client.
pub open spec fn failure_text(f: Failures) -> Seq<char> {
    "  client='"@ + f.0 + "' user='"@ + f.1 + "' failed "@ + number::decimal(f.2) + " times."@
}

/// What a prompt says of one topic.
pub open spec fn topic_text(t: (Seq<char>, nat)) -> Seq<char> {
    t.0 + "("@ + number::decimal(t.1) + "x)"@
}

/// What a prompt says of the failures.
pub open spec fn failure_parts(fails: Seq<Failures>) -> Seq<Seq<char>> {
    if fails.len() == 0 {
        Seq::empty()
    } else {
        seq!["Authentication failures:"@] + Seq::new(
            fails.len(),
            |i: int| failure_text(fails[i]),
        )
    }
}

/// What a prompt says of the topics.
pub open spec fn topic_parts(topics: Seq<(Seq<char>, nat)>) -> Seq<Seq<char>> {
    if topics.len() == 0 {
        Seq::empty()
    } else {
        seq![
            "Active topics: "@ + text::join(
                Seq::new(topics.len(), |i: int| topic_text(topics[i])),
                ", "@,
            ) + "."@,
        ]
    }
}

/// The prompt about the events since `cutoff`, with summaries of the failures
/// and of the topics.
pub open spec fn prompt(
    events: Seq<EventView>,
    window_secs: nat,
    cutoff: int,
    fails: Seq<Failures>,
    topics: Seq<(Seq<char>, nat)>,
) -> Seq<char> {
    let attempts = count(events, connecting(cutoff));
    let ok = count(events, accepted(cutoff));
    let head = activity_text(
        window_secs,
        attempts,
        ok,
        (attempts - ok) as nat,
        clients(events, cutoff).len(),
    );
    text::join(seq![head] + failure_parts(fails) + topic_parts(topics), " "@)
}

/// The text is a prompt about the `window_secs` seconds before `time`.
pub open spec fn is_prompt(
    s: Seq<char>,
    events: Seq<EventView>,
    window_secs: nat,
    time: int,
) -> bool {
    let cutoff = clock::cutoff_at(time, window_secs);
    exists|fails: Seq<Failures>, topics: Seq<(Seq<char>, nat)>|
        {
            &&& #[trigger] is_fail_summary(fails, events, cutoff)
            &&& #[trigger] is_topic_summary(topics, events, cutoff)
            &&& s == prompt(events, window_secs, cutoff, fails, topics)
        }
}

fn activity_string(
    window_secs: u64,
    attempts: usize,
    ok: usize,
    failed: usize,
    unique_clients: usize,
) -> (s: String)
    ensures
        s@ == activity_text(
            window_secs as nat,
            attempts as nat,
            ok as nat,
            failed as nat,
            unique_clients as nat,
        ),
{
    let mut s = "MQTT broker activity (last ".to_string();
    s.append(decimal_string(window_secs).as_str());
    s.append("s): ");
    s.append(decimal_string(attempts as u64).as_str());
    s.append(" connection attempts (");
    s.append(decimal_string(ok as u64).as_str());
    s.append(" accepted, ");
    s.append(decimal_string(failed as u64).as_str());
    s.append(" rejected), ");
    s.append(decimal_string(unique_clients as u64).as_str());
    s.append(" unique client IDs.");
    s
}

fn failure_string(client: &str, user: &str, n: usize) -> (s: String)
    ensures
        s@ == failure_text((client@, user@, n as nat)),
{
    let mut s = "  client='".to_string();
    s.append(client);
    s.append("' user='");
    s.append(user);
    s.append("' failed ");
    s.append(decimal_string(n as u64).as_str());
    s.append(" times.");
    s
}

fn topic_string(topic: &str, n: usize) -> (s: String)
    ensures
        s@ == topic_text((topic@, n as nat)),
{
    let mut s = topic.to_string();
    s.append("(");
    s.append(decimal_string(n as u64).as_str());
    s.append("x)");
    s
}

fn topics_string(topics: &Vec<(String, usize)>) -> (s: String)
    ensures
        s@ == "Active topics: "@ + text::join(
            Seq::new(topics@.len(), |i: int| topic_text(topics_view(topics@)[i])),
            ", "@,
        ) + "."@,
{
    let ghost all = Seq::new(topics@.len(), |i: int| topic_text(topics_view(topics@)[i]));
    let mut parts: Vec<String> = Vec::new();
    let mut i: usize = 0;
    while i < topics.len()
        invariant
            i <= topics.len(),
            parts.len() == i,
            forall|k: int|
                0 <= k < i ==> (#[trigger] parts@[k])@ == topic_text(topics_view(topics@)[k]),
        decreases topics.len() - i,
    {
        let one = topic_string(topics[i].0.as_str(), topics[i].1);
        parts.push(one);
        i += 1;
    }
    assert(text::string_texts(parts@) =~= all);
    let mut s = "Active topics: ".to_string();
    s.append(joined(&parts, ", ").as_str());
    s.append(".");
    s
}

impl EventWindow {
    fn counts_since(&self, cutoff: i128) -> (r: (usize, usize, usize))
        ensures
            r.0 == count(self@.events, connecting(cutoff as int)),
            r.1 == count(self@.events, accepted(cutoff as int)),
            r.2 == clients(self@.events, cutoff as int).len(),
    {
        let ghost c = cutoff as int;
        let ghost events = self@.events;
        let mut attempts: usize = 0;
        let mut ok: usize = 0;
        let mut ids: Vec<String> = Vec::new();
        let mut i: usize = 0;
        assert(events.take(0) =~= Seq::empty());
        assert(text::string_texts(ids@).to_set() =~= Set::empty());
        while i < self.events.len()
            invariant
                i <= self.events.len(),
                c == cutoff as int,
                events == self@.events,
                events.len() == self.events.len(),
                attempts <= i,
                ok <= i,
                attempts == count(events.take(i as int), connecting(c)),
                ok == count(events.take(i as int), accepted(c)),
                text::string_texts(ids@).no_duplicates(),
                text::string_texts(ids@).to_set() == clients(events.take(i as int), c),
            decreases self.events.len() - i,
        {
            proof {
                assert(events[i as int] == self.events@[i as int]@);
                lemma_count_step(events, i as int, connecting(c));
                lemma_count_step(events, i as int, accepted(c));
                assert(events.take(i + 1).drop_last() =~= events.take(i as int));
            }
            match &self.events[i] {
                BrokerEvent::Connect { client_id, allowed, ts, .. } => {
                    if *ts >= cutoff {
                        attempts += 1;
                        if *allowed {
                            ok += 1;
                        }
                        ids = add_name(ids, client_id.as_str());
                    }
                },
                BrokerEvent::Publish { .. } => {},
            }
            i += 1;
        }
        assert(events.take(i as int) =~= events);
        proof {
            text::string_texts(ids@).unique_seq_to_set();
        }
        (attempts, ok, ids.len())
    }

    /// The prompt about the events since `cutoff`, from summaries of the
    /// failures and of the topics.
    pub fn prompt_since(
        &self,
        window_secs: u64,
        cutoff: i128,
        fails: &Vec<(String, String, usize)>,
        topics: &Vec<(String, usize)>,
    ) -> (s: String)
        ensures
            s@ == prompt(
                self@.events,
                window_secs as nat,
                cutoff as int,
                failures_view(fails@),
                topics_view(topics@),
            ),
    {
        let (attempts, ok, unique_clients) = self.counts_since(cutoff);
        proof {
            event_laws::law_attempts_are_accepted_or_rejected(self@.events, cutoff as int);
        }
        let mut parts: Vec<String> = Vec::new();
        parts.push(activity_string(window_secs, attempts, ok, attempts - ok, unique_clients));
        let ghost head = parts@[0]@;
        let ghost f = failures_view(fails@);
        let ghost t = topics_view(topics@);
        assert(text::string_texts(parts@) =~= seq![head] + Seq::empty());
        if fails.len() > 0 {
            parts.push("Authentication failures:".to_string());
            let mut i: usize = 0;
            while i < fails.len()
                invariant
                    i <= fails.len(),
                    f == failures_view(fails@),
                    parts.len() == i + 2,
                    parts@[0]@ == head,
                    parts@[1]@ == "Authentication failures:"@,
                    forall|k: int| 0 <= k < i ==> (#[trigger] parts@[k + 2])@ == failure_text(f[k]),
                decreases fails.len() - i,
            {
                let one = failure_string(fails[i].0.as_str(), fails[i].1.as_str(), fails[i].2);
                let ghost before = parts@;
                parts.push(one);
                assert forall|k: int| 0 <= k < i + 1 implies (#[trigger] parts@[k + 2])@
                    == failure_text(f[k]) by {
                    if k < i {
                        assert(parts@[k + 2] == before[k + 2]);
                    }
                }
                i += 1;
            }
            proof {
                let have = text::string_texts(parts@);
                let want = seq![head] + failure_parts(f);
                assert forall|k: int| 0 <= k < have.len() implies have[k] == want[k] by {
                    if k >= 2 {
                        assert(parts@[(k - 2) + 2]@ == failure_text(f[k - 2]));
                    }
                }
                assert(have =~= want);
            }
        }
        assert(text::string_texts(parts@) =~= seq![head] + failure_parts(f));
        if topics.len() > 0 {
            let ghost before = text::string_texts(parts@);
            parts.push(topics_string(topics));
            assert(Seq::new(topics@.len(), |i: int| topic_text(topics_view(topics@)[i])) =~= Seq::new(
                t.len(),
                |i: int| topic_text(t[i]),
            ));
            assert(text::string_texts(parts@) =~= before + topic_parts(t));
        }
        assert(text::string_texts(parts@) =~= seq![head] + failure_parts(f) + topic_parts(t));
        joined(&parts, " ")
    }

    /// Builds a natural-language prompt about the `window_secs` seconds before
    /// `time`.
    pub fn to_prompt_at(&self, window_secs: u64, time: i128) -> (s: String)
        ensures
            is_prompt(s@, self@.events, window_secs as nat, time as int),
    {
        let fails = self.fail_summary_at(window_secs, time);
        let topics = self.topic_summary_at(window_secs, time);
        self.prompt_since(window_secs, cutoff_before(time, window_secs), &fails, &topics)
    }

    /// Builds a natural-language prompt for zero-shot classification.
    pub fn to_prompt(&self, window_secs: u64) -> (s: String)
        ensures
            exists|time: int| #[trigger]
                is_prompt(s@, self@.events, window_secs as nat, time),
    {
        let time = now();
        self.to_prompt_at(window_secs, time)
    }
}

} // verus!
