//! What holds of every window of events.
use vstd::prelude::*;

use super::clock;
use super::event::{self, EventView, Failures, WindowView};
use crate::assoc;
use crate::number;
use crate::text;

verus! {

/// Accepted and rejected connections make up all of them.
pub proof fn law_attempts_are_accepted_or_rejected(events: Seq<EventView>, cutoff: int)
    ensures
        event::count(events, event::connecting(cutoff)) == event::count(events, event::accepted(cutoff)) + event::count(
            events,
            event::rejected(cutoff),
        ),
    decreases events.len(),
{
    if events.len() > 0 {
        law_attempts_are_accepted_or_rejected(events.drop_last(), cutoff);
    }
}

/// A window after a history of events, the oldest first.
pub open spec fn after_history(max_size: nat, history: Seq<EventView>) -> WindowView
    decreases history.len(),
{
    if history.len() == 0 {
        WindowView { events: Seq::empty(), max_size }
    } else {
        event::pushed(after_history(max_size, history.drop_last()), history.last())
    }
}

/// A window holds the latest events of its history, as many as it has room
/// for, in the order in which they happened.
pub proof fn law_a_window_holds_the_latest_events(max_size: nat, history: Seq<EventView>)
    requires
        max_size > 0,
    ensures
        after_history(max_size, history).max_size == max_size,
        after_history(max_size, history).events == (if history.len() <= max_size {
            history
        } else {
            history.skip(history.len() - max_size)
        }),
    decreases history.len(),
{
    if history.len() == 0 {
        assert(after_history(max_size, history).events =~= history);
    } else {
        let before = history.drop_last();
        law_a_window_holds_the_latest_events(max_size, before);
        let w = after_history(max_size, before);
        if history.len() <= max_size {
            assert(w.events.push(history.last()) =~= history);
        } else {
            assert(w.events.drop_first().push(history.last()) =~= history.skip(
                history.len() - max_size,
            ));
        }
    }
}

/// A window that reaches further back counts no fewer failures.
pub proof fn law_an_earlier_cutoff_counts_no_fewer_failures(
    events: Seq<EventView>,
    earlier: int,
    later: int,
)
    requires
        earlier <= later,
    ensures
        event::count(events, event::rejected(earlier)) >= event::count(
            events,
            event::rejected(later),
        ),
    decreases events.len(),
{
    if events.len() > 0 {
        law_an_earlier_cutoff_counts_no_fewer_failures(events.drop_last(), earlier, later);
    }
}

/// The sum of the numbers in a list of failures.
pub open spec fn total(s: Seq<Failures>) -> nat
    decreases s.len(),
{
    if s.len() == 0 {
        0
    } else {
        total(s.drop_last()) + s.last().2
    }
}

spec fn retold(s: Seq<Failures>, events: Seq<EventView>, cutoff: int) -> Seq<Failures> {
    Seq::new(
        s.len(),
        |i: int|
            (s[i].0, s[i].1, event::count(events, event::rejected_as(cutoff, s[i].0, s[i].1))),
    )
}

spec fn is_about(f: Failures, e: EventView, cutoff: int) -> bool {
    event::rejected_as(cutoff, f.0, f.1)(e)
}

proof fn lemma_one_more(s: Seq<Failures>, events: Seq<EventView>, cutoff: int)
    requires
        events.len() > 0,
        forall|i: int, j: int|
            0 <= i < j < s.len() ==> (#[trigger] s[i]).0 != (#[trigger] s[j]).0 || s[i].1
                != s[j].1,
    ensures
        total(retold(s, events, cutoff)) == total(retold(s, events.drop_last(), cutoff)) + (
        if exists|i: int| 0 <= i < s.len() && is_about(#[trigger] s[i], events.last(), cutoff) {
            1nat
        } else {
            0nat
        }),
    decreases s.len(),
{
    let e = events.last();
    let now = retold(s, events, cutoff);
    let before = retold(s, events.drop_last(), cutoff);
    if s.len() > 0 {
        let t = s.drop_last();
        let last = s.len() - 1;
        assert forall|i: int, j: int| 0 <= i < j < t.len() implies (#[trigger] t[i]).0
            != (#[trigger] t[j]).0 || t[i].1 != t[j].1 by {
            assert(s[i].0 != s[j].0 || s[i].1 != s[j].1);
        }
        lemma_one_more(t, events, cutoff);
        assert(now.drop_last() =~= retold(t, events, cutoff));
        assert(before.drop_last() =~= retold(t, events.drop_last(), cutoff));
        if is_about(s[last], e, cutoff) {
            assert forall|i: int| 0 <= i < t.len() implies !is_about(#[trigger] t[i], e, cutoff) by {
                assert(s[i].0 != s[last].0 || s[i].1 != s[last].1);
            }
        } else {
            if exists|i: int| 0 <= i < s.len() && is_about(#[trigger] s[i], e, cutoff) {
                let i = choose|i: int| 0 <= i < s.len() && is_about(#[trigger] s[i], e, cutoff);
                assert(is_about(t[i], e, cutoff));
            }
            if exists|i: int| 0 <= i < t.len() && is_about(#[trigger] t[i], e, cutoff) {
                let i = choose|i: int| 0 <= i < t.len() && is_about(#[trigger] t[i], e, cutoff);
                assert(is_about(s[i], e, cutoff));
            }
        }
    }
}

proof fn lemma_total(s: Seq<Failures>, events: Seq<EventView>, cutoff: int)
    requires
        forall|i: int, j: int|
            0 <= i < j < s.len() ==> (#[trigger] s[i]).0 != (#[trigger] s[j]).0 || s[i].1
                != s[j].1,
        forall|client: Seq<char>, user: Seq<char>|
            #![trigger event::rejected_as(cutoff, client, user)]
            event::count(events, event::rejected_as(cutoff, client, user)) > 0 ==> event::lists(
                s,
                client,
                user,
            ),
    ensures
        total(retold(s, events, cutoff)) == event::count(events, event::rejected(cutoff)),
    decreases events.len(),
{
    if events.len() == 0 {
        lemma_nothing(s, events, cutoff);
    } else {
        let before = events.drop_last();
        let e = events.last();
        assert forall|client: Seq<char>, user: Seq<char>|
            #![trigger event::rejected_as(cutoff, client, user)]
            event::count(before, event::rejected_as(cutoff, client, user)) > 0 implies event::lists(
            s,
            client,
            user,
        ) by {
            assert(event::count(events, event::rejected_as(cutoff, client, user)) > 0);
        }
        lemma_total(s, before, cutoff);
        lemma_one_more(s, events, cutoff);
        if event::rejected(cutoff)(e) {
            if let EventView::Connect { client_id, username, .. } = e {
                assert(event::rejected_as(cutoff, client_id, username)(e));
                assert(event::lists(s, client_id, username));
                let i = choose|i: int|
                    0 <= i < s.len() && (#[trigger] s[i]).0 == client_id && s[i].1 == username;
                assert(is_about(s[i], e, cutoff));
            }
        }
    }
}

proof fn lemma_nothing(s: Seq<Failures>, events: Seq<EventView>, cutoff: int)
    requires
        events.len() == 0,
    ensures
        total(retold(s, events, cutoff)) == 0,
    decreases s.len(),
{
    if s.len() > 0 {
        lemma_nothing(s.drop_last(), events, cutoff);
        assert(retold(s, events, cutoff).drop_last() =~= retold(s.drop_last(), events, cutoff));
    }
}

/// The failures of the clients add up to all failures.
pub proof fn law_the_failures_add_up(s: Seq<Failures>, events: Seq<EventView>, cutoff: int)
    requires
        event::is_fail_summary(s, events, cutoff),
    ensures
        total(s) == event::count(events, event::rejected(cutoff)),
{
    lemma_total(s, events, cutoff);
    assert(retold(s, events, cutoff) =~= s);
}

/// Counting is taking those that have the property, and counting them.
pub proof fn lemma_count(
    events: Seq<EventView>,
    p: spec_fn(EventView) -> bool,
    q: spec_fn(EventView) -> bool,
)
    requires
        forall|e: EventView| #[trigger] p(e) == q(e),
    ensures
        event::count(events, p) == events.filter(q).len(),
    decreases events.len(),
{
    reveal(Seq::filter);
    if events.len() > 0 {
        lemma_count(events.drop_last(), p, q);
        assert(p(events.last()) == q(events.last()));
    }
}

/// The attempts are the connections at the cutoff or later; those that were let
/// in are accepted, the others rejected.
pub proof fn law_attempts_are_counted(events: Seq<EventView>, cutoff: int)
    ensures
        event::count(events, event::connecting(cutoff)) == events.filter(
            |e: EventView|
                match e {
                    EventView::Connect { ts, .. } => ts >= cutoff,
                    EventView::Publish { .. } => false,
                },
        ).len(),
        event::count(events, event::accepted(cutoff)) == events.filter(
            |e: EventView|
                match e {
                    EventView::Connect { ts, allowed, .. } => ts >= cutoff && allowed,
                    EventView::Publish { .. } => false,
                },
        ).len(),
        event::count(events, event::rejected(cutoff)) == events.filter(
            |e: EventView|
                match e {
                    EventView::Connect { ts, allowed, .. } => ts >= cutoff && !allowed,
                    EventView::Publish { .. } => false,
                },
        ).len(),
{
    lemma_count(
        events,
        event::connecting(cutoff),
        |e: EventView|
            match e {
                EventView::Connect { ts, .. } => ts >= cutoff,
                EventView::Publish { .. } => false,
            },
    );
    lemma_count(
        events,
        event::accepted(cutoff),
        |e: EventView|
            match e {
                EventView::Connect { ts, allowed, .. } => ts >= cutoff && allowed,
                EventView::Publish { .. } => false,
            },
    );
    lemma_count(
        events,
        event::rejected(cutoff),
        |e: EventView|
            match e {
                EventView::Connect { ts, allowed, .. } => ts >= cutoff && !allowed,
                EventView::Publish { .. } => false,
            },
    );
}

/// A client and username have as many failures as there are rejected
/// connections of that client under that username at the cutoff or later.
pub proof fn law_failures_are_counted_by_client_and_username(
    events: Seq<EventView>,
    cutoff: int,
    client: Seq<char>,
    user: Seq<char>,
)
    ensures
        event::count(events, event::rejected_as(cutoff, client, user)) == events.filter(
            |e: EventView|
                match e {
                    EventView::Connect { client_id, username, ts, allowed, .. } => client_id
                        == client && username == user && ts >= cutoff && !allowed,
                    EventView::Publish { .. } => false,
                },
        ).len(),
{
    lemma_count(
        events,
        event::rejected_as(cutoff, client, user),
        |e: EventView|
            match e {
                EventView::Connect { client_id, username, ts, allowed, .. } => client_id == client
                    && username == user && ts >= cutoff && !allowed,
                EventView::Publish { .. } => false,
            },
    );
}

/// A topic has as many messages as were published to it at the cutoff or later.
pub proof fn law_messages_are_counted_by_topic(
    events: Seq<EventView>,
    cutoff: int,
    to: Seq<char>,
)
    ensures
        event::count(events, event::publishing(cutoff, to)) == events.filter(
            |e: EventView|
                match e {
                    EventView::Connect { .. } => false,
                    EventView::Publish { topic, ts, .. } => topic == to && ts >= cutoff,
                },
        ).len(),
{
    lemma_count(
        events,
        event::publishing(cutoff, to),
        |e: EventView|
            match e {
                EventView::Connect { .. } => false,
                EventView::Publish { topic, ts, .. } => topic == to && ts >= cutoff,
            },
    );
}

/// The event is a connection of the client at the cutoff or later, accepted or
/// rejected.
pub open spec fn is_attempt_of(e: EventView, client: Seq<char>, cutoff: int) -> bool {
    match e {
        EventView::Connect { client_id, ts, .. } => client_id == client && ts >= cutoff,
        EventView::Publish { .. } => false,
    }
}

/// A client is counted exactly if it tried to connect at the cutoff or later,
/// whether it was let in or not. So some client is counted whenever there was an
/// attempt.
pub proof fn law_every_client_that_tried_is_counted(
    events: Seq<EventView>,
    cutoff: int,
    client: Seq<char>,
)
    ensures
        event::clients(events, cutoff).finite(),
        event::clients(events, cutoff).contains(client) <==> exists|i: int|
            0 <= i < events.len() && is_attempt_of(#[trigger] events[i], client, cutoff),
        event::count(events, event::connecting(cutoff)) > 0 <==> event::clients(
            events,
            cutoff,
        ).len() > 0,
        event::clients(events, cutoff).len() <= event::count(events, event::connecting(cutoff)),
    decreases events.len(),
{
    if events.len() > 0 {
        let before = events.drop_last();
        let e = events.last();
        let set = event::clients(before, cutoff);
        law_every_client_that_tried_is_counted(before, cutoff, client);
        if exists|i: int| 0 <= i < before.len() && is_attempt_of(#[trigger] before[i], client, cutoff) {
            let i = choose|i: int|
                0 <= i < before.len() && is_attempt_of(#[trigger] before[i], client, cutoff);
            assert(is_attempt_of(events[i], client, cutoff));
        }
        if exists|i: int| 0 <= i < events.len() && is_attempt_of(#[trigger] events[i], client, cutoff) {
            let i = choose|i: int|
                0 <= i < events.len() && is_attempt_of(#[trigger] events[i], client, cutoff);
            if i < before.len() {
                assert(is_attempt_of(before[i], client, cutoff));
            }
        }
        if is_attempt_of(e, client, cutoff) {
            assert(is_attempt_of(events[events.len() - 1], client, cutoff));
        }
        if let EventView::Connect { client_id, ts, .. } = e {
            if ts >= cutoff {
                assert(set.insert(client_id).contains(client_id));
                assert(set.insert(client_id).len() > 0);
            }
        }
    } else {
        assert(event::clients(events, cutoff) =~= Set::empty());
    }
}

/// A list of failures has the numbers of rejections, names each client and
/// username at most once, and leaves out nobody who was rejected.
pub proof fn law_a_list_of_failures_is_complete(
    s: Seq<Failures>,
    events: Seq<EventView>,
    cutoff: int,
    client: Seq<char>,
    user: Seq<char>,
)
    requires
        event::is_fail_summary(s, events, cutoff),
    ensures
        ({
            let times = events.filter(
                |e: EventView|
                    match e {
                        EventView::Connect { client_id, username, ts, allowed, .. } => client_id
                            == client && username == user && ts >= cutoff && !allowed,
                        EventView::Publish { .. } => false,
                    },
            ).len();
            &&& times > 0 ==> s.contains((client, user, times))
            &&& forall|i: int|
                0 <= i < s.len() && (#[trigger] s[i]).0 == client && s[i].1 == user ==> s[i].2
                    == times && times > 0
            &&& forall|i: int, j: int|
                0 <= i < j < s.len() && (#[trigger] s[i]).0 == client && s[i].1 == user ==> (
                #[trigger] s[j]).0 != client || s[j].1 != user
        }),
{
    law_failures_are_counted_by_client_and_username(events, cutoff, client, user);
    let times = event::count(events, event::rejected_as(cutoff, client, user));
    if times > 0 {
        assert(event::lists(s, client, user));
        let i = choose|i: int|
            0 <= i < s.len() && (#[trigger] s[i]).0 == client && s[i].1 == user;
        assert(s[i] == (client, user, times));
    }
}

/// A list of topics has at most ten, those with the most messages, the larger
/// numbers first, each topic at most once with the number of its messages. A
/// topic with messages is left out only if ten others have no fewer.
pub proof fn law_a_list_of_topics_has_the_most_used(
    s: Seq<(Seq<char>, nat)>,
    events: Seq<EventView>,
    cutoff: int,
    to: Seq<char>,
)
    requires
        event::is_topic_summary(s, events, cutoff),
    ensures
        ({
            let times = events.filter(
                |e: EventView|
                    match e {
                        EventView::Connect { .. } => false,
                        EventView::Publish { topic, ts, .. } => topic == to && ts >= cutoff,
                    },
            ).len();
            &&& s.len() <= 10
            &&& forall|i: int|
                0 <= i < s.len() && (#[trigger] s[i]).0 == to ==> s[i].1 == times && times > 0
            &&& forall|i: int, j: int|
                0 <= i < j < s.len() ==> (#[trigger] s[i]).1 >= (#[trigger] s[j]).1 && s[i].0
                    != s[j].0
            &&& times > 0 ==> s.contains((to, times)) || s.len() == 10 && forall|i: int|
                0 <= i < s.len() ==> (#[trigger] s[i]).1 >= times
        }),
{
    law_messages_are_counted_by_topic(events, cutoff, to);
    let times = event::count(events, event::publishing(cutoff, to));
    if times > 0 && assoc::has_name(s, to) {
        let i = choose|i: int| 0 <= i < s.len() && s[i].0 == to;
        assert(s[i] == (to, times));
    }
}

/// The prompt tells how many connections were tried in the window, how many of
/// them were accepted and rejected, and how many clients tried; then it lists
/// the failures, if there are any, and the topics, if there are any.
pub proof fn law_the_prompt_tells_what_happened(
    events: Seq<EventView>,
    window_secs: nat,
    cutoff: int,
    fails: Seq<Failures>,
    topics: Seq<(Seq<char>, nat)>,
)
    ensures
        ({
            let attempts = events.filter(
                |e: EventView|
                    match e {
                        EventView::Connect { ts, .. } => ts >= cutoff,
                        EventView::Publish { .. } => false,
                    },
            ).len();
            let accepted = events.filter(
                |e: EventView|
                    match e {
                        EventView::Connect { ts, allowed, .. } => ts >= cutoff && allowed,
                        EventView::Publish { .. } => false,
                    },
            ).len();
            let rejected = events.filter(
                |e: EventView|
                    match e {
                        EventView::Connect { ts, allowed, .. } => ts >= cutoff && !allowed,
                        EventView::Publish { .. } => false,
                    },
            ).len();
            let activity = "MQTT broker activity (last "@ + number::decimal(window_secs) + "s): "@
                + number::decimal(attempts) + " connection attempts ("@ + number::decimal(accepted)
                + " accepted, "@ + number::decimal(rejected) + " rejected), "@ + number::decimal(
                event::clients(events, cutoff).len(),
            ) + " unique client IDs."@;
            let failures = Seq::new(
                fails.len(),
                |i: int|
                    "  client='"@ + fails[i].0 + "' user='"@ + fails[i].1 + "' failed "@
                        + number::decimal(fails[i].2) + " times."@,
            );
            let used = Seq::new(
                topics.len(),
                |i: int| topics[i].0 + "("@ + number::decimal(topics[i].1) + "x)"@,
            );
            event::prompt(events, window_secs, cutoff, fails, topics) == text::join(
                seq![activity] + (if fails.len() > 0 {
                    seq!["Authentication failures:"@] + failures
                } else {
                    Seq::empty()
                }) + (if topics.len() > 0 {
                    seq!["Active topics: "@ + text::join(used, ", "@) + "."@]
                } else {
                    Seq::empty()
                }),
                " "@,
            )
        }),
{
    law_attempts_are_counted(events, cutoff);
    law_attempts_are_accepted_or_rejected(events, cutoff);
    let failures = Seq::new(
        fails.len(),
        |i: int|
            "  client='"@ + fails[i].0 + "' user='"@ + fails[i].1 + "' failed "@ + number::decimal(
                fails[i].2,
            ) + " times."@,
    );
    let used = Seq::new(
        topics.len(),
        |i: int| topics[i].0 + "("@ + number::decimal(topics[i].1) + "x)"@,
    );
    assert(Seq::new(fails.len(), |i: int| event::failure_text(fails[i])) =~= failures);
    assert(Seq::new(topics.len(), |i: int| event::topic_text(topics[i])) =~= used);
}

/// A prompt about a window of time is made from the events of that window and
/// nothing else: from its failures and its topics.
pub proof fn law_a_prompt_is_about_its_window(
    s: Seq<char>,
    events: Seq<EventView>,
    window_secs: nat,
    time: int,
)
    requires
        event::is_prompt(s, events, window_secs, time),
        time - window_secs * 1_000_000_000 >= -9_223_372_036_854_775_808_000_000_000,
    ensures
        ({
            let since = time - window_secs * 1_000_000_000;
            exists|fails: Seq<Failures>, topics: Seq<(Seq<char>, nat)>|
                {
                    &&& #[trigger] event::is_fail_summary(fails, events, since)
                    &&& #[trigger] event::is_topic_summary(topics, events, since)
                    &&& s == event::prompt(events, window_secs, since, fails, topics)
                }
        }),
{
}

/// The window reaches back from the given time by as many seconds as asked; if
/// there is no such time, to the start of 1970.
pub proof fn law_the_window_reaches_back_in_seconds(time: int, window_secs: nat)
    ensures
        clock::cutoff_at(time, window_secs) == (if time - window_secs * 1_000_000_000
            >= -9_223_372_036_854_775_808_000_000_000 {
            time - window_secs * 1_000_000_000
        } else {
            0
        }),
{
}

/// An event holds what it was made of.
pub proof fn law_events_hold_what_happened(
    client_id: Seq<char>,
    username: Seq<char>,
    allowed: bool,
    reason: Seq<char>,
    topic: Seq<char>,
    payload_len: nat,
    ts: int,
)
    ensures
        event::connected(client_id, username, allowed, reason, ts) == (EventView::Connect {
            client_id,
            username,
            allowed,
            reason,
            ts,
        }),
        event::published(topic, payload_len, ts) == (EventView::Publish { topic, payload_len, ts }),
        event::connected(client_id, username, allowed, reason, ts).when() == ts,
        event::published(topic, payload_len, ts).when() == ts,
{
}

} // verus!
