//! What holds of every decision of the threat monitor.
use vstd::prelude::*;

use super::client::{self, AnalysisResult, AnalysisView, HfReply};
use super::event::{self, EventView, Failures, WindowView};
use super::event_laws;
use super::monitor::{self, ConclusionView, MonitorView, NewsView};
use crate::broker::block_list::BlockListView;
use crate::broker::engine;
use crate::config::parser::InferenceView;
use crate::error::MastError;

verus! {

/// Once a classification says anything but normal activity, and is confident
/// enough, a client with three or more recent rejections
/// under one username is rejected, whatever its credentials: it is recognised
/// by its identifier, and, if it gave one, by its username.
pub proof fn law_offenders_are_rejected(
    b: BlockListView,
    result: AnalysisResult,
    events: Seq<EventView>,
    cutoff: int,
    fails: Seq<Failures>,
    client: Seq<char>,
    user: Seq<char>,
    other_client: Seq<char>,
    other_user: Seq<char>,
    allow_anonymous: bool,
    credentials_ok: bool,
)
    requires
        result@.label != "normal activity"@,
        event::is_fail_summary(fails, events, cutoff),
        event::count(events, event::rejected_as(cutoff, client, user)) >= 3,
    ensures
        ({
            let after = monitor::list_after(
                b,
                Ok::<AnalysisResult, MastError>(result),
                true,
                fails,
            );
            &&& engine::verdict(
                after.blocks(other_user, client),
                allow_anonymous,
                other_user,
                credentials_ok,
            ) == (false, "blocked"@)
            &&& user.len() > 0 ==> engine::verdict(
                after.blocks(user, other_client),
                allow_anonymous,
                user,
                credentials_ok,
            ) == (false, "blocked"@)
        }),
{
    assert(event::lists(fails, client, user));
    let i = choose|i: int|
        0 <= i < fails.len() && (#[trigger] fails[i]).0 == client && fails[i].1 == user;
    assert(fails[i].2 >= 3);
    assert(monitor::offending_clients(fails).contains(client));
    if user.len() > 0 {
        assert(monitor::offending_usernames(fails).contains(user));
    }
}

/// Nobody else is blocked: a client that was not blocked before stays so if
/// neither its identifier nor its username, if it gives one, has three or more
/// recent rejections.
pub proof fn law_only_offenders_are_blocked(
    b: BlockListView,
    result: Result<AnalysisResult, MastError>,
    confident: bool,
    events: Seq<EventView>,
    cutoff: int,
    fails: Seq<Failures>,
    client: Seq<char>,
    user: Seq<char>,
)
    requires
        !b.blocks(user, client),
        event::is_fail_summary(fails, events, cutoff),
        forall|other: Seq<char>|
            event::count(events, #[trigger] event::rejected_as(cutoff, client, other)) < 3,
        user.len() > 0 ==> forall|other: Seq<char>|
            event::count(events, #[trigger] event::rejected_as(cutoff, other, user)) < 3,
    ensures
        !monitor::list_after(b, result, confident, fails).blocks(user, client),
{
    assert forall|i: int| 0 <= i < fails.len() && (#[trigger] fails[i]).2 >= 3 implies fails[i].0
        != client && (user.len() > 0 ==> fails[i].1 != user) by {
        assert(event::count(events, event::rejected_as(cutoff, fails[i].0, fails[i].1)) >= 3);
    }
}

/// Without a classification, and for one that is normal or not confident
/// enough, the deny-list stays as it is.
pub proof fn law_no_threat_no_action(
    b: BlockListView,
    result: Result<AnalysisResult, MastError>,
    confident: bool,
    fails: Seq<Failures>,
)
    requires
        result is Err || !confident || result->Ok_0@.label == "normal activity"@,
    ensures
        monitor::list_after(b, result, confident, fails) == b,
        monitor::conclusion(result, confident, fails) == (if result is Err {
            ConclusionView::Failed
        } else {
            ConclusionView::Normal
        }),
{
}

/// An analysis never lets in anyone who was blocked.
pub proof fn law_an_analysis_unblocks_nobody(
    b: BlockListView,
    result: Result<AnalysisResult, MastError>,
    confident: bool,
    fails: Seq<Failures>,
    username: Seq<char>,
    client_id: Seq<char>,
)
    requires
        b.blocks(username, client_id),
    ensures
        monitor::list_after(b, result, confident, fails).blocks(username, client_id),
{
}

/// The monitor's window never outgrows its bound.
pub proof fn law_the_window_stays_bounded(w: WindowView, news: NewsView, time: int)
    requires
        w.max_size > 0,
        w.events.len() <= w.max_size,
    ensures
        monitor::window_after(w, news, time).max_size == w.max_size,
        monitor::window_after(w, news, time).events.len() <= w.max_size,
{
}

/// A rejected connection of the client under the username, at the time `since`
/// or later.
pub open spec fn is_failure_of(
    e: EventView,
    client: Seq<char>,
    user: Seq<char>,
    since: int,
) -> bool {
    match e {
        EventView::Connect { client_id, username, allowed, ts, .. } => client_id == client
            && username == user && !allowed && ts >= since,
        EventView::Publish { .. } => false,
    }
}

/// How often the client was rejected under the username, at the time `since` or
/// later.
pub open spec fn failures_of(
    events: Seq<EventView>,
    client: Seq<char>,
    user: Seq<char>,
    since: int,
) -> nat {
    events.filter(|e: EventView| is_failure_of(e, client, user, since)).len()
}

proof fn lemma_failures(
    fails: Seq<Failures>,
    events: Seq<EventView>,
    since: int,
    client: Seq<char>,
    user: Seq<char>,
)
    requires
        event::is_fail_summary(fails, events, since),
    ensures
        ({
            let n = failures_of(events, client, user, since);
            &&& n > 0 ==> fails.contains((client, user, n))
            &&& forall|i: int|
                0 <= i < fails.len() && (#[trigger] fails[i]).0 == client && fails[i].1 == user
                    ==> fails[i].2 == n
        }),
{
    let p = event::rejected_as(since, client, user);
    event_laws::lemma_count(events, p, |e: EventView| is_failure_of(e, client, user, since));
    let n = event::count(events, p);
    if n > 0 {
        assert(event::lists(fails, client, user));
        let i = choose|i: int|
            0 <= i < fails.len() && (#[trigger] fails[i]).0 == client && fails[i].1 == user;
        assert(fails[i] == (client, user, n));
    }
}

proof fn lemma_offenders(fails: Seq<Failures>, x: Failures)
    ensures
        monitor::offenders(fails).contains(x) <==> fails.contains(x) && x.2 >= 3,
    decreases fails.len(),
{
    reveal(Seq::filter);
    if fails.len() > 0 {
        let before = fails.drop_last();
        lemma_offenders(before, x);
        let all = monitor::offenders(fails);
        let some = monitor::offenders(before);
        if before.contains(x) {
            let i = choose|i: int| 0 <= i < before.len() && before[i] == x;
            assert(fails[i] == x);
        }
        if fails.contains(x) && !before.contains(x) {
            let i = choose|i: int| 0 <= i < fails.len() && fails[i] == x;
            if i < before.len() {
                assert(before[i] == x);
            }
            assert(x == fails.last());
        }
        if fails.last() == x {
            assert(fails[fails.len() - 1] == x);
        }
        if some.contains(x) {
            let i = choose|i: int| 0 <= i < some.len() && some[i] == x;
            assert(all[i] == x);
        }
        if fails.last().2 >= 3 {
            assert(all == some.push(fails.last()));
            assert(all[some.len() as int] == fails.last());
            if all.contains(x) && x != fails.last() {
                let i = choose|i: int| 0 <= i < all.len() && all[i] == x;
                assert(some[i] == x);
            }
        }
    }
}

/// After a confident classification of anything but normal activity, exactly
/// those are newly blocked who were rejected three or more times in the last
/// interval: the client identifier, and the username if there was one.
pub proof fn law_a_threat_blocks_the_recent_offenders(
    m: MonitorView,
    result: AnalysisResult,
    time: int,
    before: BlockListView,
    after: BlockListView,
    c: ConclusionView,
    name: Seq<char>,
)
    requires
        result@.label != "normal activity"@,
        monitor::concludes(
            m,
            Ok::<AnalysisResult, MastError>(result),
            true,
            time,
            before,
            after,
            c,
        ),
        time - m.analysis_interval_secs * 1_000_000_000
            >= -9_223_372_036_854_775_808_000_000_000,
    ensures
        ({
            let since = time - m.analysis_interval_secs * 1_000_000_000;
            &&& after.client_ids.contains(name) <==> before.client_ids.contains(name) || exists|
                user: Seq<char>,
            | #[trigger] failures_of(m.window.events, name, user, since) >= 3
            &&& after.usernames.contains(name) <==> before.usernames.contains(name) || name.len()
                > 0 && exists|client: Seq<char>| #[trigger]
                failures_of(m.window.events, client, name, since) >= 3
        }),
{
    let since = time - m.analysis_interval_secs * 1_000_000_000;
    let events = m.window.events;
    let fails = choose|fails: Seq<Failures>|
        {
            &&& #[trigger] event::is_fail_summary(fails, events, since)
            &&& c == monitor::conclusion(Ok::<AnalysisResult, MastError>(result), true, fails)
            &&& after == monitor::list_after(
                before,
                Ok::<AnalysisResult, MastError>(result),
                true,
                fails,
            )
        };
    assert forall|client: Seq<char>, user: Seq<char>| #[trigger]
        failures_of(events, client, user, since) >= 3 implies monitor::offending_clients(
        fails,
    ).contains(client) && (user.len() > 0 ==> monitor::offending_usernames(fails).contains(user)) by {
        lemma_failures(fails, events, since, client, user);
        let n = failures_of(events, client, user, since);
        let i = choose|i: int| 0 <= i < fails.len() && fails[i] == (client, user, n);
        assert(fails[i].2 >= 3);
    }
    if monitor::offending_clients(fails).contains(name) {
        let i = choose|i: int|
            0 <= i < fails.len() && (#[trigger] fails[i]).2 >= 3 && fails[i].0 == name;
        lemma_failures(fails, events, since, name, fails[i].1);
        assert(failures_of(events, name, fails[i].1, since) >= 3);
    }
    if monitor::offending_usernames(fails).contains(name) {
        let i = choose|i: int|
            0 <= i < fails.len() && (#[trigger] fails[i]).2 >= 3 && fails[i].1 == name;
        lemma_failures(fails, events, since, fails[i].0, name);
        assert(failures_of(events, fails[i].0, name, since) >= 3);
    }
}

/// After a confident classification of anything but normal activity, exactly
/// those are reported as blocked who were rejected three or more times in the
/// last interval, with the numbers; if there is nobody, that is reported.
pub proof fn law_a_threat_is_reported_with_its_offenders(
    m: MonitorView,
    result: AnalysisResult,
    time: int,
    before: BlockListView,
    after: BlockListView,
    c: ConclusionView,
    client: Seq<char>,
    user: Seq<char>,
)
    requires
        result@.label != "normal activity"@,
        monitor::concludes(
            m,
            Ok::<AnalysisResult, MastError>(result),
            true,
            time,
            before,
            after,
            c,
        ),
        time - m.analysis_interval_secs * 1_000_000_000
            >= -9_223_372_036_854_775_808_000_000_000,
    ensures
        ({
            let since = time - m.analysis_interval_secs * 1_000_000_000;
            let n = failures_of(m.window.events, client, user, since);
            match c {
                ConclusionView::Blocked(who) => {
                    &&& who.len() > 0
                    &&& n >= 3 <==> who.contains((client, user, n))
                    &&& forall|i: int|
                        0 <= i < who.len() && (#[trigger] who[i]).0 == client && who[i].1 == user
                            ==> who[i].2 == n
                },
                ConclusionView::NoOffender => n < 3,
                _ => false,
            }
        }),
{
    let since = time - m.analysis_interval_secs * 1_000_000_000;
    let events = m.window.events;
    let fails = choose|fails: Seq<Failures>|
        {
            &&& #[trigger] event::is_fail_summary(fails, events, since)
            &&& c == monitor::conclusion(Ok::<AnalysisResult, MastError>(result), true, fails)
            &&& after == monitor::list_after(
                before,
                Ok::<AnalysisResult, MastError>(result),
                true,
                fails,
            )
        };
    let n = failures_of(events, client, user, since);
    let who = monitor::offenders(fails);
    lemma_failures(fails, events, since, client, user);
    lemma_offenders(fails, (client, user, n));
    assert forall|i: int|
        0 <= i < who.len() && (#[trigger] who[i]).0 == client && who[i].1 == user implies who[i].2
        == n by {
        lemma_offenders(fails, who[i]);
        assert(who.contains(who[i]));
        let k = choose|k: int| 0 <= k < fails.len() && fails[k] == who[i];
        assert(fails[k].0 == client);
    }
}

/// A normal classification, one that is not confident enough, and none at all
/// leave the deny-list as it is, whatever happened in the last interval.
pub proof fn law_without_a_threat_nothing_changes(
    m: MonitorView,
    result: Result<AnalysisResult, MastError>,
    confident: bool,
    time: int,
    before: BlockListView,
    after: BlockListView,
    c: ConclusionView,
)
    requires
        monitor::concludes(m, result, confident, time, before, after, c),
        result matches Ok(r) ==> r@.label == "normal activity"@ || !confident,
    ensures
        after == before,
        result is Ok ==> c is Normal,
        result is Err ==> c is Failed,
{
}

/// A connection is blocked exactly if its client identifier is on the list, or
/// its username is and is not empty.
pub proof fn law_who_is_blocked(b: BlockListView, username: Seq<char>, client_id: Seq<char>)
    ensures
        b.client_ids.contains(client_id) ==> b.blocks(username, client_id),
        !b.client_ids.contains(client_id) ==> b.blocks(username, client_id) == (username.len() > 0
            && b.usernames.contains(username)),
{
}

/// A rejection brings an analysis at once exactly if, with it, there were five
/// or more rejections in the last minute. A tick brings one exactly if there are
/// events. Nothing else does.
pub proof fn law_when_to_analyze(w: WindowView, news: NewsView, time: int)
    requires
        w.max_size > 0,
        time - 60_000_000_000 >= -9_223_372_036_854_775_808_000_000_000,
    ensures
        ({
            let a = monitor::action_after(w, news, time);
            match news {
                NewsView::Auth(e) => {
                    let all = w.events.push(e);
                    let held = if all.len() > w.max_size {
                        all.skip(1)
                    } else {
                        all
                    };
                    let recent = held.filter(
                        |e: EventView|
                            match e {
                                EventView::Connect { ts, allowed, .. } => ts >= time
                                    - 60_000_000_000 && !allowed,
                                EventView::Publish { .. } => false,
                            },
                    );
                    let rejection = match e {
                        EventView::Connect { allowed, .. } => !allowed,
                        EventView::Publish { .. } => false,
                    };
                    a.analyze <==> rejection && recent.len() >= 5
                },
                NewsView::Tick => a.analyze <==> w.events.len() > 0,
                _ => !a.analyze,
            }
        }),
{
    if let NewsView::Auth(e) = news {
        lemma_pushed(w, e);
        let held = event::pushed(w, e).events;
        event_laws::law_attempts_are_counted(held, time - 60_000_000_000);
    }
}

proof fn lemma_pushed(w: WindowView, e: EventView)
    requires
        w.max_size > 0,
    ensures
        event::pushed(w, e).events == (if w.events.push(e).len() > w.max_size {
            w.events.push(e).skip(1)
        } else {
            w.events.push(e)
        }),
{
    let all = w.events.push(e);
    if all.len() > w.max_size {
        assert(w.events.drop_first().push(e) =~= all.skip(1));
    }
}

/// The monitor stops exactly when there is no more news of connections. It
/// waits for no more notifications exactly when the link failed, and asks for
/// the next ones exactly after one came.
pub proof fn law_when_to_stop_and_to_go_on(w: WindowView, news: NewsView, time: int)
    ensures
        ({
            let a = monitor::action_after(w, news, time);
            &&& a.stop <==> news == NewsView::AuthClosed
            &&& a.unlink <==> news == NewsView::LinkFailed
            &&& a.ready <==> news == NewsView::OtherNotification || news is Published
        }),
{
}

/// A decided connection and a published message enter the window, with the time
/// of the message; the oldest event leaves a full window. Other news leaves it
/// as it is.
pub proof fn law_what_enters_the_window(w: WindowView, news: NewsView, time: int)
    requires
        w.max_size > 0,
    ensures
        ({
            let after = monitor::window_after(w, news, time);
            let all = match news {
                NewsView::Auth(e) => w.events.push(e),
                NewsView::Published { topic, payload_len } => w.events.push(
                    EventView::Publish { topic, payload_len, ts: time },
                ),
                _ => w.events,
            };
            &&& after.max_size == w.max_size
            &&& news is Auth || news is Published ==> after.events == (if all.len() > w.max_size {
                all.skip(1)
            } else {
                all
            })
            &&& !(news is Auth || news is Published) ==> after.events == w.events
        }),
{
    match news {
        NewsView::Auth(e) => lemma_pushed(w, e),
        NewsView::Published { topic, payload_len } => lemma_pushed(
            w,
            EventView::Publish { topic, payload_len, ts: time },
        ),
        _ => {},
    }
}

/// A new monitor has seen nothing, holds up to 2000 events, and asks the
/// configured endpoint, or the one of the configured model.
pub proof fn law_a_new_monitor_follows_its_configuration(c: InferenceView)
    ensures
        ({
            let m = monitor::new_monitor(c);
            &&& m.window.events.len() == 0
            &&& m.window.max_size == 2000
            &&& m.api_key == c.api_key
            &&& m.analysis_interval_secs == c.analysis_interval_secs
            &&& m.threshold_bits == c.threat_threshold_bits
            &&& c.endpoint matches Some(e) ==> m.endpoint == e
            &&& c.endpoint is None ==> m.endpoint
                == "https://api-inference.huggingface.co/models/"@ + c.model
        }),
{
}

/// The service chooses between normal activity and four kinds of threat.
pub proof fn law_the_candidate_labels()
    ensures
        client::labels().len() == 5,
        client::labels()[0] == "normal activity"@,
        client::labels()[1] == "brute force attack"@,
        client::labels()[2] == "unauthorized device"@,
        client::labels()[3] == "credential stuffing"@,
        client::labels()[4] == "anomalous traffic"@,
{
}

/// Among numbers of one sign the magnitude decides; a negative number comes
/// before every other, and zero equals minus zero.
pub proof fn law_scores_are_ordered_as_numbers(a: u32, b: u32)
    ensures
        a < 0x8000_0000 && b < 0x8000_0000 ==> (client::rank(a) <= client::rank(b) <==> a <= b),
        a >= 0x8000_0000 && b >= 0x8000_0000 ==> (client::rank(a) <= client::rank(b) <==> a >= b),
        a > 0x8000_0000 && b < 0x8000_0000 ==> client::rank(a) < client::rank(b),
        client::rank(0) == client::rank(0x8000_0000),
{
}

/// The label of a classification is one with a score that no other label's score
/// exceeds, the first of these, and the score is that one. All labels are kept
/// with their scores.
pub proof fn law_the_top_label_has_the_highest_score(
    a: AnalysisView,
    labels: Seq<Seq<char>>,
    scores: Seq<u32>,
)
    requires
        client::is_analysis(a, labels, scores),
    ensures
        labels.len() > 0 && scores.len() > 0 ==> exists|k: int|
            {
                &&& 0 <= k < labels.len() && k < scores.len()
                &&& a.label == labels[k]
                &&& a.score_bits == #[trigger] scores[k]
                &&& forall|j: int|
                    0 <= j < labels.len() && j < scores.len() ==> client::rank(
                        #[trigger] scores[j],
                    ) <= client::rank(scores[k])
                &&& forall|j: int|
                    0 <= j < k ==> client::rank(#[trigger] scores[j]) < client::rank(scores[k])
            },
        labels.len() == 0 ==> a.label == Seq::<char>::empty(),
        labels.len() > 0 && scores.len() == 0 ==> a.label == labels[0] && a.score_bits == 0,
        labels.len() == 0 && scores.len() > 0 ==> a.score_bits == scores[0],
        labels.len() == 0 && scores.len() == 0 ==> a.score_bits == 0,
        a.all.len() <= labels.len() && a.all.len() <= scores.len(),
        a.all.len() == labels.len() || a.all.len() == scores.len(),
        forall|i: int| 0 <= i < a.all.len() ==> #[trigger] a.all[i] == (labels[i], scores[i]),
{
    if labels.len() > 0 && scores.len() > 0 {
        let n = client::scored(labels, scores);
        let k = choose|k: int| #[trigger]
            client::is_top(scores, n, k) && a.label == labels[k] && a.score_bits == scores[k];
        assert(a.score_bits == scores[k]);
    }
}

/// Given a list of failures, a confident classification of anything but normal
/// activity blocks exactly those on it with three or more, and reports them.
pub proof fn law_a_threat_blocks_those_with_three_failures(
    b: BlockListView,
    result: AnalysisResult,
    fails: Seq<Failures>,
    name: Seq<char>,
)
    requires
        result@.label != "normal activity"@,
    ensures
        ({
            let after = monitor::list_after(
                b,
                Ok::<AnalysisResult, MastError>(result),
                true,
                fails,
            );
            let c = monitor::conclusion(Ok::<AnalysisResult, MastError>(result), true, fails);
            let who = fails.filter(|f: Failures| f.2 >= 3);
            &&& after.client_ids.contains(name) <==> b.client_ids.contains(name) || exists|i: int|
                0 <= i < fails.len() && (#[trigger] fails[i]).0 == name && fails[i].2 >= 3
            &&& after.usernames.contains(name) <==> b.usernames.contains(name) || name.len() > 0
                && exists|i: int|
                0 <= i < fails.len() && (#[trigger] fails[i]).1 == name && fails[i].2 >= 3
            &&& who.len() > 0 ==> c == ConclusionView::Blocked(who)
            &&& who.len() == 0 ==> c == ConclusionView::NoOffender
        }),
{
}

/// Every reply but a classification is an error; its message says at which step
/// the request failed, and ends with the cause.
pub proof fn law_a_reply_without_labels_is_an_error(reply: HfReply)
    ensures
        client::error_text(reply) is None <==> reply is Classified,
        reply matches HfReply::NotSent(e) ==> client::error_text(reply) == Some(
            "HF request failed: "@ + e@,
        ),
        reply matches HfReply::Refused(e) ==> client::error_text(reply) == Some(
            "HF API returned "@ + e@,
        ),
        reply matches HfReply::Unreadable(e) ==> client::error_text(reply) == Some(
            "HF response parse error: "@ + e@,
        ),
{
}

} // verus!
