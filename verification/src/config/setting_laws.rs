//! What a configuration says of each line of its file.
use vstd::prelude::*;

use super::notes::{self, ConfigNoteView};
use super::parser::{self, ConfigView, ListenerView, LogDestView, LogLevel, Progress, TlsView};
use crate::number;
use crate::text;

verus! {

/// The line has the given directive.
pub open spec fn says(line: Seq<char>, key: Seq<char>) -> bool {
    !text::is_remark(line) && text::key_value(text::trim(line)).0 == key
}

/// What stands behind the directive of a line.
pub open spec fn value(line: Seq<char>) -> Seq<char> {
    text::key_value(text::trim(line)).1
}

/// What stands behind the directive on the last line that has one of the two
/// keys.
pub open spec fn last_of(ls: Seq<Seq<char>>, key: Seq<char>, alias: Seq<char>) -> Option<Seq<char>>
    decreases ls.len(),
{
    if ls.len() == 0 {
        None
    } else if says(ls.last(), key) || says(ls.last(), alias) {
        Some(value(ls.last()))
    } else {
        last_of(ls.drop_last(), key, alias)
    }
}

/// What stands behind the directive on the last line that has the key.
pub open spec fn last(ls: Seq<Seq<char>>, key: Seq<char>) -> Option<Seq<char>> {
    last_of(ls, key, key)
}

/// The index of the last `listener` line, or -1.
pub open spec fn last_listener(ls: Seq<Seq<char>>) -> int
    decreases ls.len(),
{
    if ls.len() == 0 {
        -1
    } else if says(ls.last(), "listener"@) {
        ls.len() - 1
    } else {
        last_listener(ls.drop_last())
    }
}

/// The listener that a `listener` line and the lines up to the next one give.
pub open spec fn listener_from(line: Seq<char>, under: Seq<Seq<char>>) -> ListenerView {
    let words = text::words(value(line));
    ListenerView {
        port: number::unsigned(words[0], 65535)->0 as u16,
        bind_addr: if words.len() > 1 {
            Some(words[1])
        } else {
            None
        },
        tls: if last(under, "cafile"@) is Some || last(under, "certfile"@) is Some || last(
            under,
            "keyfile"@,
        ) is Some {
            Some(
                TlsView {
                    cafile: last(under, "cafile"@),
                    certfile: last(under, "certfile"@),
                    keyfile: last(under, "keyfile"@),
                    require_certificate: false,
                },
            )
        } else {
            None
        },
        websocket: last_of(under, "websocket"@, "protocol"@) == Some("true"@) || last_of(
            under,
            "websocket"@,
            "protocol"@,
        ) == Some("websockets"@),
    }
}

/// The listeners that lines give, one for each `listener` line, in their order.
pub open spec fn listeners_in(ls: Seq<Seq<char>>) -> Seq<ListenerView>
    decreases ls.len(),
{
    let n = last_listener(ls);
    if 0 <= n < ls.len() {
        listeners_in(ls.take(n)).push(listener_from(ls[n], ls.skip(n + 1)))
    } else {
        Seq::empty()
    }
}

/// The destinations that the `log_dest` lines name, in their order.
pub open spec fn destinations_in(ls: Seq<Seq<char>>) -> Seq<LogDestView>
    decreases ls.len(),
{
    if ls.len() == 0 {
        Seq::empty()
    } else {
        let before = destinations_in(ls.drop_last());
        let v = value(ls.last());
        if !says(ls.last(), "log_dest"@) {
            before
        } else if v == "stdout"@ {
            before.push(LogDestView::Stdout)
        } else if v == "stderr"@ {
            before.push(LogDestView::Stderr)
        } else if text::starts_with(v, seq!['f', 'i', 'l', 'e', ' ']) {
            before.push(LogDestView::File(text::trim(v.skip(5))))
        } else {
            before
        }
    }
}

/// The settings of lines that are accepted, but for the listeners.
pub open spec fn settings_hold(c: ConfigView, ls: Seq<Seq<char>>) -> bool {
    &&& c.allow_anonymous == (last(ls, "allow_anonymous"@) != Some("false"@))
    &&& c.password_file == last(ls, "password_file"@)
    &&& c.acl_file == last(ls, "acl_file"@)
    &&& c.persistence == (last(ls, "persistence"@) == Some("true"@))
    &&& c.persistence_location == last(ls, "persistence_location"@)
    &&& c.max_connections == match last(ls, "max_connections"@) {
        Some(v) => match number::signed(v) {
            Some(n) => n,
            None => -1int,
        },
        None => -1int,
    }
    &&& c.max_inflight_messages == match last(ls, "max_inflight_messages"@) {
        Some(v) => match number::unsigned(v, usize::MAX as nat) {
            Some(n) => n as usize,
            None => 20usize,
        },
        None => 20usize,
    }
    &&& c.max_queued_messages == match last(ls, "max_queued_messages"@) {
        Some(v) => match number::unsigned(v, usize::MAX as nat) {
            Some(n) => n as usize,
            None => 1000usize,
        },
        None => 1000usize,
    }
    &&& c.log_level == match last_of(ls, "log_level"@, "log_type"@) {
        Some(v) => if v == "debug"@ || v == "all"@ {
            LogLevel::Debug
        } else if v == "notice"@ {
            LogLevel::Notice
        } else if v == "warning"@ || v == "warn"@ {
            LogLevel::Warn
        } else if v == "error"@ {
            LogLevel::Error
        } else {
            LogLevel::Info
        },
        None => LogLevel::Info,
    }
    &&& c.log_dest == (if last(ls, "log_dest"@) is Some {
        destinations_in(ls)
    } else {
        seq![LogDestView::Stdout]
    })
    &&& !c.inference.enabled
    &&& c.inference.api_key == Seq::<char>::empty()
    &&& c.inference.endpoint is None
    &&& c.inference.model == Seq::<char>::empty()
    &&& c.inference.analysis_interval_secs == 0
    &&& c.inference.threat_threshold_bits == 0
}

proof fn lemma_keys()
    ensures
        "listener"@.len() == 8 && "listener"@[0] == 'l' && "listener"@[1] == 'i',
        "certfile"@.len() == 8 && "certfile"@[0] == 'c',
        "protocol"@.len() == 8 && "protocol"@[0] == 'p',
        "acl_file"@.len() == 8 && "acl_file"@[0] == 'a',
        "log_type"@.len() == 8 && "log_type"@[0] == 'l' && "log_type"@[1] == 'o' && "log_type"@[4]
            == 't',
        "log_dest"@.len() == 8 && "log_dest"@[0] == 'l' && "log_dest"@[1] == 'o' && "log_dest"@[4]
            == 'd',
        "cafile"@.len() == 6,
        "keyfile"@.len() == 7,
        "websocket"@.len() == 9 && "websocket"@[0] == 'w',
        "log_level"@.len() == 9 && "log_level"@[0] == 'l',
        "password_file"@.len() == 13,
        "allow_anonymous"@.len() == 15 && "allow_anonymous"@[0] == 'a',
        "max_connections"@.len() == 15 && "max_connections"@[0] == 'm',
        "persistence"@.len() == 11,
        "persistence_location"@.len() == 20,
        "max_inflight_messages"@.len() == 21,
        "max_queued_messages"@.len() == 19,
        "true"@.len() == 4,
        "false"@.len() == 5,
        "file "@ == seq!['f', 'i', 'l', 'e', ' '],
        "information"@.len() == 11 && "info"@.len() == 4 && "info"@[0] == 'i',
        "debug"@.len() == 5 && "debug"@[0] == 'd' && "all"@.len() == 3,
        "notice"@.len() == 6 && "notice"@[0] == 'n',
        "warning"@.len() == 7 && "warn"@.len() == 4 && "warn"@[0] == 'w',
        "error"@.len() == 5 && "error"@[0] == 'e',
{
    reveal_strlit("listener");
    reveal_strlit("certfile");
    reveal_strlit("protocol");
    reveal_strlit("acl_file");
    reveal_strlit("log_type");
    reveal_strlit("log_dest");
    reveal_strlit("cafile");
    reveal_strlit("keyfile");
    reveal_strlit("websocket");
    reveal_strlit("log_level");
    reveal_strlit("password_file");
    reveal_strlit("allow_anonymous");
    reveal_strlit("max_connections");
    reveal_strlit("persistence");
    reveal_strlit("persistence_location");
    reveal_strlit("max_inflight_messages");
    reveal_strlit("max_queued_messages");
    reveal_strlit("true");
    reveal_strlit("false");
    reveal_strlit("file ");
    reveal_strlit("information");
    reveal_strlit("info");
    reveal_strlit("debug");
    reveal_strlit("all");
    reveal_strlit("notice");
    reveal_strlit("warning");
    reveal_strlit("warn");
    reveal_strlit("error");
    assert("file "@ =~= seq!['f', 'i', 'l', 'e', ' ']);
}

proof fn lemma_texts_step(p: Progress, q: Progress, line: Seq<char>)
    requires
        parser::line_effect(p, line) == Ok::<Progress, Seq<char>>(q),
    ensures
        q.config.password_file == (if says(line, "password_file"@) {
            Some(value(line))
        } else {
            p.config.password_file
        }),
        q.config.acl_file == (if says(line, "acl_file"@) {
            Some(value(line))
        } else {
            p.config.acl_file
        }),
        q.config.persistence_location == (if says(line, "persistence_location"@) {
            Some(value(line))
        } else {
            p.config.persistence_location
        }),
        q.config.inference == p.config.inference,
{
    lemma_keys();
}

proof fn lemma_flags_step(p: Progress, q: Progress, line: Seq<char>)
    requires
        parser::line_effect(p, line) == Ok::<Progress, Seq<char>>(q),
    ensures
        q.config.allow_anonymous == (if says(line, "allow_anonymous"@) {
            value(line) != "false"@
        } else {
            p.config.allow_anonymous
        }),
        q.config.persistence == (if says(line, "persistence"@) {
            value(line) == "true"@
        } else {
            p.config.persistence
        }),
{
    lemma_keys();
}

proof fn lemma_numbers_step(p: Progress, q: Progress, line: Seq<char>)
    requires
        parser::line_effect(p, line) == Ok::<Progress, Seq<char>>(q),
    ensures
        q.config.max_connections == (if says(line, "max_connections"@) {
            match number::signed(value(line)) {
                Some(n) => n,
                None => -1int,
            }
        } else {
            p.config.max_connections
        }),
        q.config.max_inflight_messages == (if says(line, "max_inflight_messages"@) {
            match number::unsigned(value(line), usize::MAX as nat) {
                Some(n) => n as usize,
                None => 20usize,
            }
        } else {
            p.config.max_inflight_messages
        }),
        q.config.max_queued_messages == (if says(line, "max_queued_messages"@) {
            match number::unsigned(value(line), usize::MAX as nat) {
                Some(n) => n as usize,
                None => 1000usize,
            }
        } else {
            p.config.max_queued_messages
        }),
{
    lemma_keys();
}

proof fn lemma_log_step(p: Progress, q: Progress, line: Seq<char>)
    requires
        parser::line_effect(p, line) == Ok::<Progress, Seq<char>>(q),
    ensures
        q.config.log_level == (if says(line, "log_level"@) || says(line, "log_type"@) {
            let v = value(line);
            if v == "debug"@ || v == "all"@ {
                LogLevel::Debug
            } else if v == "notice"@ {
                LogLevel::Notice
            } else if v == "warning"@ || v == "warn"@ {
                LogLevel::Warn
            } else if v == "error"@ {
                LogLevel::Error
            } else {
                LogLevel::Info
            }
        } else {
            p.config.log_level
        }),
        q.log_dest_set == (says(line, "log_dest"@) || p.log_dest_set),
        !says(line, "log_dest"@) ==> q.config.log_dest == p.config.log_dest,
        says(line, "log_dest"@) ==> q.config.log_dest == ({
            let kept = if p.log_dest_set {
                p.config.log_dest
            } else {
                Seq::empty()
            };
            let v = value(line);
            if v == "stdout"@ {
                kept.push(LogDestView::Stdout)
            } else if v == "stderr"@ {
                kept.push(LogDestView::Stderr)
            } else if text::starts_with(v, seq!['f', 'i', 'l', 'e', ' ']) {
                kept.push(LogDestView::File(text::trim(v.skip(5))))
            } else {
                kept
            }
        }),
{
    lemma_keys();
}

proof fn lemma_settings(ls: Seq<Seq<char>>)
    ensures
        parser::lines_effect(parser::initial_progress(), ls) matches Ok(p) ==> settings_hold(
            p.config,
            ls,
        ) && p.log_dest_set == (last(ls, "log_dest"@) is Some),
    decreases ls.len(),
{
    if ls.len() > 0 {
        let before = ls.drop_last();
        let line = ls.last();
        lemma_settings(before);
        if let Ok(p) = parser::lines_effect(parser::initial_progress(), before) {
            if let Ok(q) = parser::line_effect(p, line) {
                lemma_texts_step(p, q, line);
                lemma_flags_step(p, q, line);
                lemma_numbers_step(p, q, line);
                lemma_log_step(p, q, line);
                if last(before, "log_dest"@) is None {
                    lemma_no_destinations(before);
                }
                assert(settings_hold(q.config, ls));
            }
        }
    }
}

proof fn lemma_no_destinations(ls: Seq<Seq<char>>)
    requires
        last(ls, "log_dest"@) is None,
    ensures
        destinations_in(ls) == Seq::<LogDestView>::empty(),
    decreases ls.len(),
{
    if ls.len() > 0 {
        lemma_no_destinations(ls.drop_last());
    }
}

/// Every setting of an accepted file is given by the last line with its key
/// alone, wherever the other lines stand; without such a line it has its
/// default. The log destinations are those that the file names, in their order,
/// or the standard output if it has no line for them.
pub proof fn law_each_setting_is_on_its_last_line(content: Seq<char>)
    ensures
        parser::config_of(content) matches Ok(c) ==> settings_hold(c, text::lines(content)),
{
    lemma_settings(text::lines(content));
}

proof fn lemma_last_listener(ls: Seq<Seq<char>>)
    ensures
        -1 <= last_listener(ls) < ls.len(),
    decreases ls.len(),
{
    if ls.len() > 0 {
        lemma_last_listener(ls.drop_last());
    }
}

proof fn lemma_listeners(ls: Seq<Seq<char>>)
    ensures
        parser::lines_effect(parser::initial_progress(), ls) matches Ok(p) ==> parser::declared(p)
            == listeners_in(ls) && (p.current is None <==> last_listener(ls) < 0),
    decreases ls.len(),
{
    lemma_keys();
    if ls.len() > 0 {
        let before = ls.drop_last();
        let line = ls.last();
        lemma_listeners(before);
        lemma_last_listener(before);
        if let Ok(p) = parser::lines_effect(parser::initial_progress(), before) {
            if let Ok(q) = parser::line_effect(p, line) {
                let n = last_listener(before);
                if says(line, "listener"@) {
                    assert(ls.take(ls.len() - 1) =~= before);
                    assert(ls.skip(ls.len() as int) =~= Seq::empty());
                    assert(q.current == Some(listener_from(line, Seq::empty())));
                    assert(parser::declared(q) =~= listeners_in(ls));
                } else if n >= 0 {
                    let under = before.skip(n + 1);
                    let more = ls.skip(n + 1);
                    assert(more.drop_last() =~= under);
                    assert(more.last() == line);
                    assert(ls.take(n) =~= before.take(n));
                    assert(ls[n] == before[n]);
                    assert(p.current == Some(listener_from(before[n], under))) by {
                        assert(parser::declared(p).last() == listeners_in(before).last());
                    }
                    assert(parser::declared(p).drop_last() =~= p.config.listeners);
                    assert(listeners_in(before).drop_last() =~= listeners_in(before.take(n)));
                    assert(q.config.listeners == p.config.listeners);
                    assert(q.current == Some(listener_from(ls[n], more)));
                    assert(parser::declared(q) =~= listeners_in(ls));
                } else {
                    assert(parser::declared(p) =~= Seq::empty());
                    assert(parser::declared(q) =~= Seq::empty());
                }
            }
        }
    } else {
        assert(parser::declared(parser::initial_progress()) =~= listeners_in(ls));
    }
}

/// An accepted file gives one listener for each of its `listener` lines, in
/// their order, with the settings on the lines up to the next one. Without such
/// a line there is one plain listener on port 1883.
pub proof fn law_each_listener_is_on_its_line(content: Seq<char>)
    ensures
        parser::config_of(content) matches Ok(c) ==> ({
            let declared = listeners_in(text::lines(content));
            if declared.len() > 0 {
                c.listeners == declared
            } else {
                &&& c.listeners.len() == 1
                &&& c.listeners[0] == (ListenerView {
                    port: 1883,
                    bind_addr: None,
                    tls: None,
                    websocket: false,
                })
            }
        }),
{
    lemma_listeners(text::lines(content));
}

/// A line is reported exactly if it is read, is no remark, and names a log
/// destination or a directive that is none of the known ones.
pub proof fn law_the_skipped_lines_are_reported(content: Seq<char>, n: nat, note: ConfigNoteView)
    ensures
        ({
            let ls = text::lines(content);
            let line = ls[n - 1];
            notes::notes_on(content).contains((n, note)) <==> {
                &&& 1 <= n <= ls.len()
                &&& parser::config_of(content) matches Err((refused, _)) ==> n < refused
                &&& match note {
                    ConfigNoteView::UnknownLogDest(v) => {
                        &&& says(line, "log_dest"@)
                        &&& value(line) == v
                        &&& v != "stdout"@
                        &&& v != "stderr"@
                        &&& !text::starts_with(v, seq!['f', 'i', 'l', 'e', ' '])
                    },
                    ConfigNoteView::UnknownDirective(key) => {
                        &&& says(line, key)
                        &&& key != "listener"@ && key != "cafile"@ && key != "certfile"@
                        &&& key != "keyfile"@ && key != "websocket"@ && key != "protocol"@
                        &&& key != "password_file"@ && key != "acl_file"@
                        &&& key != "allow_anonymous"@ && key != "log_type"@ && key != "log_level"@
                        &&& key != "log_dest"@ && key != "persistence"@
                        &&& key != "persistence_location"@ && key != "max_connections"@
                        &&& key != "max_inflight_messages"@ && key != "max_queued_messages"@
                    },
                }
            }
        }),
{
    lemma_keys();
    super::laws::law_the_first_refused_line_is_reported(content);
    let ls = text::lines(content);
    let read = notes::lines_read(content);
    text::lemma_noted(read, |line: Seq<char>| notes::note_on(line), n, note);
    if 1 <= n <= read.len() {
        assert(read[n - 1] == ls[n - 1]);
    }
}

} // verus!
