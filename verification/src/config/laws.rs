//! What holds of every configuration file.
use vstd::prelude::*;

use super::notes;
use super::parser::{self, ConfigView, Progress};
use crate::number;
use crate::text;

verus! {

/// The message with which a line is refused, if it is: a listener needs a port
/// number, and `allow_anonymous` needs `true` or `false`.
pub open spec fn refusal(line: Seq<char>) -> Option<Seq<char>> {
    let kv = text::key_value(text::trim(line));
    let words = text::words(kv.1);
    if text::is_remark(line) {
        None
    } else if kv.0 == "listener"@ && !(words.len() > 0 && number::unsigned(
        words[0],
        65535,
    ) is Some) {
        Some("Invalid port: '"@ + kv.1 + "'"@)
    } else if kv.0 == "allow_anonymous"@ && kv.1 != "true"@ && kv.1 != "false"@ {
        Some("Expected true/false for allow_anonymous, got '"@ + kv.1 + "'"@)
    } else {
        None
    }
}

proof fn lemma_refusal(p: Progress, line: Seq<char>)
    ensures
        match (parser::line_effect(p, line), refusal(line)) {
            (Ok(_), None) => true,
            (Err(m), Some(w)) => m == w,
            _ => false,
        },
{
    reveal_strlit("listener");
    reveal_strlit("allow_anonymous");
    assert("listener"@.len() != "allow_anonymous"@.len());
    reveal_strlit("cafile");
    reveal_strlit("certfile");
    reveal_strlit("keyfile");
    reveal_strlit("websocket");
    reveal_strlit("protocol");
    assert("certfile"@[0] != "listener"@[0]);
    assert("protocol"@[0] != "listener"@[0]);
}

proof fn lemma_first_refusal(p: Progress, ls: Seq<Seq<char>>)
    ensures
        match parser::lines_effect(p, ls) {
            Ok(_) => forall|k: int| 0 <= k < ls.len() ==> refusal(#[trigger] ls[k]) is None,
            Err((n, m)) => {
                &&& 1 <= n <= ls.len()
                &&& refusal(ls[n - 1]) == Some(m)
                &&& forall|k: int| 0 <= k < n - 1 ==> refusal(#[trigger] ls[k]) is None
            },
        },
    decreases ls.len(),
{
    if ls.len() > 0 {
        let before = ls.drop_last();
        lemma_first_refusal(p, before);
        assert forall|k: int| 0 <= k < before.len() implies before[k] == ls[k] by {}
        match parser::lines_effect(p, before) {
            Ok(q) => {
                lemma_refusal(q, ls.last());
                assert forall|k: int| 0 <= k < ls.len() - 1 implies refusal(
                    #[trigger] ls[k],
                ) is None by {
                    assert(before[k] == ls[k]);
                }
            },
            Err((n, m)) => {
                assert(before[n - 1] == ls[n - 1]);
                assert forall|k: int| 0 <= k < n - 1 implies refusal(#[trigger] ls[k]) is None by {
                    assert(before[k] == ls[k]);
                }
            },
        }
    }
}

/// A file is refused exactly when one of its lines is, whatever the other
/// lines say; the error names the first such line and why.
pub proof fn law_the_first_refused_line_is_reported(content: Seq<char>)
    ensures
        match parser::config_of(content) {
            Ok(_) => forall|k: int|
                0 <= k < text::lines(content).len() ==> refusal(
                    #[trigger] text::lines(content)[k],
                ) is None,
            Err((n, m)) => {
                &&& 1 <= n <= text::lines(content).len()
                &&& refusal(text::lines(content)[n - 1]) == Some(m)
                &&& forall|k: int|
                    0 <= k < n - 1 ==> refusal(#[trigger] text::lines(content)[k]) is None
            },
        },
{
    lemma_first_refusal(parser::initial_progress(), text::lines(content));
}

/// There is always something to listen on.
pub proof fn law_there_is_a_listener(content: Seq<char>)
    ensures
        parser::config_of(content) matches Ok(c) ==> c.listeners.len() > 0,
{
}

proof fn lemma_only_remarks(p: Progress, ls: Seq<Seq<char>>)
    requires
        forall|k: int| 0 <= k < ls.len() ==> text::is_remark(#[trigger] ls[k]),
    ensures
        parser::lines_effect(p, ls) == Ok::<Progress, (nat, Seq<char>)>(p),
    decreases ls.len(),
{
    if ls.len() > 0 {
        let before = ls.drop_last();
        assert forall|k: int| 0 <= k < before.len() implies text::is_remark(#[trigger] before[k]) by {
            assert(before[k] == ls[k]);
        }
        lemma_only_remarks(p, before);
        assert(text::is_remark(ls.last()));
    }
}

/// A file without directives gives the default configuration.
pub proof fn law_no_directive_gives_the_default(content: Seq<char>)
    requires
        forall|k: int|
            0 <= k < text::lines(content).len() ==> text::is_remark(
                #[trigger] text::lines(content)[k],
            ),
    ensures
        parser::config_of(content) == Ok::<ConfigView, (nat, Seq<char>)>(parser::default_config()),
{
    lemma_only_remarks(parser::initial_progress(), text::lines(content));
    assert(parser::finished(parser::initial_progress()) =~= parser::default_config());
}

/// A line with a directive that is known.
pub open spec fn is_directive(line: Seq<char>) -> bool {
    !text::is_remark(line) && notes::is_known(text::key_value(text::trim(line)).0)
}

/// Comments, blank lines and unknown directives do not matter: without them
/// lines have the same effect, or are refused with the same message. Only the
/// number of the refused line shrinks, by as many such lines as stand before it.
pub proof fn law_remarks_do_not_matter(p: Progress, ls: Seq<Seq<char>>)
    ensures
        match (
            parser::lines_effect(p, ls),
            parser::lines_effect(p, ls.filter(|line: Seq<char>| is_directive(line))),
        ) {
            (Ok(a), Ok(b)) => a == b,
            (Err((n, m)), Err((k, w))) => {
                &&& m == w
                &&& n <= ls.len()
                &&& k == ls.take(n as int).filter(|line: Seq<char>| is_directive(line)).len()
            },
            _ => false,
        },
    decreases ls.len(),
{
    let keep = |line: Seq<char>| is_directive(line);
    reveal(Seq::filter);
    if ls.len() > 0 {
        law_remarks_do_not_matter(p, ls.drop_last());
        let before = ls.drop_last().filter(keep);
        if keep(ls.last()) {
            assert(ls.filter(keep) == before.push(ls.last()));
            assert(before.push(ls.last()).drop_last() =~= before);
        } else {
            assert(ls.filter(keep) == before);
        }
        assert(ls.take(ls.len() as int) =~= ls);
        assert forall|n: int| 0 <= n < ls.len() implies #[trigger] ls.drop_last().take(n)
            == ls.take(n) by {
            assert(ls.drop_last().take(n) =~= ls.take(n));
        }
    }
}

/// Of two directives with the same key the last one wins. Only listeners and
/// log destinations can be named more than once.
pub proof fn law_the_last_setting_wins(
    p: Progress,
    key: Seq<char>,
    first: Seq<char>,
    last: Seq<char>,
)
    requires
        key != "listener"@,
        key != "log_dest"@,
        parser::directive(p, key, first) is Ok,
    ensures
        parser::directive(parser::directive(p, key, first)->Ok_0, key, last) == parser::directive(
            p,
            key,
            last,
        ),
{
}

/// A directive about a listener has no effect before the first listener.
pub proof fn law_listener_settings_need_a_listener(p: Progress, key: Seq<char>, value: Seq<char>)
    requires
        p.current is None,
        key == "cafile"@ || key == "certfile"@ || key == "keyfile"@ || key == "websocket"@ || key
            == "protocol"@,
    ensures
        parser::directive(p, key, value) == Ok::<Progress, Seq<char>>(p),
{
    reveal_strlit("listener");
    reveal_strlit("cafile");
    reveal_strlit("certfile");
    reveal_strlit("keyfile");
    reveal_strlit("websocket");
    reveal_strlit("protocol");
    assert("certfile"@[0] != "listener"@[0]);
    assert("protocol"@[0] != "listener"@[0]);
}

} // verus!
