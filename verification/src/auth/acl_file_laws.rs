//! What an access control list says of each line of its file.
use vstd::prelude::*;

use super::acl::{self, AclAccess, AclNoteView, AclProgress, RuleView};
use crate::text;

verus! {

/// The line has the given directive.
pub open spec fn says(line: Seq<char>, key: Seq<char>) -> bool {
    !text::is_remark(line) && text::key_value(text::trim(line)).0 == key
}

/// What stands behind the directive of a line.
pub open spec fn rest(line: Seq<char>) -> Seq<char> {
    text::key_value(text::trim(line)).1
}

/// Line `n` follows a `pattern` line, and no `user` line stands between them.
pub open spec fn follows_pattern(ls: Seq<Seq<char>>, n: int) -> bool {
    exists|j: int|
        {
            &&& 0 <= j < n
            &&& says(#[trigger] ls[j], "pattern"@)
            &&& forall|i: int| j < i < n ==> !says(#[trigger] ls[i], "user"@)
        }
}

/// The last `user` or `pattern` line before line `n` is a `user` line that
/// names `user`.
pub open spec fn follows_user(ls: Seq<Seq<char>>, n: int, user: Seq<char>) -> bool {
    exists|j: int|
        {
            &&& 0 <= j < n
            &&& says(#[trigger] ls[j], "user"@)
            &&& rest(ls[j]) == user
            &&& forall|i: int|
                j < i < n ==> !says(#[trigger] ls[i], "user"@) && !says(ls[i], "pattern"@)
        }
}

/// No `user` or `pattern` line stands before line `n`.
pub open spec fn follows_nothing(ls: Seq<Seq<char>>, n: int) -> bool {
    forall|i: int| 0 <= i < n ==> !says(#[trigger] ls[i], "user"@) && !says(ls[i], "pattern"@)
}

/// The rule behind a directive: an access word and a filter, or a filter alone,
/// which grants everything.
pub open spec fn rule_behind(text: Seq<char>) -> Option<RuleView> {
    let kv = text::key_value(text);
    let word = kv.0 == "read"@ || kv.0 == "write"@ || kv.0 == "readwrite"@ || kv.0 == "none"@;
    let filter = if word {
        kv.1
    } else {
        text
    };
    if filter == Seq::<char>::empty() {
        None
    } else {
        Some(
            RuleView {
                filter,
                access: if kv.0 == "read"@ {
                    AclAccess::Read
                } else if kv.0 == "write"@ {
                    AclAccess::Write
                } else if kv.0 == "none"@ {
                    AclAccess::Deny
                } else {
                    AclAccess::ReadWrite
                },
            },
        )
    }
}

/// The rules on the lines that `chosen` picks by their index, in the order of
/// the lines.
pub open spec fn rules_on(ls: Seq<Seq<char>>, chosen: spec_fn(int) -> bool, n: int) -> Seq<RuleView>
    decreases n,
{
    if n <= 0 {
        Seq::empty()
    } else {
        let before = rules_on(ls, chosen, n - 1);
        match rule_behind(rest(ls[n - 1])) {
            Some(rule) if chosen(n - 1) => before.push(rule),
            _ => before,
        }
    }
}

/// The lines that give pattern rules: the `pattern` lines, and the `topic` lines
/// that follow one.
pub open spec fn gives_pattern(ls: Seq<Seq<char>>) -> spec_fn(int) -> bool {
    |n: int| says(ls[n], "pattern"@) || says(ls[n], "topic"@) && follows_pattern(ls, n)
}

/// The lines that give rules for a user: the `topic` lines under that user.
pub open spec fn gives_user(ls: Seq<Seq<char>>, user: Seq<char>) -> spec_fn(int) -> bool {
    |n: int| says(ls[n], "topic"@) && follows_user(ls, n, user)
}

/// The lines that give rules for everyone: the `topic` lines before any `user`
/// or `pattern` line.
pub open spec fn gives_global(ls: Seq<Seq<char>>) -> spec_fn(int) -> bool {
    |n: int| says(ls[n], "topic"@) && follows_nothing(ls, n)
}

proof fn lemma_words()
    ensures
        "user"@ != "pattern"@,
        "user"@ != "topic"@,
        "pattern"@ != "topic"@,
        "read"@ != "none"@,
        "read"@ != "write"@,
        "write"@ != "none"@,
        "readwrite"@ != "read"@,
        "readwrite"@ != "write"@,
        "readwrite"@ != "none"@,
{
    reveal_strlit("user");
    reveal_strlit("pattern");
    reveal_strlit("topic");
    reveal_strlit("read");
    reveal_strlit("write");
    reveal_strlit("none");
    reveal_strlit("readwrite");
    assert("read"@[0] != "none"@[0]);
    assert("user"@.len() == 4 && "topic"@.len() == 5 && "read"@.len() == 4 && "write"@.len() == 5);
}

/// The text behind `topic` or `pattern` gives the rule that it spells.
pub proof fn law_a_rule_is_what_its_text_says(text: Seq<char>)
    ensures
        acl::rule_of(text) == rule_behind(text),
{
    lemma_words();
    let kv = text::key_value(text);
    if kv.1.len() == 0 {
        assert(kv.1 =~= Seq::<char>::empty());
    }
    if text.len() == 0 {
        assert(text =~= Seq::<char>::empty());
    }
}

proof fn lemma_rules_on_prefix(
    ls: Seq<Seq<char>>,
    a: spec_fn(int) -> bool,
    longer: Seq<Seq<char>>,
    b: spec_fn(int) -> bool,
    n: int,
)
    requires
        n <= ls.len() <= longer.len(),
        forall|i: int| 0 <= i < n ==> #[trigger] ls[i] == longer[i],
        forall|i: int| 0 <= i < n ==> #[trigger] a(i) == b(i),
    ensures
        rules_on(ls, a, n) == rules_on(longer, b, n),
    decreases n,
{
    if n > 0 {
        lemma_rules_on_prefix(ls, a, longer, b, n - 1);
        assert(ls[n - 1] == longer[n - 1]);
        assert(a(n - 1) == b(n - 1));
    }
}

proof fn lemma_follows(before: Seq<Seq<char>>, ls: Seq<Seq<char>>, n: int)
    requires
        ls.drop_last() == before,
        ls.len() > 0,
        0 <= n <= before.len(),
    ensures
        follows_pattern(before, n) == follows_pattern(ls, n),
        forall|u: Seq<char>| #[trigger] follows_user(before, n, u) == follows_user(ls, n, u),
        follows_nothing(before, n) == follows_nothing(ls, n),
{
    assert forall|i: int| 0 <= i < before.len() implies before[i] == ls[i] by {}
    if follows_pattern(before, n) {
        let j = choose|j: int|
            {
                &&& 0 <= j < n
                &&& says(#[trigger] before[j], "pattern"@)
                &&& forall|i: int| j < i < n ==> !says(#[trigger] before[i], "user"@)
            };
        assert(says(ls[j], "pattern"@));
        assert forall|i: int| j < i < n implies !says(#[trigger] ls[i], "user"@) by {
            assert(before[i] == ls[i]);
        }
    }
    if follows_pattern(ls, n) {
        let j = choose|j: int|
            {
                &&& 0 <= j < n
                &&& says(#[trigger] ls[j], "pattern"@)
                &&& forall|i: int| j < i < n ==> !says(#[trigger] ls[i], "user"@)
            };
        assert(says(before[j], "pattern"@));
        assert forall|i: int| j < i < n implies !says(#[trigger] before[i], "user"@) by {
            assert(before[i] == ls[i]);
        }
    }
    assert forall|u: Seq<char>| #[trigger] follows_user(before, n, u) == follows_user(ls, n, u) by {
        if follows_user(before, n, u) {
            let j = choose|j: int|
                {
                    &&& 0 <= j < n
                    &&& says(#[trigger] before[j], "user"@)
                    &&& rest(before[j]) == u
                    &&& forall|i: int|
                        j < i < n ==> !says(#[trigger] before[i], "user"@) && !says(
                            before[i],
                            "pattern"@,
                        )
                };
            assert(says(ls[j], "user"@));
            assert forall|i: int| j < i < n implies !says(#[trigger] ls[i], "user"@) && !says(
                ls[i],
                "pattern"@,
            ) by {
                assert(before[i] == ls[i]);
            }
        }
        if follows_user(ls, n, u) {
            let j = choose|j: int|
                {
                    &&& 0 <= j < n
                    &&& says(#[trigger] ls[j], "user"@)
                    &&& rest(ls[j]) == u
                    &&& forall|i: int|
                        j < i < n ==> !says(#[trigger] ls[i], "user"@) && !says(
                            ls[i],
                            "pattern"@,
                        )
                };
            assert(says(before[j], "user"@));
            assert forall|i: int| j < i < n implies !says(#[trigger] before[i], "user"@) && !says(
                before[i],
                "pattern"@,
            ) by {
                assert(before[i] == ls[i]);
            }
        }
    }
    if follows_nothing(before, n) {
        assert forall|i: int| 0 <= i < n implies !says(#[trigger] ls[i], "user"@) && !says(
            ls[i],
            "pattern"@,
        ) by {
            assert(before[i] == ls[i]);
        }
    }
    if follows_nothing(ls, n) {
        assert forall|i: int| 0 <= i < n implies !says(#[trigger] before[i], "user"@) && !says(
            before[i],
            "pattern"@,
        ) by {
            assert(before[i] == ls[i]);
        }
    }
}

/// What holds behind the last of the lines, given what held before it.
proof fn lemma_follows_last(ls: Seq<Seq<char>>, user: Seq<char>)
    requires
        ls.len() > 0,
    ensures
        ({
            let n = ls.len() - 1;
            let line = ls[n];
            &&& says(line, "user"@) ==> !follows_pattern(ls, n + 1) && !follows_nothing(ls, n + 1)
                && (follows_user(ls, n + 1, user) <==> rest(line) == user)
            &&& says(line, "pattern"@) ==> follows_pattern(ls, n + 1) && !follows_nothing(
                ls,
                n + 1,
            ) && !follows_user(ls, n + 1, user)
            &&& !says(line, "user"@) && !says(line, "pattern"@) ==> {
                &&& follows_pattern(ls, n + 1) == follows_pattern(ls, n)
                &&& follows_nothing(ls, n + 1) == follows_nothing(ls, n)
                &&& follows_user(ls, n + 1, user) == follows_user(ls, n, user)
            }
        }),
{
    lemma_words();
    let n = ls.len() - 1;
    let line = ls[n];
    if says(line, "user"@) {
        if follows_pattern(ls, n + 1) {
            let j = choose|j: int|
                {
                    &&& 0 <= j < n + 1
                    &&& says(#[trigger] ls[j], "pattern"@)
                    &&& forall|i: int| j < i < n + 1 ==> !says(#[trigger] ls[i], "user"@)
                };
            assert(j != n);
            assert(!says(ls[n], "user"@));
        }
        if rest(line) == user {
            assert(says(ls[n], "user"@) && rest(ls[n]) == user);
        }
    }
    if says(line, "pattern"@) {
        assert(says(ls[n], "pattern"@));
    }
    if !says(line, "user"@) && !says(line, "pattern"@) {
        if follows_pattern(ls, n) {
            let j = choose|j: int|
                {
                    &&& 0 <= j < n
                    &&& says(#[trigger] ls[j], "pattern"@)
                    &&& forall|i: int| j < i < n ==> !says(#[trigger] ls[i], "user"@)
                };
            assert(says(ls[j], "pattern"@));
        }
        if follows_user(ls, n, user) {
            let j = choose|j: int|
                {
                    &&& 0 <= j < n
                    &&& says(#[trigger] ls[j], "user"@)
                    &&& rest(ls[j]) == user
                    &&& forall|i: int|
                        j < i < n ==> !says(#[trigger] ls[i], "user"@) && !says(
                            ls[i],
                            "pattern"@,
                        )
                };
            assert(says(ls[j], "user"@));
        }
    }
}

proof fn lemma_rules(ls: Seq<Seq<char>>, user: Seq<char>)
    ensures
        ({
            let p = acl::acl_lines_effect(acl::initial_acl_progress(), ls);
            let n = ls.len() as int;
            &&& p.acl.patterns == rules_on(ls, gives_pattern(ls), n)
            &&& p.acl.global == rules_on(ls, gives_global(ls), n)
            &&& p.acl.rules_of(user) == rules_on(ls, gives_user(ls, user), n)
            &&& p.in_pattern == follows_pattern(ls, n)
            &&& (p.current_user is None && !p.in_pattern) == follows_nothing(ls, n)
            &&& (p.current_user == Some(user)) == follows_user(ls, n, user)
            &&& p.in_pattern ==> p.current_user is None
        }),
    decreases ls.len(),
{
    lemma_words();
    if ls.len() > 0 {
        let before = ls.drop_last();
        let n = before.len() as int;
        let line = ls[n];
        let p = acl::acl_lines_effect(acl::initial_acl_progress(), before);
        let q = acl::acl_lines_effect(acl::initial_acl_progress(), ls);
        lemma_rules(before, user);
        assert forall|i: int| 0 <= i < n implies #[trigger] gives_pattern(before)(i)
            == gives_pattern(ls)(i) by {
            lemma_follows(before, ls, i);
        }
        assert forall|i: int| 0 <= i < n implies #[trigger] gives_global(before)(i) == gives_global(
            ls,
        )(i) by {
            lemma_follows(before, ls, i);
        }
        assert forall|i: int| 0 <= i < n implies #[trigger] gives_user(before, user)(i)
            == gives_user(ls, user)(i) by {
            lemma_follows(before, ls, i);
        }
        lemma_rules_on_prefix(before, gives_pattern(before), ls, gives_pattern(ls), n);
        lemma_rules_on_prefix(before, gives_global(before), ls, gives_global(ls), n);
        lemma_rules_on_prefix(before, gives_user(before, user), ls, gives_user(ls, user), n);
        lemma_follows(before, ls, n);
        lemma_follows_last(ls, user);
        law_a_rule_is_what_its_text_says(rest(line));
        assert(q == acl::acl_line_effect(p, line));
        if says(line, "topic"@) && !p.in_pattern && p.current_user is Some {
            let u = p.current_user->0;
            lemma_rules(before, u);
            lemma_follows(before, ls, n);
            assert(follows_user(before, n, u));
            if follows_nothing(ls, n) {
                assert(follows_nothing(before, n));
            }
        }
    }
}

/// A file gives the rules that stand on its lines, in the order of the lines:
/// the pattern rules are those on the `pattern` lines and on the `topic` lines
/// that follow one; a user's rules are those on the `topic` lines under a `user`
/// line with that name; and the rules for everyone are those on the `topic`
/// lines before all of these.
pub proof fn law_the_rules_of_a_file_are_in_order(content: Seq<char>, user: Seq<char>)
    ensures
        ({
            let ls = text::lines(content);
            let n = ls.len() as int;
            &&& acl::acl_of(content).patterns == rules_on(ls, gives_pattern(ls), n)
            &&& acl::acl_of(content).rules_of(user) == rules_on(ls, gives_user(ls, user), n)
            &&& acl::acl_of(content).global == rules_on(ls, gives_global(ls), n)
        }),
{
    lemma_rules(text::lines(content), user);
}

/// A line is reported exactly if its directive is none of the known ones, or
/// if it should give a rule and gives none.
pub proof fn law_the_skipped_lines_are_reported(content: Seq<char>, n: nat, note: AclNoteView)
    ensures
        ({
            let ls = text::lines(content);
            let line = ls[n - 1];
            acl::acl_notes_on(content).contains((n, note)) <==> {
                &&& 1 <= n <= ls.len()
                &&& !text::is_remark(line)
                &&& match note {
                    AclNoteView::EmptyFilter => (says(line, "topic"@) || says(line, "pattern"@))
                        && rule_behind(rest(line)) is None,
                    AclNoteView::UnknownDirective(key) => says(line, key) && key != "user"@ && key
                        != "pattern"@ && key != "topic"@,
                }
            }
        }),
{
    lemma_words();
    let ls = text::lines(content);
    text::lemma_noted(ls, |line: Seq<char>| acl::acl_note_on(line), n, note);
    if 1 <= n <= ls.len() {
        law_a_rule_is_what_its_text_says(rest(ls[n - 1]));
    }
}

} // verus!
