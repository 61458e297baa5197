//! What holds of every access control list and of every topic filter.
use vstd::prelude::*;

use super::acl::{self, AclAccess, AclProgress, AclView, RuleView};
use crate::text;

verus! {

/// None of the filter's levels is `+`.
pub open spec fn has_no_plus(filter: Seq<char>) -> bool {
    let levels = text::split(filter, '/');
    forall|k: int| 0 <= k < levels.len() ==> #[trigger] levels[k] != "+"@
}

/// The filter's last level is `#`.
pub open spec fn ends_in_hash(filter: Seq<char>) -> bool {
    text::split(filter, '/').last() == "#"@
}

/// The filter `#` matches every topic.
pub proof fn law_hash_matches_every_topic(topic: Seq<char>)
    ensures
        acl::matches_topic("#"@, topic),
{
    reveal_strlit("#");
    text::lemma_split_single("#"@, '/');
    let f = text::split("#"@, '/');
    assert(f.last() == "#"@);
    assert(acl::levels_agree(f, text::split(topic, '/'), 0));
}

/// A filter without wildcards, neither `+` nor a last level `#`, matches exactly
/// the topic that it spells.
pub proof fn law_plain_filter_matches_only_itself(filter: Seq<char>, topic: Seq<char>)
    requires
        has_no_plus(filter),
        !ends_in_hash(filter),
    ensures
        acl::matches_topic(filter, topic) <==> filter == topic,
{
    let f = text::split(filter, '/');
    let t = text::split(topic, '/');
    text::lemma_join_split(filter, '/');
    text::lemma_join_split(topic, '/');
    if acl::matches_topic(filter, topic) {
        assert forall|k: int| 0 <= k < f.len() implies f[k] == t[k] by {
            assert(f[k] != "+"@);
        }
        assert(f =~= t);
    }
    if filter == topic {
        assert(acl::levels_agree(f, t, f.len() as int));
    }
}

/// A filter that does not end in `#` matches only topics with as many levels as
/// it has: `+` stands for exactly one level.
pub proof fn law_plus_stands_for_one_level(filter: Seq<char>, topic: Seq<char>)
    requires
        !ends_in_hash(filter),
        acl::matches_topic(filter, topic),
    ensures
        text::split(filter, '/').len() == text::split(topic, '/').len(),
        forall|k: int|
            0 <= k < text::split(filter, '/').len() ==> (#[trigger] text::split(
                filter,
                '/',
            )[k]) == "+"@ || text::split(filter, '/')[k] == text::split(
                topic,
                '/',
            )[k],
{
}

/// For a `parent` without `+`, the filter `parent/#` matches the parent itself
/// and everything below it, and nothing else.
pub proof fn law_hash_matches_the_parent_and_below(parent: Seq<char>, topic: Seq<char>)
    requires
        has_no_plus(parent),
    ensures
        acl::matches_topic(parent + "/#"@, topic) <==> topic == parent || text::starts_with(
            topic,
            parent + "/"@,
        ),
{
    reveal_strlit("/#");
    reveal_strlit("/");
    reveal_strlit("#");
    let sep = seq!['/'];
    let p = text::split(parent, '/');
    let f = text::split(parent + "/#"@, '/');
    let t = text::split(topic, '/');
    assert(parent + "/#"@ =~= parent + sep + "#"@);
    assert(parent + "/"@ =~= parent + sep);
    text::lemma_split_concat(parent, '/', "#"@);
    text::lemma_split_single("#"@, '/');
    assert(f =~= p.push("#"@));
    text::lemma_join_split(parent, '/');
    text::lemma_join_split(topic, '/');
    let n = p.len() as int;
    assert(f.last() == "#"@);
    if topic == parent {
        assert(acl::levels_agree(f, t, n));
    }
    if text::starts_with(topic, parent + "/"@) {
        let rest = topic.skip(parent.len() as int + 1);
        assert(topic =~= parent + sep + rest) by {
            assert(topic.take(parent.len() as int + 1) =~= parent + sep);
        }
        text::lemma_split_concat(parent, '/', rest);
        text::lemma_join_split(rest, '/');
        assert forall|k: int| 0 <= k < n implies (#[trigger] f[k]) == "+"@ || f[k] == t[k] by {
            assert(t[k] == p[k]);
        }
        assert(acl::levels_agree(f, t, n));
    }
    if acl::matches_topic(parent + "/#"@, topic) {
        assert(t.len() >= n && acl::levels_agree(f, t, n));
        assert forall|k: int| 0 <= k < n implies p[k] == t[k] by {
            assert(p[k] != "+"@);
            assert(f[k] == p[k]);
        }
        if t.len() == n {
            assert(t =~= p);
        } else {
            let below = t.skip(n);
            assert(t =~= p + below);
            text::lemma_join_concat(p, below, sep);
            let rest = text::join(below, sep);
            assert(topic == parent + sep + rest);
            assert(topic.take((parent + sep).len() as int) =~= parent + sep);
        }
    }
}

/// The open list lets everyone read and write every topic.
pub proof fn law_open_list_allows_all(username: Seq<char>, client_id: Seq<char>, topic: Seq<char>)
    ensures
        acl::open_acl().may_read(username, client_id, topic),
        acl::open_acl().may_write(username, client_id, topic),
{
    law_hash_matches_every_topic(topic);
    let rules = acl::open_acl().applicable(username, client_id);
    assert(rules =~= acl::open_acl().global);
    assert(rules[0] == (RuleView { filter: "#"@, access: AclAccess::ReadWrite }));
}

/// What no rule mentions is denied.
pub proof fn law_default_is_deny(
    acl: AclView,
    username: Seq<char>,
    client_id: Seq<char>,
    topic: Seq<char>,
)
    requires
        forall|k: int|
            0 <= k < acl.applicable(username, client_id).len() ==> !acl::matches_topic(
                (#[trigger] acl.applicable(username, client_id)[k]).filter,
                topic,
            ),
    ensures
        !acl.may_read(username, client_id, topic),
        !acl.may_write(username, client_id, topic),
{
    lemma_no_match(acl.applicable(username, client_id), topic);
}

proof fn lemma_no_match(rules: Seq<RuleView>, topic: Seq<char>)
    requires
        forall|k: int|
            0 <= k < rules.len() ==> !acl::matches_topic((#[trigger] rules[k]).filter, topic),
    ensures
        acl::first_match(rules, topic) is None,
    decreases rules.len(),
{
    if rules.len() > 0 {
        let rest = rules.drop_first();
        assert forall|k: int| 0 <= k < rest.len() implies !acl::matches_topic(
            (#[trigger] rest[k]).filter,
            topic,
        ) by {
            assert(rest[k] == rules[k + 1]);
        }
        lemma_no_match(rest, topic);
    }
}

/// A matching pattern rule decides before the user's rules, and a matching
/// user rule before the global ones.
pub proof fn law_patterns_then_user_then_global(
    acl: AclView,
    username: Seq<char>,
    client_id: Seq<char>,
    topic: Seq<char>,
)
    ensures
        acl.decision(username, client_id, topic) == ({
            let by_pattern = acl::first_match(
                acl::completed_all(acl.patterns, username, client_id),
                topic,
            );
            let by_user = acl::first_match(acl.rules_of(username), topic);
            if by_pattern is Some {
                by_pattern
            } else if by_user is Some {
                by_user
            } else {
                acl::first_match(acl.global, topic)
            }
        }),
{
    let p = acl::completed_all(acl.patterns, username, client_id);
    let u = acl.rules_of(username);
    acl::lemma_first_match_concat(p + u, acl.global, topic);
    acl::lemma_first_match_concat(p, u, topic);
}

/// A rule for one user changes nothing for another.
pub proof fn law_user_rules_are_private(
    acl: AclView,
    user: Seq<char>,
    rule: RuleView,
    other: Seq<char>,
    client_id: Seq<char>,
    topic: Seq<char>,
)
    requires
        user != other,
    ensures
        acl::with_user_rule(acl, user, rule).decision(other, client_id, topic) == acl.decision(
            other,
            client_id,
            topic,
        ),
{
    assert(acl::with_user_rule(acl, user, rule).rules_of(other) == acl.rules_of(other));
}

/// A line with a directive that is known.
pub open spec fn is_directive(line: Seq<char>) -> bool {
    let key = text::key_value(text::trim(line)).0;
    !text::is_remark(line) && (key == "user"@ || key == "pattern"@ || key == "topic"@)
}

/// Comments, blank lines and unknown directives do not matter.
pub proof fn law_remarks_do_not_matter(p: AclProgress, ls: Seq<Seq<char>>)
    ensures
        acl::acl_lines_effect(p, ls) == acl::acl_lines_effect(
            p,
            ls.filter(|line: Seq<char>| is_directive(line)),
        ),
    decreases ls.len(),
{
    let keep = |line: Seq<char>| is_directive(line);
    reveal(Seq::filter);
    if ls.len() > 0 {
        law_remarks_do_not_matter(p, ls.drop_last());
        let before = ls.drop_last().filter(keep);
        if keep(ls.last()) {
            assert(ls.filter(keep) == before.push(ls.last()));
            assert(before.push(ls.last()).drop_last() =~= before);
        } else {
            assert(ls.filter(keep) == before);
        }
    }
}

/// A filter that ends in `#` matches exactly the topics that have at least the
/// levels before it, each of which is `+` or the topic's own; any other filter
/// matches exactly the topics with as many levels, each of which is `+` or the
/// topic's own.
pub proof fn law_levels_decide(filter: Seq<char>, topic: Seq<char>)
    ensures
        ({
            let f = text::split(filter, '/');
            let t = text::split(topic, '/');
            let fixed = if f.last() == "#"@ {
                f.len() - 1
            } else {
                f.len() as int
            };
            acl::matches_topic(filter, topic) <==> {
                &&& if f.last() == "#"@ {
                    fixed <= t.len()
                } else {
                    fixed == t.len()
                }
                &&& forall|k: int| 0 <= k < fixed ==> #[trigger] f[k] == "+"@ || f[k] == t[k]
            }
        }),
{
    text::lemma_join_split(filter, '/');
    text::lemma_join_split(topic, '/');
}

/// For every `parent`, with or without `+`: the filter `parent/#` matches
/// exactly the topics whose first levels are let pass by those of `parent`.
pub proof fn law_hash_takes_the_rest(parent: Seq<char>, topic: Seq<char>)
    ensures
        ({
            let p = text::split(parent, '/');
            let t = text::split(topic, '/');
            acl::matches_topic(parent + seq!['/', '#'], topic) <==> {
                &&& p.len() <= t.len()
                &&& forall|k: int| 0 <= k < p.len() ==> #[trigger] p[k] == "+"@ || p[k] == t[k]
            }
        }),
{
    reveal_strlit("#");
    let f = text::split(parent + seq!['/', '#'], '/');
    let p = text::split(parent, '/');
    let t = text::split(topic, '/');
    assert(parent + seq!['/', '#'] =~= parent + seq!['/'] + "#"@);
    text::lemma_split_concat(parent, '/', "#"@);
    text::lemma_split_single("#"@, '/');
    assert(f =~= p.push("#"@));
    text::lemma_join_split(parent, '/');
    law_levels_decide(parent + seq!['/', '#'], topic);
    if forall|k: int| 0 <= k < f.len() - 1 ==> #[trigger] f[k] == "+"@ || f[k] == t[k] {
        assert forall|k: int| 0 <= k < p.len() implies #[trigger] p[k] == "+"@ || p[k] == t[k] by {
            assert(f[k] == p[k]);
        }
    }
    if forall|k: int| 0 <= k < p.len() ==> #[trigger] p[k] == "+"@ || p[k] == t[k] {
        assert forall|k: int| 0 <= k < f.len() - 1 implies #[trigger] f[k] == "+"@ || f[k] == t[k] by {
            assert(f[k] == p[k]);
        }
    }
}

/// Putting `+` in place of a level that is not the last keeps a filter matching
/// what it matched; so it does for the last level, unless that is `#`.
pub proof fn law_plus_matches_no_less(
    filter: Seq<char>,
    wider: Seq<char>,
    at: int,
    topic: Seq<char>,
)
    requires
        acl::matches_topic(filter, topic),
        0 <= at < text::split(filter, '/').len(),
        at == text::split(filter, '/').len() - 1 ==> text::split(filter, '/').last() != "#"@,
        text::split(wider, '/') == text::split(filter, '/').update(at, "+"@),
    ensures
        acl::matches_topic(wider, topic),
{
    reveal_strlit("+");
    reveal_strlit("#");
    assert("+"@[0] != "#"@[0]);
    law_levels_decide(filter, topic);
    law_levels_decide(wider, topic);
}

/// A client may read or write a topic exactly if the first of its rules that
/// matches the topic says so. Its rules are the pattern rules with its names put
/// in, then the rules of its username, then those for everyone.
pub proof fn law_the_first_matching_rule_decides(
    acl: AclView,
    username: Seq<char>,
    client_id: Seq<char>,
    topic: Seq<char>,
    completed: Seq<RuleView>,
    own: Seq<RuleView>,
    rules: Seq<RuleView>,
)
    requires
        completed.len() == acl.patterns.len(),
        forall|i: int|
            0 <= i < completed.len() ==> (#[trigger] completed[i]).access == acl.patterns[i].access
                && completed[i].filter == text::replace(
                text::replace(acl.patterns[i].filter, "%u"@, username),
                "%c"@,
                client_id,
            ),
        acl.users.dom().contains(username) ==> own == acl.users[username],
        !acl.users.dom().contains(username) ==> own == Seq::<RuleView>::empty(),
        rules == completed + own + acl.global,
    ensures
        acl.may_read(username, client_id, topic) <==> exists|n: int|
            {
                &&& 0 <= n < rules.len()
                &&& acl::matches_topic((#[trigger] rules[n]).filter, topic)
                &&& rules[n].access == AclAccess::Read || rules[n].access == AclAccess::ReadWrite
                &&& forall|j: int|
                    0 <= j < n ==> !acl::matches_topic((#[trigger] rules[j]).filter, topic)
            },
        acl.may_write(username, client_id, topic) <==> exists|n: int|
            {
                &&& 0 <= n < rules.len()
                &&& acl::matches_topic((#[trigger] rules[n]).filter, topic)
                &&& rules[n].access == AclAccess::Write || rules[n].access == AclAccess::ReadWrite
                &&& forall|j: int|
                    0 <= j < n ==> !acl::matches_topic((#[trigger] rules[j]).filter, topic)
            },
{
    assert(completed =~= acl::completed_all(acl.patterns, username, client_id));
    assert(rules =~= acl.applicable(username, client_id));
    lemma_first_match(rules, topic);
}

proof fn lemma_first_match(rules: Seq<RuleView>, topic: Seq<char>)
    ensures
        match acl::first_match(rules, topic) {
            Some(a) => exists|n: int|
                {
                    &&& 0 <= n < rules.len()
                    &&& acl::matches_topic((#[trigger] rules[n]).filter, topic)
                    &&& rules[n].access == a
                    &&& forall|j: int|
                        0 <= j < n ==> !acl::matches_topic((#[trigger] rules[j]).filter, topic)
                },
            None => forall|j: int|
                0 <= j < rules.len() ==> !acl::matches_topic((#[trigger] rules[j]).filter, topic),
        },
    decreases rules.len(),
{
    if rules.len() > 0 {
        if acl::matches_topic(rules[0].filter, topic) {
            assert(rules[0].access == rules[0].access);
        } else {
            let rest = rules.drop_first();
            lemma_first_match(rest, topic);
            match acl::first_match(rest, topic) {
                Some(a) => {
                    let n = choose|n: int|
                        {
                            &&& 0 <= n < rest.len()
                            &&& acl::matches_topic((#[trigger] rest[n]).filter, topic)
                            &&& rest[n].access == a
                            &&& forall|j: int|
                                0 <= j < n ==> !acl::matches_topic(
                                    (#[trigger] rest[j]).filter,
                                    topic,
                                )
                        };
                    assert(rules[n + 1] == rest[n]);
                    assert forall|j: int| 0 <= j < n + 1 implies !acl::matches_topic(
                        (#[trigger] rules[j]).filter,
                        topic,
                    ) by {
                        if j > 0 {
                            assert(rest[j - 1] == rules[j]);
                        }
                    }
                },
                None => {
                    assert forall|j: int| 0 <= j < rules.len() implies !acl::matches_topic(
                        (#[trigger] rules[j]).filter,
                        topic,
                    ) by {
                        if j > 0 {
                            assert(rest[j - 1] == rules[j]);
                        }
                    }
                },
            }
        }
    }
}

/// A client without a username is looked up under the empty name, any other
/// under its own.
pub proof fn law_no_username_is_the_empty_name(username: Option<&str>)
    ensures
        username is None ==> acl::name_of(username) == Seq::<char>::empty(),
        username matches Some(u) ==> acl::name_of(username) == u@,
{
}

/// Reading is granted by read and readwrite rules, writing by write and
/// readwrite rules, and nothing by deny rules.
pub proof fn law_what_rules_grant(a: AclAccess)
    ensures
        a.reads() <==> a == AclAccess::Read || a == AclAccess::ReadWrite,
        a.writes() <==> a == AclAccess::Write || a == AclAccess::ReadWrite,
{
}

} // verus!
