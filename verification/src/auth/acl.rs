//! Access control lists: which topics a client may read and write.
use vstd::prelude::*;
use vstd::string::*;

use crate::assoc::{self, find_name};
use crate::text::{
    self, content_of_line, lines_of, replaced, same_text, split_at_each, split_kv,
};

verus! {

/// What a rule grants.
#[derive(Debug, Clone, Copy, PartialEq, Eq, Structural)]
pub enum AclAccess {
    Read,
    Write,
    ReadWrite,
    Deny,
}

impl AclAccess {
    pub open spec fn reads(self) -> bool {
        self is Read || self is ReadWrite
    }

    pub open spec fn writes(self) -> bool {
        self is Write || self is ReadWrite
    }

    pub fn allows_read(&self) -> (b: bool)
        ensures
            b == self.reads(),
    {
        matches!(self, AclAccess::Read | AclAccess::ReadWrite)
    }

    pub fn allows_write(&self) -> (b: bool)
        ensures
            b == self.writes(),
    {
        matches!(self, AclAccess::Write | AclAccess::ReadWrite)
    }
}

/// A topic filter and what it grants. In a pattern rule the filter holds `%u`
/// for the username and `%c` for the client's identifier.
#[derive(Debug, Clone)]
pub struct AclRule {
    pub filter: String,
    pub access: AclAccess,
}

/// What an `AclRule` holds.
#[verifier::ext_equal]
pub struct RuleView {
    pub filter: Seq<char>,
    pub access: AclAccess,
}

impl View for AclRule {
    type V = RuleView;

    open spec fn view(&self) -> RuleView {
        RuleView { filter: self.filter@, access: self.access }
    }
}

/// What a list of rules holds.
pub open spec fn rules_view(rules: Seq<AclRule>) -> Seq<RuleView> {
    Seq::new(rules.len(), |i: int| rules[i]@)
}

/// The first `n` levels of the filter let those of the topic pass.
pub open spec fn levels_agree(filter: Seq<Seq<char>>, topic: Seq<Seq<char>>, n: int) -> bool {
    forall|k: int|
        0 <= k < n ==> (#[trigger] filter[k]) == "+"@ || filter[k] == topic[k]
}

/// A filter matches a topic level by level; a level `+` matches any one level,
/// and a last level `#` matches all that follows. Before the last level, `#` is
/// a level like any other.
pub open spec fn levels_match(filter: Seq<Seq<char>>, topic: Seq<Seq<char>>) -> bool {
    ||| filter.len() == topic.len() && levels_agree(filter, topic, filter.len() as int)
    ||| {
        &&& filter.len() > 0
        &&& filter.last() == "#"@
        &&& filter.len() - 1 <= topic.len()
        &&& levels_agree(filter, topic, filter.len() - 1)
    }
}

/// The filter matches the topic.
pub open spec fn matches_topic(filter: Seq<char>, topic: Seq<char>) -> bool {
    levels_match(text::split(filter, '/'), text::split(topic, '/'))
}

/// MQTT topic filter matching.
/// - `+`  matches exactly one level segment
/// - `#`  matches zero or more remaining levels (must be final segment)
pub fn topic_matches(filter: &str, topic: &str) -> (b: bool)
    ensures
        b == matches_topic(filter@, topic@),
{
    let f = split_at_each(filter, '/');
    let t = split_at_each(topic, '/');
    let ghost fv = text::split(filter@, '/');
    let ghost tv = text::split(topic@, '/');
    assert(forall|k: int| 0 <= k < f.len() ==> fv[k] == f@[k]@);
    assert(forall|k: int| 0 <= k < t.len() ==> tv[k] == t@[k]@);
    let mut i: usize = 0;
    while i < f.len()
        invariant
            i <= f.len(),
            i <= t.len(),
            fv == text::split(filter@, '/'),
            tv == text::split(topic@, '/'),
            fv.len() == f.len(),
            tv.len() == t.len(),
            forall|k: int| 0 <= k < f.len() ==> fv[k] == f@[k]@,
            forall|k: int| 0 <= k < t.len() ==> tv[k] == t@[k]@,
            levels_agree(fv, tv, i as int),
            i == f.len() ==> fv.len() == 0 || fv.last() != "#"@,
        decreases f.len() - i,
    {
        if i == f.len() - 1 && same_text(f[i], "#") {
            assert(fv.last() == "#"@);
            return true;
        }
        if i >= t.len() {
            assert(!levels_match(fv, tv));
            return false;
        }
        if !same_text(f[i], "+") && !same_text(f[i], t[i]) {
            assert(fv[i as int] != "+"@ && fv[i as int] != tv[i as int]);
            return false;
        }
        i += 1;
    }
    f.len() == t.len()
}

/// What an access control list says.
#[verifier::ext_equal]
pub struct AclView {
    /// Rules that no `user` line precedes: they apply to everyone.
    pub global: Seq<RuleView>,
    /// The rules of each user. Those of the empty name are the rules of the
    /// clients without a username.
    pub users: Map<Seq<char>, Seq<RuleView>>,
    /// Rules whose filters are completed with the client's names.
    pub patterns: Seq<RuleView>,
}

spec fn user_entries(users: Seq<(String, Vec<AclRule>)>) -> Seq<(Seq<char>, Seq<RuleView>)> {
    Seq::new(users.len(), |i: int| (users[i].0@, rules_view(users[i].1@)))
}

/// Parsed ACL store.
///
/// The file format:
/// ```text
/// # Global rules (apply to every user)
/// topic read $SYS/#
///
/// # Anonymous rules (clients without a username)
/// user
/// topic read public/#
///
/// # Per-user rules
/// user admin
/// topic readwrite #
///
/// # Pattern rules: %u = username, %c = client_id
/// pattern write sensors/%u/#
/// pattern read  commands/%u/#
/// ```
pub struct AclStore {
    global: Vec<AclRule>,
    users: Vec<(String, Vec<AclRule>)>,
    patterns: Vec<AclRule>,
}

impl View for AclStore {
    type V = AclView;

    closed spec fn view(&self) -> AclView {
        AclView {
            global: rules_view(self.global@),
            users: assoc::as_map(user_entries(self.users@)),
            patterns: rules_view(self.patterns@),
        }
    }
}

/// The access that the first rule whose filter matches the topic grants.
pub open spec fn first_match(rules: Seq<RuleView>, topic: Seq<char>) -> Option<AclAccess>
    decreases rules.len(),
{
    if rules.len() == 0 {
        None
    } else if matches_topic(rules[0].filter, topic) {
        Some(rules[0].access)
    } else {
        first_match(rules.drop_first(), topic)
    }
}

/// A pattern rule for a client: `%u` is replaced first, then `%c`.
pub open spec fn completed(rule: RuleView, username: Seq<char>, client_id: Seq<char>) -> RuleView {
    RuleView {
        filter: text::replace(
            text::replace(rule.filter, "%u"@, username),
            "%c"@,
            client_id,
        ),
        access: rule.access,
    }
}

/// The pattern rules for a client.
pub open spec fn completed_all(
    rules: Seq<RuleView>,
    username: Seq<char>,
    client_id: Seq<char>,
) -> Seq<RuleView> {
    Seq::new(rules.len(), |i: int| completed(rules[i], username, client_id))
}

impl AclView {
    /// The rules of a user, or none.
    pub open spec fn rules_of(self, username: Seq<char>) -> Seq<RuleView> {
        if self.users.dom().contains(username) {
            self.users[username]
        } else {
            Seq::empty()
        }
    }

    /// The rules that apply to a client, those that decide first coming first:
    /// the pattern rules, then the user's own, then the global ones.
    pub open spec fn applicable(self, username: Seq<char>, client_id: Seq<char>) -> Seq<RuleView> {
        completed_all(self.patterns, username, client_id) + self.rules_of(username) + self.global
    }

    /// The access that the list grants to a client on a topic, if a rule
    /// matches.
    pub open spec fn decision(
        self,
        username: Seq<char>,
        client_id: Seq<char>,
        topic: Seq<char>,
    ) -> Option<AclAccess> {
        first_match(self.applicable(username, client_id), topic)
    }

    /// The client may read the topic.
    pub open spec fn may_read(
        self,
        username: Seq<char>,
        client_id: Seq<char>,
        topic: Seq<char>,
    ) -> bool {
        self.decision(username, client_id, topic) matches Some(a) && a.reads()
    }

    /// The client may write to the topic.
    pub open spec fn may_write(
        self,
        username: Seq<char>,
        client_id: Seq<char>,
        topic: Seq<char>,
    ) -> bool {
        self.decision(username, client_id, topic) matches Some(a) && a.writes()
    }
}

/// The name under which a client is looked up: clients without a username
/// have the empty one.
pub open spec fn name_of(username: Option<&str>) -> Seq<char> {
    match username {
        Some(u) => u@,
        None => Seq::empty(),
    }
}

pub proof fn lemma_first_match_concat(a: Seq<RuleView>, b: Seq<RuleView>, topic: Seq<char>)
    ensures
        first_match(a + b, topic) == (match first_match(a, topic) {
            Some(x) => Some(x),
            None => first_match(b, topic),
        }),
    decreases a.len(),
{
    if a.len() == 0 {
        assert(a + b =~= b);
    } else {
        assert((a + b).drop_first() =~= a.drop_first() + b);
        lemma_first_match_concat(a.drop_first(), b, topic);
    }
}

fn first_matching(rules: &Vec<AclRule>, topic: &str) -> (r: Option<AclAccess>)
    ensures
        r == first_match(rules_view(rules@), topic@),
{
    let ghost rv = rules_view(rules@);
    let mut i: usize = 0;
    assert(rv.skip(0) =~= rv);
    while i < rules.len()
        invariant
            i <= rules.len(),
            rv == rules_view(rules@),
            first_match(rv, topic@) == first_match(rv.skip(i as int), topic@),
        decreases rules.len() - i,
    {
        assert(rv.skip(i as int)[0] == rules@[i as int]@);
        if topic_matches(rules[i].filter.as_str(), topic) {
            return Some(rules[i].access);
        }
        assert(rv.skip(i as int).drop_first() =~= rv.skip(i + 1));
        i += 1;
    }
    None
}

fn first_matching_pattern(
    rules: &Vec<AclRule>,
    username: &str,
    client_id: &str,
    topic: &str,
) -> (r: Option<AclAccess>)
    ensures
        r == first_match(completed_all(rules_view(rules@), username@, client_id@), topic@),
{
    let ghost rv = completed_all(rules_view(rules@), username@, client_id@);
    let mut i: usize = 0;
    assert(rv.skip(0) =~= rv);
    proof {
        reveal_strlit("%u");
        reveal_strlit("%c");
    }
    while i < rules.len()
        invariant
            i <= rules.len(),
            rv == completed_all(rules_view(rules@), username@, client_id@),
            first_match(rv, topic@) == first_match(rv.skip(i as int), topic@),
            "%u"@.len() == 2,
            "%c"@.len() == 2,
        decreases rules.len() - i,
    {
        let with_user = replaced(rules[i].filter.as_str(), "%u", username);
        let resolved = replaced(with_user.as_str(), "%c", client_id);
        assert(rv.skip(i as int)[0] == completed(rules@[i as int]@, username@, client_id@));
        if topic_matches(resolved.as_str(), topic) {
            return Some(rules[i].access);
        }
        assert(rv.skip(i as int).drop_first() =~= rv.skip(i + 1));
        i += 1;
    }
    None
}

impl AclStore {
    #[verifier::type_invariant]
    spec fn inv(self) -> bool {
        assoc::distinct(user_entries(self.users@))
    }

    /// Open ACL: every topic is readable and writable by everyone.
    pub fn open() -> (s: AclStore)
        ensures
            s@ == open_acl(),
    {
        let mut global: Vec<AclRule> = Vec::new();
        global.push(AclRule { filter: "#".to_string(), access: AclAccess::ReadWrite });
        let s = AclStore { global, users: Vec::new(), patterns: Vec::new() };
        assert(s@ =~= open_acl());
        s
    }

    fn check(&self, username: Option<&str>, client_id: &str, topic: &str) -> (r: Option<AclAccess>)
        ensures
            r == self@.decision(name_of(username), client_id@, topic@),
    {
        let name = match username {
            Some(u) => u,
            None => "",
        };
        proof {
            use_type_invariant(self);
            reveal_strlit("");
            assert(name@ =~= name_of(username));
            let p = completed_all(self@.patterns, name@, client_id@);
            let u = self@.rules_of(name@);
            lemma_first_match_concat(p + u, self@.global, topic@);
            lemma_first_match_concat(p, u, topic@);
        }
        let by_pattern = first_matching_pattern(&self.patterns, name, client_id, topic);
        if by_pattern.is_some() {
            return by_pattern;
        }
        match find_name(&self.users, name) {
            Some(i) => {
                proof {
                    let e = user_entries(self.users@);
                    assert(e[i as int].0 == name@);
                    assoc::lemma_entry(e, i as int);
                }
                let by_user = first_matching(&self.users[i].1, topic);
                if by_user.is_some() {
                    return by_user;
                }
            },
            None => {
                assert(!assoc::has_name(user_entries(self.users@), name@));
            },
        }
        first_matching(&self.global, topic)
    }

    /// Tells whether a client may read a topic.
    pub fn check_read(&self, username: Option<&str>, client_id: &str, topic: &str) -> (b: bool)
        ensures
            b == self@.may_read(name_of(username), client_id@, topic@),
    {
        match self.check(username, client_id, topic) {
            Some(access) => access.allows_read(),
            None => false,
        }
    }

    /// Tells whether a client may write to a topic.
    pub fn check_write(&self, username: Option<&str>, client_id: &str, topic: &str) -> (b: bool)
        ensures
            b == self@.may_write(name_of(username), client_id@, topic@),
    {
        match self.check(username, client_id, topic) {
            Some(access) => access.allows_write(),
            None => false,
        }
    }
}

/// The list that lets everyone read and write every topic.
pub open spec fn open_acl() -> AclView {
    AclView {
        global: seq![RuleView { filter: "#"@, access: AclAccess::ReadWrite }],
        users: Map::empty(),
        patterns: Seq::empty(),
    }
}

/// The rule that the text behind `topic` or `pattern` gives: an access word
/// and a filter, or a filter alone, which is the whole text and grants
/// everything. Without a filter there is no rule.
pub open spec fn rule_of(rest: Seq<char>) -> Option<RuleView> {
    let kv = text::key_value(rest);
    let rule = if kv.0 == "read"@ {
        RuleView { filter: kv.1, access: AclAccess::Read }
    } else if kv.0 == "write"@ {
        RuleView { filter: kv.1, access: AclAccess::Write }
    } else if kv.0 == "readwrite"@ {
        RuleView { filter: kv.1, access: AclAccess::ReadWrite }
    } else if kv.0 == "none"@ {
        RuleView { filter: kv.1, access: AclAccess::Deny }
    } else {
        RuleView { filter: rest, access: AclAccess::ReadWrite }
    };
    if rule.filter.len() == 0 {
        None
    } else {
        Some(rule)
    }
}

/// Where reading an access control list stands: the rules so far, the user
/// whose rules follow, and whether pattern rules follow.
#[verifier::ext_equal]
pub struct AclProgress {
    pub acl: AclView,
    pub current_user: Option<Seq<char>>,
    pub in_pattern: bool,
}

pub open spec fn empty_acl() -> AclView {
    AclView { global: Seq::empty(), users: Map::empty(), patterns: Seq::empty() }
}

/// Before the first line.
pub open spec fn initial_acl_progress() -> AclProgress {
    AclProgress { acl: empty_acl(), current_user: None, in_pattern: false }
}

/// `acl` with one more pattern rule.
pub open spec fn with_pattern(acl: AclView, rule: RuleView) -> AclView {
    AclView { patterns: acl.patterns.push(rule), ..acl }
}

/// `acl` with one more rule for a user.
pub open spec fn with_user_rule(acl: AclView, user: Seq<char>, rule: RuleView) -> AclView {
    AclView { users: acl.users.insert(user, acl.rules_of(user).push(rule)), ..acl }
}

/// What one line of the file does: `user` names the user whose rules follow,
/// `pattern` gives a pattern rule and lets the following `topic` lines give
/// pattern rules too, and `topic` gives a rule for the user named last, or for
/// everyone. Other lines do nothing.
pub open spec fn acl_line_effect(p: AclProgress, line: Seq<char>) -> AclProgress {
    let kv = text::key_value(text::trim(line));
    if text::is_remark(line) {
        p
    } else if kv.0 == "user"@ {
        AclProgress { current_user: Some(kv.1), in_pattern: false, ..p }
    } else if kv.0 == "pattern"@ {
        AclProgress {
            acl: match rule_of(kv.1) {
                Some(rule) => with_pattern(p.acl, rule),
                None => p.acl,
            },
            current_user: None,
            in_pattern: true,
        }
    } else if kv.0 == "topic"@ {
        AclProgress {
            acl: match rule_of(kv.1) {
                Some(rule) => if p.in_pattern {
                    with_pattern(p.acl, rule)
                } else {
                    match p.current_user {
                        Some(user) => with_user_rule(p.acl, user, rule),
                        None => AclView { global: p.acl.global.push(rule), ..p.acl },
                    }
                },
                None => p.acl,
            },
            ..p
        }
    } else {
        p
    }
}

/// What lines do, one after the other.
pub open spec fn acl_lines_effect(p: AclProgress, ls: Seq<Seq<char>>) -> AclProgress
    decreases ls.len(),
{
    if ls.len() == 0 {
        p
    } else {
        acl_line_effect(acl_lines_effect(p, ls.drop_last()), ls.last())
    }
}

/// What a file says.
pub open spec fn acl_of(content: Seq<char>) -> AclView {
    acl_lines_effect(initial_acl_progress(), text::lines(content)).acl
}

fn parse_topic_line(rest: &str) -> (r: Option<AclRule>)
    ensures
        match r {
            Some(rule) => rule_of(rest@) == Some(rule@),
            None => rule_of(rest@) is None,
        },
{
    let (first, second) = split_kv(rest);
    let (access, filter) = if same_text(first, "read") {
        (AclAccess::Read, second)
    } else if same_text(first, "write") {
        (AclAccess::Write, second)
    } else if same_text(first, "readwrite") {
        (AclAccess::ReadWrite, second)
    } else if same_text(first, "none") {
        (AclAccess::Deny, second)
    } else {
        (AclAccess::ReadWrite, rest)
    };
    if filter.is_empty() {
        None
    } else {
        Some(AclRule { filter: filter.to_string(), access })
    }
}

proof fn lemma_rules_push(rules: Seq<AclRule>, rule: AclRule)
    ensures
        rules_view(rules.push(rule)) == rules_view(rules).push(rule@),
{
    assert(rules_view(rules.push(rule)) =~= rules_view(rules).push(rule@));
}

fn add_user_rule(users: &mut Vec<(String, Vec<AclRule>)>, user: &str, rule: AclRule)
    requires
        assoc::distinct(user_entries(old(users)@)),
    ensures
        assoc::distinct(user_entries(final(users)@)),
        assoc::as_map(user_entries(final(users)@)) == ({
            let before = assoc::as_map(user_entries(old(users)@));
            let rules = if before.dom().contains(user@) {
                before[user@]
            } else {
                Seq::empty()
            };
            before.insert(user@, rules.push(rule@))
        }),
{
    let ghost e = user_entries(users@);
    match find_name(users, user) {
        Some(i) => {
            proof {
                assert(e[i as int].0 == user@);
                assoc::lemma_entry(e, i as int);
                lemma_rules_push(users@[i as int].1@, rule);
                assoc::lemma_update(e, i as int, e[i as int].1.push(rule@));
            }
            let (name, rules) = users.remove(i);
            let mut rules = rules;
            rules.push(rule);
            users.insert(i, (name, rules));
            assert(user_entries(users@) =~= e.update(
                i as int,
                (e[i as int].0, e[i as int].1.push(rule@)),
            ));
        },
        None => {
            proof {
                assert(!assoc::has_name(e, user@));
                lemma_rules_push(Seq::empty(), rule);
                assoc::lemma_push(e, user@, Seq::empty().push(rule@));
            }
            let mut rules: Vec<AclRule> = Vec::new();
            rules.push(rule);
            assert(rules_view(rules@) =~= Seq::empty().push(rule@));
            users.push((user.to_string(), rules));
            assert(user_entries(users@) =~= e.push((user@, Seq::empty().push(rule@))));
        },
    }
}

impl AclStore {
    /// Reads an access control list.
    pub fn parse(content: &str) -> (s: AclStore)
        ensures
            s@ == acl_of(content@),
    {
        let ls = lines_of(content);
        let ghost texts = text::lines(content@);
        let mut global: Vec<AclRule> = Vec::new();
        let mut users: Vec<(String, Vec<AclRule>)> = Vec::new();
        let mut patterns: Vec<AclRule> = Vec::new();
        let mut current_user: Option<&str> = None;
        let mut in_pattern = false;
        let mut i: usize = 0;
        assert(texts.take(0) =~= Seq::empty());
        assert(assoc::as_map(user_entries(users@)) =~= Map::empty());
        while i < ls.len()
            invariant
                i <= ls.len(),
                text::texts(ls@) == texts,
                assoc::distinct(user_entries(users@)),
                acl_lines_effect(initial_acl_progress(), texts.take(i as int)) == (AclProgress {
                    acl: AclView {
                        global: rules_view(global@),
                        users: assoc::as_map(user_entries(users@)),
                        patterns: rules_view(patterns@),
                    },
                    current_user: match current_user {
                        Some(u) => Some(u@),
                        None => None,
                    },
                    in_pattern,
                }),
            decreases ls.len() - i,
        {
            assert(texts[i as int] == ls@[i as int]@);
            assert(texts.take(i + 1).drop_last() =~= texts.take(i as int));
            match content_of_line(ls[i]) {
                None => {},
                Some(line) => {
                    let (kw, rest) = split_kv(line);
                    if same_text(kw, "user") {
                        in_pattern = false;
                        current_user = Some(rest);
                    } else if same_text(kw, "pattern") {
                        in_pattern = true;
                        current_user = None;
                        if let Some(rule) = parse_topic_line(rest) {
                            proof {
                                lemma_rules_push(patterns@, rule);
                            }
                            patterns.push(rule);
                        }
                    } else if same_text(kw, "topic") {
                        if let Some(rule) = parse_topic_line(rest) {
                            if in_pattern {
                                proof {
                                    lemma_rules_push(patterns@, rule);
                                }
                                patterns.push(rule);
                            } else {
                                match current_user {
                                    None => {
                                        proof {
                                            lemma_rules_push(global@, rule);
                                        }
                                        global.push(rule);
                                    },
                                    Some(u) => add_user_rule(&mut users, u, rule),
                                }
                            }
                        }
                    }
                },
            }
            i += 1;
        }
        assert(texts.take(i as int) =~= texts);
        AclStore { global, users, patterns }
    }
}

/// Why a line of an access control list is passed over.
#[derive(Debug)]
pub enum AclNote {
    /// Its rule has no filter.
    EmptyFilter,
    /// Its directive is not known.
    UnknownDirective(String),
}

/// What an `AclNote` holds.
#[verifier::ext_equal]
pub enum AclNoteView {
    EmptyFilter,
    UnknownDirective(Seq<char>),
}

impl View for AclNote {
    type V = AclNoteView;

    open spec fn view(&self) -> AclNoteView {
        match self {
            AclNote::EmptyFilter => AclNoteView::EmptyFilter,
            AclNote::UnknownDirective(key) => AclNoteView::UnknownDirective(key@),
        }
    }
}

/// What a list of notes holds.
pub open spec fn acl_notes_view(v: Seq<(usize, AclNote)>) -> Seq<(nat, AclNoteView)> {
    Seq::new(v.len(), |i: int| (v[i].0 as nat, v[i].1@))
}

/// Why the line is passed over, if it is and is no remark.
pub open spec fn acl_note_on(line: Seq<char>) -> Option<AclNoteView> {
    let kv = text::key_value(text::trim(line));
    if text::is_remark(line) || kv.0 == "user"@ {
        None
    } else if kv.0 == "pattern"@ || kv.0 == "topic"@ {
        if rule_of(kv.1) is None {
            Some(AclNoteView::EmptyFilter)
        } else {
            None
        }
    } else {
        Some(AclNoteView::UnknownDirective(kv.0))
    }
}

/// The notes on a file, each with the number of its line.
pub open spec fn acl_notes_on(content: Seq<char>) -> Seq<(nat, AclNoteView)> {
    text::noted(text::lines(content), |line: Seq<char>| acl_note_on(line))
}

fn acl_note_of(raw: &str) -> (r: Option<AclNote>)
    ensures
        match r {
            Some(note) => acl_note_on(raw@) == Some(note@),
            None => acl_note_on(raw@) is None,
        },
{
    match content_of_line(raw) {
        None => None,
        Some(line) => {
            let (kw, rest) = split_kv(line);
            if same_text(kw, "user") {
                None
            } else if same_text(kw, "pattern") || same_text(kw, "topic") {
                if parse_topic_line(rest).is_none() {
                    Some(AclNote::EmptyFilter)
                } else {
                    None
                }
            } else {
                Some(AclNote::UnknownDirective(kw.to_string()))
            }
        },
    }
}

/// The lines of an access control list that are passed over without being
/// remarks, in their order, each with its number.
pub fn skipped_lines(content: &str) -> (v: Vec<(usize, AclNote)>)
    ensures
        acl_notes_view(v@) == acl_notes_on(content@),
{
    let ls = lines_of(content);
    let ghost texts = text::lines(content@);
    let ghost f = |line: Seq<char>| acl_note_on(line);
    let mut v: Vec<(usize, AclNote)> = Vec::new();
    let mut i: usize = 0;
    assert(acl_notes_view(v@) =~= text::noted(texts.take(0), f));
    while i < ls.len()
        invariant
            i <= ls.len(),
            text::texts(ls@) == texts,
            f == (|line: Seq<char>| acl_note_on(line)),
            acl_notes_view(v@) == text::noted(texts.take(i as int), f),
        decreases ls.len() - i,
    {
        let ghost before = acl_notes_view(v@);
        assert(texts[i as int] == ls@[i as int]@);
        assert(texts.take(i + 1).drop_last() =~= texts.take(i as int));
        if let Some(note) = acl_note_of(ls[i]) {
            let ghost one = ((i + 1) as nat, note@);
            v.push((i + 1, note));
            assert(acl_notes_view(v@) =~= before.push(one));
        }
        i += 1;
    }
    assert(texts.take(i as int) =~= texts);
    v
}

} // verus!
