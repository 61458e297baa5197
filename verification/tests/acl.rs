use captain_mast::auth::acl::{skipped_lines, AclNote};
use captain_mast::auth::{topic_matches, AclAccess, AclStore};

#[test]
fn wildcard_hash_matches_any() {
    assert!(topic_matches("#", "a/b/c"));
    assert!(topic_matches("#", "a"));
    assert!(topic_matches("a/#", "a/b/c"));
    assert!(topic_matches("a/#", "a"));
}

#[test]
fn wildcard_plus_matches_single_level() {
    assert!(topic_matches("a/+/c", "a/b/c"));
    assert!(!topic_matches("a/+/c", "a/b/d"));
    assert!(!topic_matches("a/+/c", "a/b/b/c"));
}

#[test]
fn exact_match() {
    assert!(topic_matches("a/b/c", "a/b/c"));
    assert!(!topic_matches("a/b/c", "a/b/d"));
}

#[test]
fn acl_store_open_allows_all() {
    let store = AclStore::open();
    assert!(store.check_read(Some("alice"), "c1", "any/topic"));
    assert!(store.check_write(Some("alice"), "c1", "any/topic"));
    assert!(store.check_read(None, "c1", "any/topic"));
}

#[test]
fn levels_may_be_empty() {
    assert!(topic_matches("", ""));
    assert!(topic_matches("+", ""));
    assert!(topic_matches("/a", "/a"));
    assert!(topic_matches("+/a", "/a"));
    assert!(!topic_matches("a", "a/"));
    assert!(!topic_matches("a/", "a"));
    assert!(!topic_matches("a/+", "a"));
    assert!(topic_matches("a/+", "a/"));
}

#[test]
fn wildcards_are_whole_levels() {
    assert!(!topic_matches("a+", "ab"));
    assert!(!topic_matches("a#", "ab"));
    assert!(topic_matches("a#", "a#"));
    assert!(!topic_matches("b", "+"));
}

#[test]
fn a_hash_is_a_wildcard_at_the_end_only() {
    assert!(!topic_matches("a/#/b", "a/x/y"));
    assert!(!topic_matches("a/#/b", "a/x/b"));
    assert!(topic_matches("a/#/b", "a/#/b"));
    assert!(topic_matches("#/#", "#/x/y"));
    assert!(!topic_matches("#/#", "a"));
}

#[test]
fn access_levels() {
    assert!(AclAccess::Read.allows_read() && !AclAccess::Read.allows_write());
    assert!(!AclAccess::Write.allows_read() && AclAccess::Write.allows_write());
    assert!(AclAccess::ReadWrite.allows_read() && AclAccess::ReadWrite.allows_write());
    assert!(!AclAccess::Deny.allows_read() && !AclAccess::Deny.allows_write());
}

const EXAMPLE: &str = "\
# Global rules
topic read $SYS/#

# Per-user rules
user admin
topic readwrite #

# Pattern rules
pattern write sensors/%u/#
pattern read  commands/%u/%c
";

#[test]
fn the_example_file() {
    let s = AclStore::parse(EXAMPLE);
    assert!(s.check_read(Some("bob"), "c", "$SYS/uptime"));
    assert!(!s.check_write(Some("bob"), "c", "$SYS/uptime"));
    assert!(s.check_read(Some("admin"), "c", "x/y"));
    assert!(s.check_write(Some("admin"), "c", "x/y"));
    assert!(!s.check_read(Some("bob"), "c", "x/y"));
    assert!(s.check_write(Some("bob"), "c", "sensors/bob/t"));
    assert!(!s.check_write(Some("bob"), "c", "sensors/eve/t"));
    assert!(s.check_read(Some("bob"), "c9", "commands/bob/c9"));
    assert!(!s.check_read(Some("bob"), "c9", "commands/bob/c8"));
}

#[test]
fn pattern_rules_go_first() {
    let s = AclStore::parse(EXAMPLE);
    assert!(!s.check_read(Some("admin"), "c", "sensors/admin/t"));
    assert!(s.check_write(Some("admin"), "c", "sensors/admin/t"));
}

#[test]
fn user_rules_go_before_global_ones() {
    let s = AclStore::parse("topic readwrite a\nuser bob\ntopic none a\n");
    assert!(!s.check_read(Some("bob"), "c", "a"));
    assert!(s.check_read(Some("eve"), "c", "a"));
}

#[test]
fn the_first_matching_rule_decides() {
    let s = AclStore::parse("topic none a/b\ntopic read a/#\n");
    assert!(!s.check_read(Some("bob"), "c", "a/b"));
    assert!(s.check_read(Some("bob"), "c", "a/c"));
}

#[test]
fn nothing_is_allowed_by_default() {
    let s = AclStore::parse("");
    assert!(!s.check_read(Some("bob"), "c", "a"));
    assert!(!s.check_write(None, "c", "a"));
}

#[test]
fn rules_of_another_user_do_not_matter() {
    let s = AclStore::parse("user bob\ntopic a\nuser eve\ntopic b\nuser bob\ntopic c\n");
    assert!(s.check_write(Some("bob"), "c", "a"));
    assert!(!s.check_write(Some("bob"), "c", "b"));
    assert!(s.check_write(Some("bob"), "c", "c"));
    assert!(s.check_read(Some("eve"), "c", "b"));
}

#[test]
fn a_bare_user_line_introduces_the_anonymous_rules() {
    let s = AclStore::parse("user\ntopic read public\n");
    assert!(s.check_read(None, "c", "public"));
    assert!(!s.check_write(None, "c", "public"));
    assert!(s.check_read(Some(""), "c", "public"));
    assert!(!s.check_read(Some("bob"), "c", "public"));
}

#[test]
fn topics_after_a_pattern_are_patterns() {
    let s = AclStore::parse("pattern a/%u\ntopic b/%c\nuser bob\ntopic c/%u\n");
    assert!(s.check_read(Some("eve"), "c1", "b/c1"));
    assert!(!s.check_read(Some("bob"), "c1", "c/bob"));
    assert!(s.check_read(Some("bob"), "c1", "c/%u"));
}

#[test]
fn names_are_put_in_one_after_the_other() {
    let s = AclStore::parse("pattern read x/%u\n");
    assert!(s.check_read(Some("%c"), "c1", "x/c1"));
    assert!(!s.check_read(Some("%c"), "c1", "x/%c"));
}

#[test]
fn without_an_access_word_the_whole_text_is_the_filter() {
    let s = AclStore::parse("topic my topic/a \npattern to %u/#\n");
    assert!(s.check_read(Some("bob"), "c", "my topic/a"));
    assert!(s.check_write(Some("bob"), "c", "my topic/a"));
    assert!(!s.check_read(Some("bob"), "c", "my"));
    assert!(s.check_write(Some("bob"), "c", "to bob/x"));
    assert!(!s.check_write(Some("bob"), "c", "to eve/x"));
}

#[test]
fn odd_lines_are_passed_over() {
    let s = AclStore::parse("  # remark\n\n\ttopic\tread\ta b\t\r\ntopic read\ntopic x y\nallow z\n");
    assert!(s.check_read(Some("bob"), "c", "a b"));
    assert!(s.check_write(Some("bob"), "c", "x y"));
    assert!(!s.check_read(Some("bob"), "c", "x"));
    assert!(!s.check_read(Some("bob"), "c", "z"));
    assert!(!s.check_read(Some("bob"), "c", "read"));
}

#[test]
fn skipped_rules_are_reported() {
    let v: Vec<(usize, Option<String>)> =
        skipped_lines("# a\nuser\ntopic\nallow z\n\ntopic read \npattern none\ntopic a\n")
            .into_iter()
            .map(|(line, note)| match note {
                AclNote::EmptyFilter => (line, None),
                AclNote::UnknownDirective(key) => (line, Some(key)),
            })
            .collect();
    assert_eq!(v, vec![(3, None), (4, Some("allow".to_string())), (6, None), (7, None)]);
}
