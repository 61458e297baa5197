use captain_mast::number::{decimal_string, read_signed, read_unsigned};
use captain_mast::order::{not_after, sort_texts};
use captain_mast::text::{
    content_of_line, has_prefix, joined, lines_of, replaced, split_at_each, split_kv, trimmed,
    words_of,
};

#[test]
fn texts_are_trimmed() {
    assert_eq!(trimmed(" \t a b\u{a0}\r\n"), "a b");
    assert_eq!(trimmed("\u{3000}"), "");
    assert_eq!(trimmed("é"), "é");
}

#[test]
fn keys_and_values() {
    assert_eq!(split_kv("key  a b "), ("key", "a b"));
    assert_eq!(split_kv("key"), ("key", ""));
    assert_eq!(split_kv("clé\u{2003}été"), ("clé", "été"));
}

#[test]
fn lines_and_words() {
    assert_eq!(lines_of("a\r\nb\n\nc"), vec!["a", "b", "", "c"]);
    assert_eq!(lines_of("a\n"), vec!["a"]);
    assert!(lines_of("").is_empty());
    assert_eq!(words_of("  a\tbc  "), vec!["a", "bc"]);
    assert_eq!(split_at_each("/a//", '/'), vec!["", "a", "", ""]);
    assert_eq!(split_at_each("", '/'), vec![""]);
    assert_eq!(content_of_line("  a "), Some("a"));
    assert_eq!(content_of_line("  # a "), None);
    assert_eq!(content_of_line(" \t"), None);
}

#[test]
fn texts_are_put_together() {
    assert_eq!(replaced("a%u%u%", "%u", "x%u"), "ax%ux%u%");
    assert_eq!(replaced("aaa", "aa", "b"), "ba");
    assert!(has_prefix("file x", "file "));
    assert!(!has_prefix("fil", "file "));
    assert_eq!(joined(&vec!["a".to_string(), "b".to_string()], ", "), "a, b");
    assert_eq!(joined(&Vec::new(), ", "), "");
}

#[test]
fn numbers_are_read_and_written() {
    assert_eq!(decimal_string(0), "0");
    assert_eq!(decimal_string(u64::MAX), "18446744073709551615");
    assert_eq!(read_unsigned("65535", 65535), Some(65535));
    assert_eq!(read_unsigned("65536", 65535), None);
    assert_eq!(read_unsigned("+0007", 65535), Some(7));
    assert_eq!(read_unsigned("", 65535), None);
    assert_eq!(read_unsigned("+", 65535), None);
    assert_eq!(read_unsigned("-0", 65535), None);
    assert_eq!(read_unsigned("18446744073709551616", u64::MAX), None);
    assert_eq!(read_signed("-9223372036854775808"), Some(i64::MIN));
    assert_eq!(read_signed("-9223372036854775809"), None);
    assert_eq!(read_signed("9223372036854775808"), None);
    assert_eq!(read_signed("-"), None);
}

#[test]
fn a_written_number_is_read_back() {
    for n in [0, 7, 10, 1883, u64::MAX] {
        assert_eq!(read_unsigned(&decimal_string(n), u64::MAX), Some(n));
    }
}

#[test]
fn texts_are_ordered_by_their_characters() {
    assert!(not_after("", "a"));
    assert!(not_after("a", "a"));
    assert!(not_after("a", "ab"));
    assert!(!not_after("b", "ab"));
    assert!(not_after("z", "é"));
    let v = vec!["é".to_string(), "b".to_string(), "".to_string(), "b".to_string()];
    assert_eq!(sort_texts(&v), vec!["", "b", "b", "é"]);
}
