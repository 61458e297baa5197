//! What trimming, splitting and replacing do to every text.
use vstd::prelude::*;

use crate::text;

verus! {

/// Nothing but white space.
pub open spec fn blank(s: Seq<char>) -> bool {
    forall|k: int| 0 <= k < s.len() ==> text::is_white(#[trigger] s[k])
}

/// No white space.
pub open spec fn solid(s: Seq<char>) -> bool {
    forall|k: int| 0 <= k < s.len() ==> !text::is_white(#[trigger] s[k])
}

/// White space is the tab, the line feed and the like, the space, and the
/// further spaces and separators of Unicode; letters, digits and punctuation of
/// ASCII are not.
pub proof fn law_white_space(c: char)
    ensures
        text::is_white(c) <==> {
            ||| c == '\t' || c == '\n' || c == '\u{b}' || c == '\u{c}' || c == '\r' || c == ' '
            ||| c == '\u{85}' || c == '\u{a0}' || c == '\u{1680}' || c == '\u{2028}'
            ||| c == '\u{2029}' || c == '\u{202f}' || c == '\u{205f}' || c == '\u{3000}'
            ||| '\u{2000}' as int <= c as int <= '\u{200a}' as int
        },
{
}

/// Trimming takes away white space at both ends, as much as there is, and
/// nothing else.
pub proof fn law_trimming_takes_white_space_off_the_ends(
    before: Seq<char>,
    s: Seq<char>,
    behind: Seq<char>,
)
    requires
        blank(before),
        blank(behind),
        s.len() > 0 ==> !text::is_white(s[0]) && !text::is_white(s.last()),
    ensures
        text::trim(before + s + behind) == s,
{
    lemma_trim_start(before, s + behind);
    assert(before + s + behind =~= before + (s + behind));
    if s.len() > 0 {
        assert((s + behind)[0] == s[0]);
        assert(text::trim_start(s + behind) == s + behind);
    } else {
        assert(s + behind =~= behind + Seq::empty());
        lemma_trim_start(behind, Seq::empty());
        assert(text::trim_start(s + behind) =~= Seq::empty());
        assert(s =~= Seq::empty());
    }
    lemma_trim_end(s, behind);
}

proof fn lemma_trim_start(before: Seq<char>, s: Seq<char>)
    requires
        blank(before),
    ensures
        text::trim_start(before + s) == text::trim_start(s),
    decreases before.len(),
{
    if before.len() == 0 {
        assert(before + s =~= s);
    } else {
        let t = before.drop_first();
        assert(text::is_white(before[0]));
        assert((before + s).drop_first() =~= t + s);
        assert forall|k: int| 0 <= k < t.len() implies text::is_white(#[trigger] t[k]) by {
            assert(t[k] == before[k + 1]);
        }
        lemma_trim_start(t, s);
    }
}

proof fn lemma_trim_end(s: Seq<char>, behind: Seq<char>)
    requires
        blank(behind),
        s.len() > 0 ==> !text::is_white(s.last()),
    ensures
        text::trim_end(s + behind) == s,
    decreases behind.len(),
{
    if behind.len() == 0 {
        assert(s + behind =~= s);
    } else {
        let t = behind.drop_last();
        assert(text::is_white(behind.last()));
        assert((s + behind).last() == behind.last());
        assert((s + behind).drop_last() =~= s + t);
        assert forall|k: int| 0 <= k < t.len() implies text::is_white(#[trigger] t[k]) by {
            assert(t[k] == behind[k]);
        }
        lemma_trim_end(s, t);
    }
}

/// A line is a remark exactly if it is blank, or `#` is the first character
/// that is not white space.
pub proof fn law_remarks_are_blank_or_start_with_a_hash(before: Seq<char>, rest: Seq<char>)
    requires
        blank(before),
        rest.len() > 0 ==> !text::is_white(rest[0]),
    ensures
        text::is_remark(before + rest) <==> rest.len() == 0 || rest[0] == '#',
{
    lemma_trim_start(before, rest);
    text::lemma_trim_props(before + rest);
    assert(text::trim_start(rest) == rest);
    lemma_trim_end_keeps_start(rest);
}

proof fn lemma_trim_end_keeps_start(s: Seq<char>)
    requires
        s.len() > 0 ==> !text::is_white(s[0]),
    ensures
        s.len() > 0 ==> text::trim_end(s).len() > 0 && text::trim_end(s)[0] == s[0],
    decreases s.len(),
{
    if s.len() > 0 && text::is_white(s.last()) {
        assert(s.len() > 1);
        lemma_trim_end_keeps_start(s.drop_last());
    }
}

/// A line's key is what stands before its first white space, and its value the
/// rest without white space at the ends.
pub proof fn law_the_key_ends_at_the_first_white_space(
    key: Seq<char>,
    gap: char,
    rest: Seq<char>,
)
    requires
        solid(key),
        text::is_white(gap),
    ensures
        text::key_value(key + seq![gap] + rest) == (key, text::trim(rest)),
        text::key_value(key) == (key, Seq::<char>::empty()),
{
    let s = key + seq![gap] + rest;
    lemma_first_white(key, seq![gap] + rest);
    assert(s =~= key + (seq![gap] + rest));
    assert(s.take(key.len() as int) =~= key);
    assert(s.skip(key.len() as int) =~= seq![gap] + rest);
    lemma_trim_start(seq![gap], rest);
    lemma_first_white(key, Seq::empty());
    assert(key + Seq::empty() =~= key);
}

proof fn lemma_first_white(a: Seq<char>, b: Seq<char>)
    requires
        solid(a),
        b.len() > 0 ==> text::is_white(b[0]),
    ensures
        text::first_white(a + b) == a.len(),
    decreases a.len(),
{
    if a.len() == 0 {
        assert(a + b =~= b);
    } else {
        let t = a.drop_first();
        assert(!text::is_white(a[0]));
        assert((a + b).drop_first() =~= t + b);
        assert forall|k: int| 0 <= k < t.len() implies !text::is_white(#[trigger] t[k]) by {
            assert(t[k] == a[k + 1]);
        }
        lemma_first_white(t, b);
    }
}

/// The words of a text are its runs without white space, in their order.
pub proof fn law_words_are_the_runs_without_white_space(
    before: Seq<char>,
    word: Seq<char>,
    rest: Seq<char>,
)
    requires
        blank(before),
        solid(word),
        word.len() > 0,
        rest.len() > 0 ==> text::is_white(rest[0]),
    ensures
        text::words(before + word + rest) == seq![word] + text::words(rest),
        text::words(before) == Seq::<Seq<char>>::empty(),
{
    let s = before + word + rest;
    let t = word + rest;
    assert(s =~= before + t);
    lemma_trim_start(before, t);
    assert(!text::is_white(word[0]));
    assert(t[0] == word[0]);
    assert(text::trim_start(t) == t);
    lemma_first_white(word, rest);
    assert(t.take(word.len() as int) =~= word);
    assert(t.skip(word.len() as int) =~= rest);
    lemma_trim_start(before, Seq::empty());
    assert(before + Seq::empty() =~= before);
}

/// A text without the separator is one piece; otherwise the first piece is what
/// stands before the first separator.
pub proof fn law_pieces_stand_between_separators(a: Seq<char>, sep: char, b: Seq<char>)
    requires
        !a.contains(sep),
    ensures
        text::split(a, sep) == seq![a],
        text::split(a + seq![sep] + b, sep) == seq![a] + text::split(b, sep),
{
    text::lemma_split_single(a, sep);
    text::lemma_split_concat(a, sep, b);
}

/// A line ends at a line feed, or with the text. A carriage return before the
/// line feed belongs to the line end. The empty text has no lines.
pub proof fn law_lines_end_at_line_feeds(a: Seq<char>, b: Seq<char>)
    requires
        !a.contains('\n'),
    ensures
        text::lines(Seq::empty()) == Seq::<Seq<char>>::empty(),
        a.len() > 0 ==> text::lines(a) == seq![a],
        text::lines(a + seq!['\r', '\n'] + b) == seq![a] + text::lines(b),
        a.len() == 0 || a.last() != '\r' ==> text::lines(a + seq!['\n'] + b) == seq![a]
            + text::lines(b),
{
    text::lemma_first_of_props(a, '\n');
    if text::first_of(a, '\n') < a.len() {
        assert(a.contains(a[text::first_of(a, '\n') as int]));
    }
    lemma_line(a, b);
    let r = a + seq!['\r'];
    assert forall|k: int| 0 <= k < r.len() implies r[k] != '\n' by {
        if k < a.len() {
            assert(r[k] == a[k]);
            assert(a.contains(a[k]));
        }
    }
    lemma_line(r, b);
    assert(r + seq!['\n'] + b =~= a + seq!['\r', '\n'] + b);
    assert(r.drop_last() =~= a);
}

proof fn lemma_line(a: Seq<char>, b: Seq<char>)
    requires
        !a.contains('\n'),
    ensures
        text::lines(a + seq!['\n'] + b) == seq![text::without_cr(a)] + text::lines(b),
{
    let s = a + seq!['\n'] + b;
    assert forall|k: int| 0 <= k < a.len() implies s[k] != '\n' by {
        assert(s[k] == a[k]);
        assert(a.contains(a[k]));
    }
    text::lemma_first_of(s, '\n', a.len() as int);
    assert(s.take(a.len() as int) =~= a);
    assert(s.skip(a.len() as int + 1) =~= b);
}

/// Starting with a text is being that text with something behind it.
pub proof fn law_a_prefix_stands_at_the_start(prefix: Seq<char>, rest: Seq<char>, s: Seq<char>)
    ensures
        text::starts_with(prefix + rest, prefix),
        text::starts_with(s, prefix) ==> s == prefix + s.skip(prefix.len() as int),
{
    assert((prefix + rest).take(prefix.len() as int) =~= prefix);
    if text::starts_with(s, prefix) {
        assert(s =~= s.take(prefix.len() as int) + s.skip(prefix.len() as int));
    }
}

/// No occurrence of `pat` begins in `a`, when `pat` follows `a`.
pub open spec fn comes_first(a: Seq<char>, pat: Seq<char>) -> bool {
    forall|k: int|
        0 <= k < a.len() ==> (#[trigger] (a + pat).subrange(k, k + pat.len())) != pat
}

/// Replacing leaves what stands before the first occurrence, puts the new text
/// in its place, and goes on behind it. A text without an occurrence stays as it
/// is.
pub proof fn law_the_first_occurrence_is_replaced(
    a: Seq<char>,
    pat: Seq<char>,
    b: Seq<char>,
    with: Seq<char>,
)
    requires
        pat.len() > 0,
        comes_first(a, pat),
    ensures
        text::replace(a + pat + b, pat, with) == a + with + text::replace(b, pat, with),
    decreases a.len(),
{
    let s = a + pat + b;
    if a.len() == 0 {
        assert(s =~= pat + b);
        assert(s.take(pat.len() as int) =~= pat);
        assert(s.skip(pat.len() as int) =~= b);
        assert(a + with =~= with);
    } else {
        assert((a + pat).subrange(0, pat.len() as int) =~= s.take(pat.len() as int));
        assert((a + pat).subrange(0, 0int + pat.len()) != pat);
        let t = a.drop_first();
        assert forall|k: int| 0 <= k < t.len() implies (#[trigger] (t + pat).subrange(
            k,
            k + pat.len(),
        )) != pat by {
            assert((t + pat).subrange(k, k + pat.len()) =~= (a + pat).subrange(
                k + 1,
                k + 1 + pat.len(),
            ));
        }
        law_the_first_occurrence_is_replaced(t, pat, b, with);
        assert(s.skip(1) =~= t + pat + b);
        assert(s.take(1) + (t + with + text::replace(b, pat, with)) =~= a + with + text::replace(
            b,
            pat,
            with,
        ));
    }
}

/// A text without an occurrence of `pat` stays as it is.
pub proof fn law_without_an_occurrence_nothing_is_replaced(
    s: Seq<char>,
    pat: Seq<char>,
    with: Seq<char>,
)
    requires
        forall|k: int|
            0 <= k <= s.len() - pat.len() ==> #[trigger] s.subrange(k, k + pat.len()) != pat,
    ensures
        text::replace(s, pat, with) == s,
    decreases s.len(),
{
    if pat.len() > 0 && s.len() >= pat.len() {
        assert(s.subrange(0, 0int + pat.len()) =~= s.take(pat.len() as int));
        let t = s.skip(1);
        assert forall|k: int| 0 <= k <= t.len() - pat.len() implies #[trigger] t.subrange(
            k,
            k + pat.len(),
        ) != pat by {
            assert(t.subrange(k, k + pat.len()) =~= s.subrange(k + 1, k + 1 + pat.len()));
        }
        law_without_an_occurrence_nothing_is_replaced(t, pat, with);
        assert(s.take(1) + t =~= s);
    }
}

/// Joined parts stand one after the other, with the separator between them.
pub proof fn law_joined_parts_have_separators_between_them(
    first: Seq<char>,
    rest: Seq<Seq<char>>,
    sep: Seq<char>,
)
    ensures
        text::join(Seq::empty(), sep) == Seq::<char>::empty(),
        text::join(seq![first], sep) == first,
        rest.len() > 0 ==> text::join(seq![first] + rest, sep) == first + sep + text::join(
            rest,
            sep,
        ),
{
    if rest.len() > 0 {
        text::lemma_join_concat(seq![first], rest, sep);
        assert(text::join(seq![first], sep) == first);
    }
}

/// Notes on lines are listed in the order of the lines, and every line is
/// listed at most once.
pub proof fn law_notes_are_in_the_order_of_the_lines<N>(
    ls: Seq<Seq<char>>,
    note: spec_fn(Seq<char>) -> Option<N>,
)
    ensures
        forall|i: int|
            0 <= i < text::noted(ls, note).len() ==> (#[trigger] text::noted(ls, note)[i]).0
                <= ls.len(),
        forall|i: int, j: int|
            0 <= i < j < text::noted(ls, note).len() ==> (#[trigger] text::noted(ls, note)[i]).0
                < (#[trigger] text::noted(ls, note)[j]).0,
    decreases ls.len(),
{
    if ls.len() > 0 {
        let before = text::noted(ls.drop_last(), note);
        let all = text::noted(ls, note);
        law_notes_are_in_the_order_of_the_lines(ls.drop_last(), note);
        assert forall|i: int| 0 <= i < before.len() implies all[i] == before[i] by {}
        assert forall|i: int| 0 <= i < all.len() implies (#[trigger] all[i]).0 <= ls.len() by {
            if i < before.len() {
                assert(before[i].0 <= ls.len() - 1);
            }
        }
        assert forall|i: int, j: int| 0 <= i < j < all.len() implies (#[trigger] all[i]).0
            < (#[trigger] all[j]).0 by {
            assert(before[i].0 <= ls.len() - 1);
            if j < before.len() {
                assert(before[i].0 < before[j].0);
            }
        }
    }
}

} // verus!
