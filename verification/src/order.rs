//! The order of texts, and sorting by it.
use vstd::prelude::*;
use vstd::relations::*;
use vstd::seq_lib::*;
use vstd::string::*;

use crate::text::{self, chars_of, code_of};

verus! {

/// `a` is not after `b` in the order of their code points.
pub open spec fn text_le(a: Seq<char>, b: Seq<char>) -> bool
    decreases a.len(),
{
    if a.len() == 0 {
        true
    } else if b.len() == 0 {
        false
    } else {
        (a[0] as int) < (b[0] as int) || a[0] == b[0] && text_le(a.drop_first(), b.drop_first())
    }
}

/// The order of texts as a relation.
pub open spec fn text_order() -> spec_fn(Seq<char>, Seq<char>) -> bool {
    |a: Seq<char>, b: Seq<char>| text_le(a, b)
}

/// The texts in order.
pub open spec fn sorted(s: Seq<Seq<char>>) -> Seq<Seq<char>> {
    s.sort_by(text_order())
}

/// The texts of a finite set in order.
pub open spec fn in_order(s: Set<Seq<char>>) -> Seq<Seq<char>> {
    s.to_sorted_seq(text_order())
}

proof fn lemma_le_reflexive(a: Seq<char>)
    ensures
        text_le(a, a),
    decreases a.len(),
{
    if a.len() > 0 {
        lemma_le_reflexive(a.drop_first());
    }
}

proof fn lemma_le_antisymmetric(a: Seq<char>, b: Seq<char>)
    requires
        text_le(a, b),
        text_le(b, a),
    ensures
        a == b,
    decreases a.len(),
{
    if a.len() == 0 || b.len() == 0 {
        assert(a =~= b);
    } else {
        lemma_le_antisymmetric(a.drop_first(), b.drop_first());
        assert(a =~= seq![a[0]] + a.drop_first());
        assert(b =~= seq![b[0]] + b.drop_first());
    }
}

proof fn lemma_le_transitive(a: Seq<char>, b: Seq<char>, c: Seq<char>)
    requires
        text_le(a, b),
        text_le(b, c),
    ensures
        text_le(a, c),
    decreases a.len(),
{
    if a.len() > 0 && b.len() > 0 && c.len() > 0 && a[0] == b[0] && b[0] == c[0] {
        lemma_le_transitive(a.drop_first(), b.drop_first(), c.drop_first());
    }
}

proof fn lemma_le_total(a: Seq<char>, b: Seq<char>)
    ensures
        text_le(a, b) || text_le(b, a),
    decreases a.len(),
{
    if a.len() > 0 && b.len() > 0 && a[0] == b[0] {
        lemma_le_total(a.drop_first(), b.drop_first());
    }
}

/// The order of texts is total.
pub proof fn lemma_text_order_is_total()
    ensures
        total_ordering(text_order()),
{
    let r = text_order();
    assert forall|a: Seq<char>| #[trigger] r(a, a) by {
        lemma_le_reflexive(a);
    }
    assert forall|a: Seq<char>, b: Seq<char>| #[trigger] r(a, b) && #[trigger] r(b, a) implies a
        == b by {
        lemma_le_antisymmetric(a, b);
    }
    assert forall|a: Seq<char>, b: Seq<char>, c: Seq<char>| #[trigger]
        r(a, b) && #[trigger] r(b, c) implies r(a, c) by {
        lemma_le_transitive(a, b, c);
    }
    assert forall|a: Seq<char>, b: Seq<char>| #[trigger] r(a, b) || #[trigger] r(b, a) by {
        lemma_le_total(a, b);
    }
}

/// Tells whether `a` is not after `b`.
pub fn not_after(a: &str, b: &str) -> (r: bool)
    ensures
        r == text_le(a@, b@),
{
    let x = chars_of(a);
    let y = chars_of(b);
    let mut i: usize = 0;
    assert(a@.skip(0) =~= a@);
    assert(b@.skip(0) =~= b@);
    while i < x.len() && i < y.len()
        invariant
            i <= x.len(),
            i <= y.len(),
            x@ == a@,
            y@ == b@,
            text_le(a@, b@) == text_le(a@.skip(i as int), b@.skip(i as int)),
        decreases x.len() - i,
    {
        let c = code_of(x[i]);
        let d = code_of(y[i]);
        assert(a@.skip(i as int)[0] == x@[i as int]);
        assert(b@.skip(i as int)[0] == y@[i as int]);
        if c < d {
            return true;
        }
        if d < c {
            return false;
        }
        assert(a@.skip(i as int).drop_first() =~= a@.skip(i + 1));
        assert(b@.skip(i as int).drop_first() =~= b@.skip(i + 1));
        i += 1;
    }
    i == x.len()
}

/// A sorted arrangement of the texts is the sorted one.
pub proof fn lemma_is_sorted(s: Seq<Seq<char>>, t: Seq<Seq<char>>)
    requires
        s.to_multiset() == t.to_multiset(),
        sorted_by(t, text_order()),
    ensures
        t == sorted(s),
{
    lemma_text_order_is_total();
    s.lemma_sort_by_ensures(text_order());
    lemma_sorted_unique(t, sorted(s), text_order());
}

/// Sorting keeps the texts.
pub proof fn lemma_sorted_contains(s: Seq<Seq<char>>, x: Seq<char>)
    ensures
        sorted(s).contains(x) <==> s.contains(x),
{
    broadcast use group_to_multiset_ensures;

    lemma_text_order_is_total();
    s.lemma_sort_by_ensures(text_order());
    assert(s.contains(x) <==> s.to_multiset().count(x) > 0);
    assert(sorted(s).contains(x) <==> sorted(s).to_multiset().count(x) > 0);
}

proof fn lemma_to_seq_has_no_duplicates<A>(s: Set<A>)
    requires
        s.finite(),
    ensures
        s.to_seq().no_duplicates(),
        s.to_seq().to_set() == s,
    decreases s.len(),
{
    s.lemma_to_seq_to_set_id();
    if s.len() > 0 {
        let x = s.choose();
        let rest = s.remove(x).to_seq();
        lemma_to_seq_has_no_duplicates(s.remove(x));
        assert(!s.remove(x).contains(x));
        assert(!rest.contains(x)) by {
            if rest.contains(x) {
                assert(rest.to_set().contains(x));
            }
        }
        let all = s.to_seq();
        assert(all =~= seq![x] + rest);
        assert forall|i: int, j: int| 0 <= i < all.len() && 0 <= j < all.len() && i
            != j implies all[i] != all[j] by {
            if i > 0 {
                assert(all[i] == rest[i - 1]);
                assert(rest.contains(rest[i - 1]));
            }
            if j > 0 {
                assert(all[j] == rest[j - 1]);
                assert(rest.contains(rest[j - 1]));
            }
        }
    }
}

proof fn lemma_same_texts<A>(a: Seq<A>, b: Seq<A>)
    requires
        a.no_duplicates(),
        b.no_duplicates(),
        a.to_set() == b.to_set(),
    ensures
        a.to_multiset() == b.to_multiset(),
{
    broadcast use group_to_multiset_ensures;

    a.lemma_multiset_has_no_duplicates();
    b.lemma_multiset_has_no_duplicates();
    assert forall|x: A| a.to_multiset().count(x) == b.to_multiset().count(x) by {
        assert(a.contains(x) <==> a.to_set().contains(x));
        assert(b.contains(x) <==> b.to_set().contains(x));
        assert(a.contains(x) <==> a.to_multiset().count(x) > 0);
        assert(b.contains(x) <==> b.to_multiset().count(x) > 0);
        assert(a.to_multiset().contains(x) ==> a.to_multiset().count(x) == 1);
        assert(b.to_multiset().contains(x) ==> b.to_multiset().count(x) == 1);
    }
    assert(a.to_multiset() =~= b.to_multiset());
}

/// Texts in order, none twice, are the ordered texts of their set.
pub proof fn lemma_is_in_order(t: Seq<Seq<char>>)
    requires
        sorted_by(t, text_order()),
        t.no_duplicates(),
    ensures
        t == in_order(t.to_set()),
{
    let s = t.to_set();
    seq_to_set_is_finite(t);
    lemma_to_seq_has_no_duplicates(s);
    lemma_same_texts(s.to_seq(), t);
    lemma_is_sorted(s.to_seq(), t);
}

/// The ordered texts of a finite set are its texts.
pub proof fn lemma_in_order_contains(s: Set<Seq<char>>, x: Seq<char>)
    requires
        s.finite(),
    ensures
        in_order(s).contains(x) <==> s.contains(x),
{
    lemma_to_seq_has_no_duplicates(s);
    lemma_sorted_contains(s.to_seq(), x);
    assert(s.to_seq().contains(x) <==> s.to_seq().to_set().contains(x));
}

/// The ordered texts of a finite set are its texts, each once, in order.
pub proof fn lemma_in_order_props(s: Set<Seq<char>>)
    requires
        s.finite(),
    ensures
        in_order(s).no_duplicates(),
        in_order(s).to_set() == s,
        sorted_by(in_order(s), text_order()),
{
    broadcast use group_to_multiset_ensures;

    lemma_text_order_is_total();
    lemma_to_seq_has_no_duplicates(s);
    let u = s.to_seq();
    let t = in_order(s);
    u.lemma_sort_by_ensures(text_order());
    u.lemma_multiset_has_no_duplicates();
    assert(t.to_multiset() == u.to_multiset());
    t.lemma_multiset_has_no_duplicates_conv();
    assert forall|x: Seq<char>| t.to_set().contains(x) <==> s.contains(x) by {
        lemma_in_order_contains(s, x);
        assert(t.to_set().contains(x) <==> t.contains(x));
    }
    assert(t.to_set() =~= s);
}

/// Putting a text behind those that are not after it keeps texts in order.
pub proof fn lemma_insert_sorted(s: Seq<Seq<char>>, j: int, x: Seq<char>)
    requires
        sorted_by(s, text_order()),
        0 <= j <= s.len(),
        forall|k: int| 0 <= k < j ==> text_le(#[trigger] s[k], x),
        j < s.len() ==> !text_le(s[j], x),
    ensures
        sorted_by(s.insert(j, x), text_order()),
{
    let t = s.insert(j, x);
    let r = text_order();
    assert forall|a: int, b: int| 0 <= a < b < t.len() implies #[trigger] r(t[a], t[b]) by {
        if a < j && b > j {
            assert(r(s[a], s[b - 1]));
        } else if a > j {
            assert(r(s[a - 1], s[b - 1]));
        } else if b < j {
            assert(r(s[a], s[b]));
        } else if b == j {
            assert(text_le(s[a], x));
        } else {
            lemma_le_total(s[j], x);
            if b - 1 > j {
                assert(r(s[j], s[b - 1]));
                lemma_le_transitive(x, s[j], s[b - 1]);
            }
        }
    }
}

/// Sorts texts.
pub fn sort_texts(v: &Vec<String>) -> (out: Vec<String>)
    ensures
        text::string_texts(out@) == sorted(text::string_texts(v@)),
{
    let ghost src = text::string_texts(v@);
    let mut out: Vec<String> = Vec::new();
    let mut i: usize = 0;
    assert(src.take(0) =~= text::string_texts(out@));
    while i < v.len()
        invariant
            i <= v.len(),
            src == text::string_texts(v@),
            text::string_texts(out@).to_multiset() == src.take(i as int).to_multiset(),
            sorted_by(text::string_texts(out@), text_order()),
            out.len() == i,
        decreases v.len() - i,
    {
        let ghost before = text::string_texts(out@);
        let ghost x = v@[i as int]@;
        let mut j: usize = 0;
        while j < out.len() && not_after(out[j].as_str(), v[i].as_str())
            invariant
                j <= out.len(),
                i < v.len(),
                x == v@[i as int]@,
                before == text::string_texts(out@),
                forall|k: int| 0 <= k < j ==> text_le(#[trigger] before[k], x),
            decreases out.len() - j,
        {
            assert(before[j as int] == out@[j as int]@);
            j += 1;
        }
        proof {
            if j < before.len() {
                assert(before[j as int] == out@[j as int]@);
            }
            lemma_insert_sorted(before, j as int, x);
        }
        out.insert(j, v[i].clone());
        let ghost after = text::string_texts(out@);
        assert(after =~= before.insert(j as int, x));
        assert(src.take(i + 1) =~= src.take(i as int).push(x));
        proof {
            to_multiset_insert(before, j as int, x);
            to_multiset_build(src.take(i as int), x);
        }
        i += 1;
    }
    assert(src.take(i as int) =~= src);
    proof {
        lemma_is_sorted(src, text::string_texts(out@));
    }
    out
}

} // verus!
