//! What holds of the order of texts, and of texts in order.
use vstd::prelude::*;
use vstd::relations::*;
use vstd::seq_lib::*;

use crate::order;

verus! {

/// Behind a common start, a text is not after another if it ends there, or if
/// its next character comes earlier.
pub proof fn law_the_first_difference_decides(
    start: Seq<char>,
    c: char,
    rest: Seq<char>,
    d: char,
    other: Seq<char>,
)
    ensures
        order::text_le(start, start + other),
        !order::text_le(start + seq![c] + rest, start),
        c != d ==> (order::text_le(start + seq![c] + rest, start + seq![d] + other) <==> (c as int)
            < d as int),
    decreases start.len(),
{
    let a = start + seq![c] + rest;
    let b = start + seq![d] + other;
    if start.len() > 0 {
        let t = start.drop_first();
        law_the_first_difference_decides(t, c, rest, d, other);
        assert(a.drop_first() =~= t + seq![c] + rest);
        assert(b.drop_first() =~= t + seq![d] + other);
        assert((start + other).drop_first() =~= t + other);
    } else {
        assert(a[0] == c && b[0] == d);
    }
}

/// Sorting keeps every text as often as it occurs, and lets none stand before
/// one that it comes after.
pub proof fn law_sorted_texts_are_in_order(s: Seq<Seq<char>>)
    ensures
        order::sorted(s).to_multiset() == s.to_multiset(),
        forall|i: int, j: int|
            0 <= i < j < order::sorted(s).len() ==> order::text_le(
                #[trigger] order::sorted(s)[i],
                #[trigger] order::sorted(s)[j],
            ),
{
    order::lemma_text_order_is_total();
    s.lemma_sort_by_ensures(order::text_order());
    assert forall|i: int, j: int| 0 <= i < j < order::sorted(s).len() implies order::text_le(
        #[trigger] order::sorted(s)[i],
        #[trigger] order::sorted(s)[j],
    ) by {
        assert(order::text_order()(order::sorted(s)[i], order::sorted(s)[j]));
    }
}

/// The texts of a set in order are its texts, each once, none before one that
/// it comes after.
pub proof fn law_the_texts_of_a_set_are_listed_in_order(s: Set<Seq<char>>)
    requires
        s.finite(),
    ensures
        order::in_order(s).no_duplicates(),
        order::in_order(s).to_set() == s,
        order::in_order(s).len() == s.len(),
        forall|i: int, j: int|
            0 <= i < j < order::in_order(s).len() ==> order::text_le(
                #[trigger] order::in_order(s)[i],
                #[trigger] order::in_order(s)[j],
            ),
{
    order::lemma_in_order_props(s);
    let t = order::in_order(s);
    assert forall|i: int, j: int| 0 <= i < j < t.len() implies order::text_le(
        #[trigger] t[i],
        #[trigger] t[j],
    ) by {
        assert(order::text_order()(t[i], t[j]));
    }
    t.unique_seq_to_set();
}

} // verus!
