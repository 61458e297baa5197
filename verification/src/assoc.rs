//! Lists of named entries in which no name occurs twice, and the maps that
//! they stand for.
use vstd::prelude::*;
use vstd::seq_lib::*;
use vstd::string::*;

use crate::text::same_text;

verus! {

/// No name occurs twice.
pub open spec fn distinct<V>(s: Seq<(Seq<char>, V)>) -> bool {
    forall|i: int, j: int| 0 <= i < j < s.len() ==> s[i].0 != s[j].0
}

/// `name` occurs in the list.
pub open spec fn has_name<V>(s: Seq<(Seq<char>, V)>, name: Seq<char>) -> bool {
    exists|i: int| 0 <= i < s.len() && s[i].0 == name
}

/// Where `name` stands in a list in which it occurs.
pub open spec fn place_of<V>(s: Seq<(Seq<char>, V)>, name: Seq<char>) -> int {
    choose|i: int| 0 <= i < s.len() && s[i].0 == name
}

/// The map from the names to what they are listed with.
pub open spec fn as_map<V>(s: Seq<(Seq<char>, V)>) -> Map<Seq<char>, V> {
    Map::new(|name: Seq<char>| has_name(s, name), |name: Seq<char>| s[place_of(s, name)].1)
}

/// The names of the list, in the list's order.
pub open spec fn names<V>(s: Seq<(Seq<char>, V)>) -> Seq<Seq<char>> {
    Seq::new(s.len(), |i: int| s[i].0)
}

pub proof fn lemma_entry<V>(s: Seq<(Seq<char>, V)>, i: int)
    requires
        distinct(s),
        0 <= i < s.len(),
    ensures
        as_map(s).dom().contains(s[i].0),
        as_map(s)[s[i].0] == s[i].1,
{
    let p = place_of(s, s[i].0);
    assert(s[p].0 == s[i].0);
    if p < i {
        assert(s[p].0 != s[i].0);
    } else if i < p {
        assert(s[i].0 != s[p].0);
    }
}

pub proof fn lemma_push<V>(s: Seq<(Seq<char>, V)>, name: Seq<char>, v: V)
    requires
        distinct(s),
        !has_name(s, name),
    ensures
        distinct(s.push((name, v))),
        as_map(s.push((name, v))) == as_map(s).insert(name, v),
{
    let t = s.push((name, v));
    assert forall|i: int, j: int| 0 <= i < j < t.len() implies t[i].0 != t[j].0 by {
        if j == s.len() {
            assert(s[i].0 != name);
        }
    }
    assert forall|k: Seq<char>| has_name(t, k) == (has_name(s, k) || k == name) by {
        if has_name(s, k) {
            let i = place_of(s, k);
            assert(t[i].0 == k);
        }
        if k == name {
            assert(t[s.len() as int].0 == k);
        }
        if has_name(t, k) && k != name {
            let i = place_of(t, k);
            assert(s[i].0 == k);
        }
    }
    assert forall|k: Seq<char>| has_name(t, k) implies as_map(t)[k] == as_map(s).insert(name, v)[k] by {
        let i = place_of(t, k);
        lemma_entry(t, i);
        if i < s.len() {
            lemma_entry(s, i);
        }
    }
    assert(as_map(t) =~= as_map(s).insert(name, v));
}

pub proof fn lemma_update<V>(s: Seq<(Seq<char>, V)>, i: int, v: V)
    requires
        distinct(s),
        0 <= i < s.len(),
    ensures
        distinct(s.update(i, (s[i].0, v))),
        as_map(s.update(i, (s[i].0, v))) == as_map(s).insert(s[i].0, v),
{
    let t = s.update(i, (s[i].0, v));
    assert forall|k: int| 0 <= k < s.len() implies t[k].0 == s[k].0 by {}
    assert forall|k: Seq<char>| has_name(t, k) == has_name(s, k) by {
        if has_name(s, k) {
            assert(t[place_of(s, k)].0 == k);
        }
        if has_name(t, k) {
            assert(s[place_of(t, k)].0 == k);
        }
    }
    assert(s[i].0 == s[i].0 && has_name(s, s[i].0));
    assert forall|k: Seq<char>| has_name(t, k) implies as_map(t)[k] == as_map(s).insert(
        s[i].0,
        v,
    )[k] by {
        let j = place_of(t, k);
        lemma_entry(t, j);
        lemma_entry(s, j);
        lemma_entry(t, i);
    }
    assert(as_map(t) =~= as_map(s).insert(s[i].0, v));
}

pub proof fn lemma_remove<V>(s: Seq<(Seq<char>, V)>, i: int)
    requires
        distinct(s),
        0 <= i < s.len(),
    ensures
        distinct(s.remove(i)),
        as_map(s.remove(i)) == as_map(s).remove(s[i].0),
{
    let t = s.remove(i);
    let gone = s[i].0;
    assert forall|a: int, b: int| 0 <= a < b < t.len() implies t[a].0 != t[b].0 by {
        let a2 = if a < i { a } else { a + 1 };
        let b2 = if b < i { b } else { b + 1 };
        assert(t[a] == s[a2] && t[b] == s[b2]);
    }
    assert forall|k: Seq<char>| has_name(t, k) == (has_name(s, k) && k != gone) by {
        if has_name(t, k) {
            let a = place_of(t, k);
            let a2 = if a < i { a } else { a + 1 };
            assert(s[a2].0 == k);
            if a2 < i {
                assert(s[a2].0 != s[i].0);
            } else {
                assert(s[i].0 != s[a2].0);
            }
        }
        if has_name(s, k) && k != gone {
            let b = place_of(s, k);
            let b2 = if b < i { b } else { b - 1 };
            assert(t[b2] == s[b]);
        }
    }
    assert forall|k: Seq<char>| has_name(t, k) implies as_map(t)[k] == as_map(s).remove(gone)[k] by {
        let a = place_of(t, k);
        let a2 = if a < i { a } else { a + 1 };
        assert(t[a] == s[a2]);
        lemma_entry(t, a);
        lemma_entry(s, a2);
    }
    assert(as_map(t) =~= as_map(s).remove(gone));
}

pub proof fn lemma_insert<V>(s: Seq<(Seq<char>, V)>, i: int, name: Seq<char>, v: V)
    requires
        distinct(s),
        !has_name(s, name),
        0 <= i <= s.len(),
    ensures
        distinct(s.insert(i, (name, v))),
        as_map(s.insert(i, (name, v))) == as_map(s).insert(name, v),
{
    let t = s.insert(i, (name, v));
    assert forall|a: int, b: int| 0 <= a < b < t.len() implies t[a].0 != t[b].0 by {
        let a2 = if a < i { a } else { a - 1 };
        let b2 = if b < i { b } else { b - 1 };
        if a == i {
            assert(s[b2].0 != name);
        } else if b == i {
            assert(s[a2].0 != name);
        } else {
            assert(s[a2].0 != s[b2].0);
        }
    }
    assert forall|k: Seq<char>| has_name(t, k) == (has_name(s, k) || k == name) by {
        if has_name(s, k) {
            let a = place_of(s, k);
            let a2 = if a < i { a } else { a + 1 };
            assert(t[a2] == s[a]);
        }
        if k == name {
            assert(t[i].0 == k);
        }
        if has_name(t, k) && k != name {
            let b = place_of(t, k);
            let b2 = if b < i { b } else { b - 1 };
            assert(t[b] == s[b2]);
        }
    }
    assert forall|k: Seq<char>| has_name(t, k) implies as_map(t)[k] == as_map(s).insert(name, v)[k] by {
        let a = place_of(t, k);
        lemma_entry(t, a);
        if a != i {
            let a2 = if a < i { a } else { a - 1 };
            assert(t[a] == s[a2]);
            lemma_entry(s, a2);
        }
    }
    assert(as_map(t) =~= as_map(s).insert(name, v));
}

pub proof fn lemma_names<V>(s: Seq<(Seq<char>, V)>)
    requires
        distinct(s),
    ensures
        names(s).no_duplicates(),
        names(s).to_set() == as_map(s).dom(),
        as_map(s).dom().finite(),
{
    let n = names(s);
    assert forall|k: Seq<char>| n.to_set().contains(k) == has_name(s, k) by {
        if n.contains(k) {
            let i = choose|i: int| 0 <= i < n.len() && n[i] == k;
            assert(s[i].0 == k);
        }
        if has_name(s, k) {
            assert(n[place_of(s, k)] == k);
        }
    }
    assert(n.to_set() =~= as_map(s).dom());
    seq_to_set_is_finite(n);
}

/// Looks a name up: the index of its entry.
pub fn find_name<V>(entries: &Vec<(String, V)>, name: &str) -> (r: Option<usize>)
    ensures
        match r {
            Some(i) => i < entries.len() && entries@[i as int].0@ == name@,
            None => forall|i: int| 0 <= i < entries.len() ==> (#[trigger] entries@[i]).0@ != name@,
        },
{
    let mut i: usize = 0;
    while i < entries.len()
        invariant
            i <= entries.len(),
            forall|k: int| 0 <= k < i ==> (#[trigger] entries@[k]).0@ != name@,
        decreases entries.len() - i,
    {
        if same_text(entries[i].0.as_str(), name) {
            return Some(i);
        }
        i += 1;
    }
    None
}

} // verus!
