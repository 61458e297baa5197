//! Lists of names in which none occurs twice.
use vstd::prelude::*;
use vstd::string::*;

use crate::text::{self, same_text};

verus! {

/// Where a name is listed.
fn index_of(names: &Vec<String>, name: &str) -> (r: Option<usize>)
    ensures
        match r {
            Some(i) => i < names.len() && text::string_texts(names@)[i as int] == name@,
            None => !text::string_texts(names@).contains(name@),
        },
{
    let mut i: usize = 0;
    while i < names.len()
        invariant
            i <= names.len(),
            forall|k: int| 0 <= k < i ==> #[trigger] text::string_texts(names@)[k] != name@,
        decreases names.len() - i,
    {
        if same_text(names[i].as_str(), name) {
            return Some(i);
        }
        i += 1;
    }
    None
}

/// Tells whether a name is listed.
pub(crate) fn contains_name(names: &Vec<String>, name: &str) -> (b: bool)
    ensures
        b == text::string_texts(names@).to_set().contains(name@),
{
    match index_of(names, name) {
        Some(i) => {
            assert(text::string_texts(names@).contains(text::string_texts(names@)[i as int]));
            true
        },
        None => false,
    }
}

/// Lists a name, unless it is listed already.
pub(crate) fn add_name(names: Vec<String>, name: &str) -> (out: Vec<String>)
    requires
        text::string_texts(names@).no_duplicates(),
    ensures
        text::string_texts(out@).no_duplicates(),
        text::string_texts(out@).to_set() == text::string_texts(names@).to_set().insert(name@),
{
    let ghost before = text::string_texts(names@);
    if contains_name(&names, name) {
        assert(before.to_set().insert(name@) =~= before.to_set());
        names
    } else {
        let mut out = names;
        out.push(name.to_string());
        let ghost after = text::string_texts(out@);
        assert(after =~= before.push(name@));
        assert(!before.contains(name@));
        proof {
            assert forall|i: int, j: int|
                0 <= i < after.len() && 0 <= j < after.len() && i != j implies after[i]
                != after[j] by {
                if i < before.len() {
                    assert(before.contains(before[i]));
                }
                if j < before.len() {
                    assert(before.contains(before[j]));
                }
            }
            assert forall|x: Seq<char>| after.to_set().contains(x) == before.to_set().insert(
                name@,
            ).contains(x) by {
                if before.contains(x) {
                    let k = choose|k: int| 0 <= k < before.len() && before[k] == x;
                    assert(after[k] == x);
                }
                assert(after[before.len() as int] == name@);
                if after.contains(x) && x != name@ {
                    let k = choose|k: int| 0 <= k < after.len() && after[k] == x;
                    assert(before[k] == x);
                }
            }
            assert(after.to_set() =~= before.to_set().insert(name@));
        }
        out
    }
}

/// Takes a name off the list.
pub(crate) fn remove_name(names: Vec<String>, name: &str) -> (out: Vec<String>)
    requires
        text::string_texts(names@).no_duplicates(),
    ensures
        text::string_texts(out@).no_duplicates(),
        text::string_texts(out@).to_set() == text::string_texts(names@).to_set().remove(name@),
{
    let ghost before = text::string_texts(names@);
    match index_of(&names, name) {
        Some(i) => {
            let mut out = names;
            let _ = out.remove(i);
            let ghost after = text::string_texts(out@);
            let ghost at = i as int;
            assert(after =~= before.remove(at));
            proof {
                assert forall|a: int, b: int|
                    0 <= a < after.len() && 0 <= b < after.len() && a != b implies after[a]
                    != after[b] by {
                    let a2 = if a < at { a } else { a + 1 };
                    let b2 = if b < at { b } else { b + 1 };
                    assert(before[a2] != before[b2]);
                }
                assert forall|x: Seq<char>| after.to_set().contains(x) == before.to_set().remove(
                    name@,
                ).contains(x) by {
                    if after.contains(x) {
                        let k = choose|k: int| 0 <= k < after.len() && after[k] == x;
                        let k2 = if k < at { k } else { k + 1 };
                        assert(before[k2] == x);
                        assert(before[k2] != before[at]);
                    }
                    if before.contains(x) && x != name@ {
                        let k = choose|k: int| 0 <= k < before.len() && before[k] == x;
                        let k2 = if k < at { k } else { k - 1 };
                        assert(after[k2] == x);
                    }
                }
                assert(after.to_set() =~= before.to_set().remove(name@));
            }
            out
        },
        None => {
            assert(before.to_set().remove(name@) =~= before.to_set());
            names
        },
    }
}

/// Another list of the same names.
pub(crate) fn copy_names(names: &Vec<String>) -> (out: Vec<String>)
    ensures
        text::string_texts(out@) == text::string_texts(names@),
{
    let mut out: Vec<String> = Vec::new();
    let mut i: usize = 0;
    while i < names.len()
        invariant
            i <= names.len(),
            out.len() == i,
            forall|k: int| 0 <= k < i ==> (#[trigger] out@[k])@ == names@[k]@,
        decreases names.len() - i,
    {
        out.push(names[i].clone());
        i += 1;
    }
    assert(text::string_texts(out@) =~= text::string_texts(names@));
    out
}

} // verus!
