//! Text as sequences of characters: white space, trimming, splitting into
//! lines, words and levels, and substitution.
use vstd::prelude::*;
use vstd::string::*;

verus! {

/// The characters with the Unicode property `White_Space`.
pub open spec fn is_white(c: char) -> bool {
    let n = c as int;
    ||| 0x09 <= n <= 0x0d
    ||| n == 0x20
    ||| n == 0x85
    ||| n == 0xa0
    ||| n == 0x1680
    ||| 0x2000 <= n <= 0x200a
    ||| n == 0x2028
    ||| n == 0x2029
    ||| n == 0x202f
    ||| n == 0x205f
    ||| n == 0x3000
}

/// The code point of `c`.
pub fn code_of(c: char) -> (n: u32)
    ensures
        n as int == c as int,
{
    c as u32
}

/// Tells whether `c` is white space.
pub fn is_white_char(c: char) -> (b: bool)
    ensures
        b == is_white(c),
{
    let n: u32 = c as u32;
    (0x09 <= n && n <= 0x0d) || n == 0x20 || n == 0x85 || n == 0xa0 || n == 0x1680 || (0x2000 <= n
        && n <= 0x200a) || n == 0x2028 || n == 0x2029 || n == 0x202f || n == 0x205f || n == 0x3000
}

/// `s` without its leading white space.
pub open spec fn trim_start(s: Seq<char>) -> Seq<char>
    decreases s.len(),
{
    if s.len() > 0 && is_white(s[0]) {
        trim_start(s.drop_first())
    } else {
        s
    }
}

/// `s` without its trailing white space.
pub open spec fn trim_end(s: Seq<char>) -> Seq<char>
    decreases s.len(),
{
    if s.len() > 0 && is_white(s.last()) {
        trim_end(s.drop_last())
    } else {
        s
    }
}

/// `s` without its leading and trailing white space.
pub open spec fn trim(s: Seq<char>) -> Seq<char> {
    trim_end(trim_start(s))
}

/// The index of the first `c` in `s`, or `s.len()` if there is none.
pub open spec fn first_of(s: Seq<char>, c: char) -> nat
    decreases s.len(),
{
    if s.len() == 0 || s[0] == c {
        0
    } else {
        1 + first_of(s.drop_first(), c)
    }
}

/// The index of the first white space in `s`, or `s.len()` if there is none.
pub open spec fn first_white(s: Seq<char>) -> nat
    decreases s.len(),
{
    if s.len() == 0 || is_white(s[0]) {
        0
    } else {
        1 + first_white(s.drop_first())
    }
}

/// The views of a list of string slices.
pub open spec fn texts(v: Seq<&str>) -> Seq<Seq<char>> {
    Seq::new(v.len(), |i: int| v[i]@)
}

/// The views of a list of strings.
pub open spec fn string_texts(v: Seq<String>) -> Seq<Seq<char>> {
    Seq::new(v.len(), |i: int| v[i]@)
}

/// The characters of `s` as a vector.
pub fn chars_of(s: &str) -> (v: Vec<char>)
    ensures
        v@ == s@,
{
    let mut v: Vec<char> = Vec::new();
    for c in it: s.chars()
        invariant
            v@ == it.seq().take(it.index()),
            it.seq() == s@,
    {
        v.push(c);
    }
    v
}

/// Tells whether two texts are the same.
pub fn same_text(a: &str, b: &str) -> (same: bool)
    ensures
        same == (a@ == b@),
{
    let x = chars_of(a);
    let y = chars_of(b);
    if x.len() != y.len() {
        return false;
    }
    let mut i: usize = 0;
    while i < x.len()
        invariant
            i <= x.len(),
            x@ == a@,
            y@ == b@,
            x.len() == y.len(),
            forall|k: int| 0 <= k < i ==> a@[k] == b@[k],
        decreases x.len() - i,
    {
        if x[i] != y[i] {
            return false;
        }
        i += 1;
    }
    assert(a@ =~= b@);
    true
}

/// Removes the white space at both ends of `s`.
pub fn trimmed<'a>(s: &'a str) -> (r: &'a str)
    ensures
        r@ == trim(s@),
{
    let v = chars_of(s);
    let mut i: usize = 0;
    assert(s@.skip(0) =~= s@);
    while i < v.len() && is_white_char(v[i])
        invariant
            i <= v.len(),
            v@ == s@,
            trim_start(s@) == trim_start(s@.skip(i as int)),
        decreases v.len() - i,
    {
        assert(s@.skip(i as int).drop_first() =~= s@.skip(i + 1));
        i += 1;
    }
    let ghost start = s@.skip(i as int);
    assert(trim_start(s@) == start);
    let mut j: usize = v.len();
    assert(s@.subrange(i as int, j as int) =~= start);
    while i < j && is_white_char(v[j - 1])
        invariant
            i <= j <= v.len(),
            v@ == s@,
            trim_end(start) == trim_end(s@.subrange(i as int, j as int)),
        decreases j,
    {
        assert(s@.subrange(i as int, j as int).drop_last() =~= s@.subrange(i as int, j - 1));
        j -= 1;
    }
    s.substring_char(i, j)
}

pub proof fn lemma_first_of(s: Seq<char>, c: char, n: int)
    requires
        0 <= n <= s.len(),
        forall|k: int| 0 <= k < n ==> s[k] != c,
        n < s.len() ==> s[n] == c,
    ensures
        first_of(s, c) == n,
    decreases s.len(),
{
    if n > 0 {
        let t = s.drop_first();
        assert forall|k: int| 0 <= k < n - 1 implies t[k] != c by {
            assert(t[k] == s[k + 1]);
        }
        lemma_first_of(t, c, n - 1);
    }
}

/// `first_of` is the least index at which the character stands.
pub proof fn lemma_first_of_props(s: Seq<char>, c: char)
    ensures
        first_of(s, c) <= s.len(),
        forall|k: int| 0 <= k < first_of(s, c) ==> s[k] != c,
        first_of(s, c) < s.len() ==> s[first_of(s, c) as int] == c,
    decreases s.len(),
{
    if s.len() > 0 && s[0] != c {
        let t = s.drop_first();
        lemma_first_of_props(t, c);
        assert forall|k: int| 0 <= k < first_of(s, c) implies s[k] != c by {
            if k > 0 {
                assert(t[k - 1] == s[k]);
            }
        }
    }
}

proof fn lemma_first_white(s: Seq<char>, n: int)
    requires
        0 <= n <= s.len(),
        forall|k: int| 0 <= k < n ==> !is_white(#[trigger] s[k]),
        n < s.len() ==> is_white(s[n]),
    ensures
        first_white(s) == n,
    decreases s.len(),
{
    if n > 0 {
        let t = s.drop_first();
        assert(!is_white(s[0]));
        assert forall|k: int| 0 <= k < n - 1 implies !is_white(#[trigger] t[k]) by {
            assert(t[k] == s[k + 1]);
        }
        lemma_first_white(t, n - 1);
    }
}

/// A line's first word, and the trimmed rest of the line. A line without white
/// space is all first word.
pub open spec fn key_value(line: Seq<char>) -> (Seq<char>, Seq<char>) {
    let n = first_white(line) as int;
    if n < line.len() {
        (line.take(n), trim(line.skip(n)))
    } else {
        (line, Seq::empty())
    }
}

/// Splits a line at its first white space into a key and a trimmed value.
pub fn split_kv<'a>(line: &'a str) -> (kv: (&'a str, &'a str))
    ensures
        (kv.0@, kv.1@) == key_value(line@),
{
    let v = chars_of(line);
    let mut i: usize = 0;
    while i < v.len() && !is_white_char(v[i])
        invariant
            i <= v.len(),
            v@ == line@,
            forall|k: int| 0 <= k < i ==> !is_white(#[trigger] line@[k]),
        decreases v.len() - i,
    {
        i += 1;
    }
    proof {
        lemma_first_white(line@, i as int);
    }
    let key = line.substring_char(0, i);
    let rest = line.substring_char(i, v.len());
    assert(key@ =~= line@.take(i as int));
    assert(rest@ =~= line@.skip(i as int));
    let value = trimmed(rest);
    if i == v.len() {
        assert(key@ =~= line@);
        assert(rest@ =~= Seq::<char>::empty());
    }
    (key, value)
}

proof fn lemma_trim_start_len(s: Seq<char>)
    ensures
        trim_start(s).len() <= s.len(),
        trim_start(s).len() > 0 ==> !is_white(trim_start(s)[0]),
    decreases s.len(),
{
    if s.len() > 0 && is_white(s[0]) {
        lemma_trim_start_len(s.drop_first());
    }
}

/// The words of `s`: its longest runs without white space.
pub open spec fn words(s: Seq<char>) -> Seq<Seq<char>>
    decreases s.len(),
    via words_decreases
{
    let t = trim_start(s);
    if t.len() == 0 {
        Seq::empty()
    } else {
        let n = first_white(t) as int;
        seq![t.take(n)] + words(t.skip(n))
    }
}

proof fn lemma_first_white_props(s: Seq<char>)
    ensures
        first_white(s) <= s.len(),
        s.len() > 0 && !is_white(s[0]) ==> first_white(s) > 0,
    decreases s.len(),
{
    if s.len() > 0 && !is_white(s[0]) {
        lemma_first_white_props(s.drop_first());
    }
}

#[via_fn]
proof fn words_decreases(s: Seq<char>) {
    lemma_trim_start_len(s);
    lemma_first_white_props(trim_start(s));
}

/// Splits `s` into its words.
pub fn words_of<'a>(s: &'a str) -> (parts: Vec<&'a str>)
    ensures
        texts(parts@) == words(s@),
{
    let v = chars_of(s);
    let mut parts: Vec<&'a str> = Vec::new();
    let mut i: usize = 0;
    assert(s@.skip(0) =~= s@);
    assert(texts(parts@) + words(s@) =~= words(s@));
    while i < v.len()
        invariant
            i <= v.len(),
            v@ == s@,
            texts(parts@) + words(s@.skip(i as int)) == words(s@),
        decreases v.len() - i,
    {
        let ghost rest = s@.skip(i as int);
        if is_white_char(v[i]) {
            assert(rest.drop_first() =~= s@.skip(i + 1));
            assert(trim_start(rest) == trim_start(s@.skip(i + 1)));
            assert(words(rest) == words(s@.skip(i + 1)));
            i += 1;
        } else {
            let start = i;
            while i < v.len() && !is_white_char(v[i])
                invariant
                    start <= i <= v.len(),
                    v@ == s@,
                    forall|k: int| start <= k < i ==> !is_white(#[trigger] s@[k]),
                decreases v.len() - i,
            {
                i += 1;
            }
            let ghost n = i - start;
            proof {
                assert forall|k: int| 0 <= k < n implies !is_white(#[trigger] rest[k]) by {
                    assert(rest[k] == s@[start + k]);
                }
                lemma_first_white(rest, n);
            }
            let ghost before = texts(parts@);
            let part = s.substring_char(start, i);
            assert(part@ =~= rest.take(n));
            assert(rest.skip(n) =~= s@.skip(i as int));
            parts.push(part);
            assert(texts(parts@) =~= before.push(part@));
            assert(before + (seq![part@] + words(s@.skip(i as int))) =~= texts(parts@) + words(
                s@.skip(i as int),
            ));
        }
    }
    assert(s@.skip(i as int) =~= Seq::<char>::empty());
    assert(texts(parts@) + Seq::<Seq<char>>::empty() =~= texts(parts@));
    parts
}

/// The pieces of `s` between the separators; at least one piece.
pub open spec fn split(s: Seq<char>, sep: char) -> Seq<Seq<char>>
    decreases s.len(),
{
    let n = first_of(s, sep) as int;
    if n < s.len() {
        seq![s.take(n)] + split(s.skip(n + 1), sep)
    } else {
        seq![s]
    }
}

/// Splits `s` at every `sep`.
pub fn split_at_each<'a>(s: &'a str, sep: char) -> (parts: Vec<&'a str>)
    ensures
        texts(parts@) == split(s@, sep),
{
    let v = chars_of(s);
    let mut parts: Vec<&'a str> = Vec::new();
    let mut start: usize = 0;
    let mut i: usize = 0;
    assert(s@.skip(0) =~= s@);
    assert(texts(parts@) + split(s@, sep) =~= split(s@, sep));
    while i < v.len()
        invariant
            start <= i <= v.len(),
            v@ == s@,
            forall|k: int| start <= k < i ==> s@[k] != sep,
            texts(parts@) + split(s@.skip(start as int), sep) == split(s@, sep),
        decreases v.len() - i,
    {
        if v[i] == sep {
            let ghost rest = s@.skip(start as int);
            let ghost before = texts(parts@);
            let ghost n = i - start;
            proof {
                lemma_first_of(rest, sep, n);
            }
            let part = s.substring_char(start, i);
            assert(part@ =~= rest.take(n));
            assert(rest.skip(n + 1) =~= s@.skip(i + 1));
            parts.push(part);
            assert(texts(parts@) =~= before.push(part@));
            assert(before + (seq![part@] + split(s@.skip(i + 1), sep)) =~= texts(parts@) + split(
                s@.skip(i + 1),
                sep,
            ));
            start = i + 1;
        }
        i += 1;
    }
    let ghost rest = s@.skip(start as int);
    let ghost before = texts(parts@);
    proof {
        lemma_first_of(rest, sep, rest.len() as int);
    }
    let part = s.substring_char(start, v.len());
    assert(part@ =~= rest);
    parts.push(part);
    assert(texts(parts@) =~= before + seq![rest]);
    parts
}

/// A line without the carriage return that ends it, if one does.
pub open spec fn without_cr(line: Seq<char>) -> Seq<char> {
    if line.len() > 0 && line.last() == '\r' {
        line.drop_last()
    } else {
        line
    }
}

/// The lines of a text. A line ends with a line feed, which a carriage return
/// may precede; the line end of the last line may be missing.
pub open spec fn lines(s: Seq<char>) -> Seq<Seq<char>>
    decreases s.len(),
{
    let n = first_of(s, '\n') as int;
    if n < s.len() {
        seq![without_cr(s.take(n))] + lines(s.skip(n + 1))
    } else if s.len() > 0 {
        seq![s]
    } else {
        Seq::empty()
    }
}

/// Splits a text into its lines.
pub fn lines_of<'a>(s: &'a str) -> (parts: Vec<&'a str>)
    ensures
        texts(parts@) == lines(s@),
{
    let v = chars_of(s);
    let mut parts: Vec<&'a str> = Vec::new();
    let mut start: usize = 0;
    let mut i: usize = 0;
    assert(s@.skip(0) =~= s@);
    assert(texts(parts@) + lines(s@) =~= lines(s@));
    while i < v.len()
        invariant
            start <= i <= v.len(),
            v@ == s@,
            forall|k: int| start <= k < i ==> s@[k] != '\n',
            texts(parts@) + lines(s@.skip(start as int)) == lines(s@),
        decreases v.len() - i,
    {
        if v[i] == '\n' {
            let ghost rest = s@.skip(start as int);
            let ghost before = texts(parts@);
            let ghost n = i - start;
            proof {
                lemma_first_of(rest, '\n', n);
            }
            let mut end: usize = i;
            if start < i && v[i - 1] == '\r' {
                end = i - 1;
            }
            let part = s.substring_char(start, end);
            assert(part@ =~= without_cr(rest.take(n)));
            assert(rest.skip(n + 1) =~= s@.skip(i + 1));
            parts.push(part);
            assert(texts(parts@) =~= before.push(part@));
            assert(before + (seq![part@] + lines(s@.skip(i + 1))) =~= texts(parts@) + lines(
                s@.skip(i + 1),
            ));
            start = i + 1;
        }
        i += 1;
    }
    let ghost rest = s@.skip(start as int);
    let ghost before = texts(parts@);
    proof {
        lemma_first_of(rest, '\n', rest.len() as int);
    }
    if start < v.len() {
        let part = s.substring_char(start, v.len());
        assert(part@ =~= rest);
        parts.push(part);
        assert(texts(parts@) =~= before + seq![rest]);
    } else {
        assert(rest =~= Seq::<char>::empty());
        assert(texts(parts@) =~= before + Seq::<Seq<char>>::empty());
    }
    parts
}

/// What is noted on lines, in their order, each with the number of its line,
/// counted from 1.
pub open spec fn noted<N>(
    ls: Seq<Seq<char>>,
    note: spec_fn(Seq<char>) -> Option<N>,
) -> Seq<(nat, N)>
    decreases ls.len(),
{
    if ls.len() == 0 {
        Seq::empty()
    } else {
        let before = noted(ls.drop_last(), note);
        match note(ls.last()) {
            Some(n) => before.push((ls.len(), n)),
            None => before,
        }
    }
}

/// Exactly what is noted on a line is listed with its number.
pub proof fn lemma_noted<N>(
    ls: Seq<Seq<char>>,
    note: spec_fn(Seq<char>) -> Option<N>,
    n: nat,
    x: N,
)
    ensures
        noted(ls, note).contains((n, x)) <==> 1 <= n <= ls.len() && note(ls[n - 1]) == Some(x),
    decreases ls.len(),
{
    if ls.len() > 0 {
        let before = noted(ls.drop_last(), note);
        let all = noted(ls, note);
        lemma_noted(ls.drop_last(), note, n, x);
        if n < ls.len() && n >= 1 {
            assert(ls.drop_last()[n - 1] == ls[n - 1]);
        }
        if before.contains((n, x)) {
            let i = choose|i: int| 0 <= i < before.len() && before[i] == (n, x);
            assert(all[i] == (n, x));
        }
        if all.contains((n, x)) {
            let i = choose|i: int| 0 <= i < all.len() && all[i] == (n, x);
            if i < before.len() {
                assert(before[i] == (n, x));
            }
        }
        if note(ls.last()) == Some(x) && n == ls.len() {
            assert(all[before.len() as int] == (n, x));
        }
    }
}

/// A line of a file that holds nothing but a comment or white space.
pub open spec fn is_remark(line: Seq<char>) -> bool {
    trim(line).len() == 0 || trim(line)[0] == '#'
}

/// The trimmed line, unless the line is a remark.
pub fn content_of_line<'a>(raw: &'a str) -> (r: Option<&'a str>)
    ensures
        match r {
            Some(line) => !is_remark(raw@) && line@ == trim(raw@),
            None => is_remark(raw@),
        },
{
    let line = trimmed(raw);
    if line.is_empty() || line.get_char(0) == '#' {
        None
    } else {
        Some(line)
    }
}

/// Tells whether `s` starts with `prefix`.
pub open spec fn starts_with(s: Seq<char>, prefix: Seq<char>) -> bool {
    prefix.len() <= s.len() && s.take(prefix.len() as int) == prefix
}

/// `s` with every occurrence of `pat`, taken from the left and without
/// overlap, replaced by `with`.
pub open spec fn replace(s: Seq<char>, pat: Seq<char>, with: Seq<char>) -> Seq<char>
    decreases s.len(),
{
    if pat.len() == 0 || s.len() < pat.len() {
        s
    } else if starts_with(s, pat) {
        with + replace(s.skip(pat.len() as int), pat, with)
    } else {
        s.take(1) + replace(s.skip(1), pat, with)
    }
}

/// Replaces every occurrence of a non-empty `pat` in `s` by `with`.
pub fn replaced(s: &str, pat: &str, with: &str) -> (r: String)
    requires
        pat@.len() > 0,
    ensures
        r@ == replace(s@, pat@, with@),
{
    let n = s.unicode_len();
    let m = pat.unicode_len();
    let mut out = String::new();
    let mut i: usize = 0;
    assert(s@.skip(0) =~= s@);
    assert(out@ + replace(s@, pat@, with@) =~= replace(s@, pat@, with@));
    while m <= n - i
        invariant
            i <= n,
            n == s@.len(),
            m == pat@.len(),
            m > 0,
            out@ + replace(s@.skip(i as int), pat@, with@) == replace(s@, pat@, with@),
        decreases n - i,
    {
        let ghost rest = s@.skip(i as int);
        let here = s.substring_char(i, i + m);
        assert(here@ =~= rest.take(m as int));
        let ghost before = out@;
        if same_text(here, pat) {
            out.append(with);
            assert(rest.skip(m as int) =~= s@.skip(i + m));
            assert(before + (with@ + replace(s@.skip(i + m), pat@, with@)) =~= out@ + replace(
                s@.skip(i + m),
                pat@,
                with@,
            ));
            i += m;
        } else {
            let one = s.substring_char(i, i + 1);
            out.append(one);
            assert(one@ =~= rest.take(1));
            assert(rest.skip(1) =~= s@.skip(i + 1));
            assert(before + (one@ + replace(s@.skip(i + 1), pat@, with@)) =~= out@ + replace(
                s@.skip(i + 1),
                pat@,
                with@,
            ));
            i += 1;
        }
    }
    let rest = s.substring_char(i, n);
    out.append(rest);
    assert(rest@ =~= s@.skip(i as int));
    out
}

/// Tells whether `s` starts with `prefix`.
pub fn has_prefix(s: &str, prefix: &str) -> (b: bool)
    ensures
        b == starts_with(s@, prefix@),
{
    let n = s.unicode_len();
    let m = prefix.unicode_len();
    if n < m {
        return false;
    }
    let head = s.substring_char(0, m);
    assert(head@ =~= s@.take(m as int));
    same_text(head, prefix)
}

/// The parts one after the other, with `sep` between them.
pub open spec fn join(parts: Seq<Seq<char>>, sep: Seq<char>) -> Seq<char>
    decreases parts.len(),
{
    if parts.len() == 0 {
        Seq::empty()
    } else if parts.len() == 1 {
        parts[0]
    } else {
        join(parts.drop_last(), sep) + sep + parts.last()
    }
}

/// Joins the parts, with `sep` between them.
pub fn joined(parts: &Vec<String>, sep: &str) -> (s: String)
    ensures
        s@ == join(string_texts(parts@), sep@),
{
    let ghost t = string_texts(parts@);
    let mut s = String::new();
    let mut i: usize = 0;
    assert(t.take(0) =~= Seq::empty());
    while i < parts.len()
        invariant
            i <= parts.len(),
            t == string_texts(parts@),
            s@ == join(t.take(i as int), sep@),
        decreases parts.len() - i,
    {
        assert(t.take(i + 1).drop_last() =~= t.take(i as int));
        assert(t.take(i + 1).last() == parts@[i as int]@);
        if i > 0 {
            s.append(sep);
        } else {
            assert(s@ =~= Seq::empty());
        }
        s.append(parts[i].as_str());
        assert(s@ =~= join(t.take(i + 1), sep@));
        i += 1;
    }
    assert(t.take(i as int) =~= t);
    s
}

/// Joining two non-empty lists.
pub proof fn lemma_join_concat(a: Seq<Seq<char>>, b: Seq<Seq<char>>, sep: Seq<char>)
    requires
        a.len() > 0,
        b.len() > 0,
    ensures
        join(a + b, sep) == join(a, sep) + sep + join(b, sep),
    decreases b.len(),
{
    assert((a + b).drop_last() =~= a + b.drop_last());
    assert((a + b).last() == b.last());
    if b.len() == 1 {
        assert(a + b.drop_last() =~= a);
        assert(join(b, sep) == b[0]);
    } else {
        lemma_join_concat(a, b.drop_last(), sep);
        assert(join(a + b, sep) =~= join(a, sep) + sep + join(b, sep));
    }
}

/// Splitting and joining again gives the text back, and no piece holds the
/// separator.
pub proof fn lemma_join_split(s: Seq<char>, sep: char)
    ensures
        split(s, sep).len() > 0,
        join(split(s, sep), seq![sep]) == s,
        forall|k: int| 0 <= k < split(s, sep).len() ==> !(#[trigger] split(s, sep)[k]).contains(sep),
    decreases s.len(),
{
    lemma_first_of_props(s, sep);
    let n = first_of(s, sep) as int;
    if n < s.len() {
        let rest = s.skip(n + 1);
        lemma_join_split(rest, sep);
        assert forall|k: int| 0 <= k < split(s, sep).len() implies !(#[trigger] split(
            s,
            sep,
        )[k]).contains(sep) by {
            if k > 0 {
                assert(split(s, sep)[k] == split(rest, sep)[k - 1]);
            }
        }
        lemma_join_concat(seq![s.take(n)], split(rest, sep), seq![sep]);
        assert(join(seq![s.take(n)], seq![sep]) == s.take(n));
        assert(s =~= s.take(n) + seq![sep] + rest);
    } else {
        assert(join(seq![s], seq![sep]) == s);
    }
}

/// The pieces of two texts with a separator between them are the pieces of
/// the one and then those of the other.
pub proof fn lemma_split_concat(a: Seq<char>, sep: char, b: Seq<char>)
    ensures
        split(a + seq![sep] + b, sep) == split(a, sep) + split(b, sep),
    decreases a.len(),
{
    let s = a + seq![sep] + b;
    lemma_first_of_props(a, sep);
    let n = first_of(a, sep) as int;
    assert forall|k: int| 0 <= k < n implies s[k] != sep by {
        assert(s[k] == a[k]);
    }
    assert(s[n] == sep);
    lemma_first_of(s, sep, n);
    assert(s.take(n) =~= a.take(n));
    if n < a.len() {
        let rest = a.skip(n + 1);
        assert(s.skip(n + 1) =~= rest + seq![sep] + b);
        lemma_split_concat(rest, sep, b);
        assert(split(s, sep) =~= split(a, sep) + split(b, sep));
    } else {
        assert(s.skip(n + 1) =~= b);
        assert(a.take(n) =~= a);
        assert(split(s, sep) =~= split(a, sep) + split(b, sep));
    }
}

/// A text without the separator is its only piece.
pub proof fn lemma_split_single(s: Seq<char>, sep: char)
    requires
        !s.contains(sep),
    ensures
        split(s, sep) == seq![s],
{
    lemma_first_of_props(s, sep);
    if first_of(s, sep) < s.len() {
        assert(s.contains(s[first_of(s, sep) as int]));
    }
}

proof fn lemma_trim_start_props(s: Seq<char>)
    ensures
        forall|c: char| trim_start(s).contains(c) ==> s.contains(c),
        trim_start(s).len() > 0 ==> !is_white(trim_start(s)[0]),
    decreases s.len(),
{
    if s.len() > 0 && is_white(s[0]) {
        let t = s.drop_first();
        lemma_trim_start_props(t);
        assert forall|c: char| t.contains(c) implies s.contains(c) by {
            let i = choose|i: int| 0 <= i < t.len() && t[i] == c;
            assert(s[i + 1] == c);
        }
    }
}

proof fn lemma_trim_end_props(s: Seq<char>)
    ensures
        forall|c: char| trim_end(s).contains(c) ==> s.contains(c),
        trim_end(s).len() > 0 ==> !is_white(trim_end(s).last()),
        s.len() > 0 && !is_white(s[0]) ==> trim_end(s).len() > 0 && trim_end(s)[0] == s[0],
        trim_end(s).len() > 0 ==> trim_end(s)[0] == s[0],
    decreases s.len(),
{
    if s.len() > 0 && is_white(s.last()) {
        let t = s.drop_last();
        lemma_trim_end_props(t);
        assert forall|c: char| t.contains(c) implies s.contains(c) by {
            let i = choose|i: int| 0 <= i < t.len() && t[i] == c;
            assert(s[i] == c);
        }
    }
}

/// A trimmed text has no white space at its ends and holds nothing new.
pub proof fn lemma_trim_props(s: Seq<char>)
    ensures
        forall|c: char| trim(s).contains(c) ==> s.contains(c),
        trim(s).len() > 0 ==> !is_white(trim(s)[0]) && !is_white(trim(s).last()),
{
    lemma_trim_start_props(s);
    lemma_trim_end_props(trim_start(s));
}

/// No line holds a line feed.
pub proof fn lemma_lines_props(s: Seq<char>)
    ensures
        forall|i: int| 0 <= i < lines(s).len() ==> !(#[trigger] lines(s)[i]).contains('\n'),
    decreases s.len(),
{
    lemma_first_of_props(s, '\n');
    let n = first_of(s, '\n') as int;
    if n < s.len() {
        let head = s.take(n);
        let rest = s.skip(n + 1);
        lemma_lines_props(rest);
        assert forall|i: int| 0 <= i < lines(s).len() implies !(#[trigger] lines(s)[i]).contains(
            '\n',
        ) by {
            if i == 0 {
                let line = without_cr(head);
                assert forall|k: int| 0 <= k < line.len() implies line[k] != '\n' by {
                    assert(line[k] == s[k]);
                }
            } else {
                assert(lines(s)[i] == lines(rest)[i - 1]);
            }
        }
    }
}

proof fn lemma_first_line(a: Seq<char>, b: Seq<char>)
    requires
        !a.contains('\n'),
    ensures
        lines(a + seq!['\n'] + b) == seq![without_cr(a)] + lines(b),
{
    let s = a + seq!['\n'] + b;
    assert forall|k: int| 0 <= k < a.len() implies s[k] != '\n' by {
        assert(s[k] == a[k]);
    }
    lemma_first_of(s, '\n', a.len() as int);
    assert(s.take(a.len() as int) =~= a);
    assert(s.skip(a.len() as int + 1) =~= b);
}

/// Lines that are written one after the other, each with a line feed, are read
/// back as they were.
pub proof fn lemma_lines_of_joined(ls: Seq<Seq<char>>)
    requires
        ls.len() > 0,
        forall|i: int|
            0 <= i < ls.len() ==> !(#[trigger] ls[i]).contains('\n') && without_cr(ls[i]) == ls[i],
    ensures
        lines(join(ls, seq!['\n']) + seq!['\n']) == ls,
    decreases ls.len(),
{
    let lf = seq!['\n'];
    let first = ls[0];
    let rest = ls.drop_first();
    if ls.len() == 1 {
        lemma_first_line(first, Seq::empty());
        assert(join(ls, lf) + lf =~= first + lf + Seq::<char>::empty());
        assert(lines(Seq::empty()) =~= Seq::empty());
        assert(ls =~= seq![first]);
    } else {
        assert forall|i: int| 0 <= i < rest.len() implies !(#[trigger] rest[i]).contains('\n')
            && without_cr(rest[i]) == rest[i] by {
            assert(rest[i] == ls[i + 1]);
        }
        lemma_lines_of_joined(rest);
        assert(ls =~= seq![first] + rest);
        lemma_join_concat(seq![first], rest, lf);
        assert(join(seq![first], lf) == first);
        assert(join(ls, lf) + lf =~= first + lf + (join(rest, lf) + lf));
        lemma_first_line(first, join(rest, lf) + lf);
    }
}

} // verus!
