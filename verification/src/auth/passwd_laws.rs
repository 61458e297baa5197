//! What holds of every password store and every password file.
use vstd::prelude::*;

use super::hashing;
use super::passwd;
use crate::order;
use crate::order_laws;
use crate::text;

verus! {

/// The username can stand in a password file: it holds no colon and no line
/// feed, and starts neither with white space nor like a comment.
pub open spec fn is_storable_name(user: Seq<char>) -> bool {
    &&& !user.contains(':')
    &&& !user.contains('\n')
    &&& user.len() > 0 ==> !text::is_white(user[0]) && user[0] != '#'
}

/// The hash can stand in a password file: it holds no line feed and does not
/// end with white space.
pub open spec fn is_storable_hash(hash: Seq<char>) -> bool {
    &&& !hash.contains('\n')
    &&& hash.len() > 0 ==> !text::is_white(hash.last())
}

/// All users can stand in a password file.
pub open spec fn is_storable(m: Map<Seq<char>, Seq<char>>) -> bool {
    &&& m.dom().finite()
    &&& forall|user: Seq<char>| #[trigger]
        m.dom().contains(user) ==> is_storable_name(user) && is_storable_hash(m[user])
}

proof fn lemma_entry_line(user: Seq<char>, hash: Seq<char>)
    requires
        is_storable_name(user),
        is_storable_hash(hash),
    ensures
        passwd::entry_of(passwd::entry_line(user, hash)) == Some((user, hash)),
        !passwd::entry_line(user, hash).contains('\n'),
        text::without_cr(passwd::entry_line(user, hash)) == passwd::entry_line(user, hash),
{
    reveal_strlit(":");
    let t = passwd::entry_line(user, hash);
    let n = user.len() as int;
    assert(t[n] == ':');
    assert(!text::is_white(t[0])) by {
        if n > 0 {
            assert(t[0] == user[0]);
        }
    }
    assert(!text::is_white(t.last())) by {
        if hash.len() > 0 {
            assert(t.last() == hash.last());
        }
    }
    assert(text::trim_start(t) == t);
    assert(text::trim_end(t) == t);
    assert(t[0] != '#') by {
        if n > 0 {
            assert(t[0] == user[0]);
        }
    }
    assert forall|k: int| 0 <= k < n implies t[k] != ':' by {
        assert(t[k] == user[k]);
        assert(user.contains(user[k]));
    }
    text::lemma_first_of(t, ':', n);
    assert(t.take(n) =~= user);
    assert(t.skip(n + 1) =~= hash);
    assert forall|k: int| 0 <= k < t.len() implies t[k] != '\n' by {
        if k < n {
            assert(t[k] == user[k]);
            assert(user.contains(user[k]));
        } else if k > n {
            assert(t[k] == hash[k - n - 1]);
            assert(hash.contains(hash[k - n - 1]));
        }
    }
}

spec fn named_in(line: Seq<char>) -> Seq<char> {
    match passwd::entry_of(line) {
        Some((user, _)) => user,
        None => Seq::empty(),
    }
}

proof fn lemma_users_of(ls: Seq<Seq<char>>, m: Map<Seq<char>, Seq<char>>)
    requires
        forall|i: int|
            0 <= i < ls.len() ==> (passwd::entry_of(#[trigger] ls[i]) matches Some((u, h))
                && m.dom().contains(u) && m[u] == h),
    ensures
        forall|u: Seq<char>| #[trigger]
            passwd::users_of(ls).dom().contains(u) ==> m.dom().contains(u) && passwd::users_of(
                ls,
            )[u] == m[u],
        forall|i: int|
            0 <= i < ls.len() ==> passwd::users_of(ls).dom().contains(
                named_in(#[trigger] ls[i]),
            ),
    decreases ls.len(),
{
    if ls.len() > 0 {
        let before = ls.drop_last();
        assert forall|i: int| 0 <= i < before.len() implies (passwd::entry_of(
            #[trigger] before[i],
        ) matches Some((u, h)) && m.dom().contains(u) && m[u] == h) by {
            assert(before[i] == ls[i]);
        }
        lemma_users_of(before, m);
        let last = ls[ls.len() - 1];
        assert(passwd::entry_of(last) is Some);
        let user = named_in(last);
        assert(m.dom().contains(user));
        assert(passwd::users_of(ls) == passwd::users_of(before).insert(user, m[user]));
        assert forall|u: Seq<char>| #[trigger]
            passwd::users_of(ls).dom().contains(u) implies m.dom().contains(u)
            && passwd::users_of(ls)[u] == m[u] by {
            if u != user {
                assert(passwd::users_of(before).dom().contains(u));
            }
        }
        assert forall|i: int| 0 <= i < ls.len() implies passwd::users_of(ls).dom().contains(
            named_in(#[trigger] ls[i]),
        ) by {
            if i < before.len() {
                assert(before[i] == ls[i]);
            }
        }
    }
}

spec fn is_line_of(m: Map<Seq<char>, Seq<char>>, line: Seq<char>) -> bool {
    exists|u: Seq<char>| m.dom().contains(u) && line == #[trigger] passwd::entry_line(u, m[u])
}

proof fn lemma_written_is_read_back(m: Map<Seq<char>, Seq<char>>)
    requires
        is_storable(m),
    ensures
        passwd::passwd_of(passwd::file_of(m)) == m,
{
    reveal_strlit("\n");
    let lf = seq!['\n'];
    assert("\n"@ =~= lf);
    let users = order::in_order(m.dom());
    let unsorted = Seq::new(users.len(), |i: int| passwd::entry_line(users[i], m[users[i]]));
    let ls = passwd::file_lines(m);
    assert(ls == order::sorted(unsorted));
    assert forall|i: int| 0 <= i < ls.len() implies is_line_of(m, #[trigger] ls[i]) by {
        assert(ls.contains(ls[i]));
        order::lemma_sorted_contains(unsorted, ls[i]);
        let k = choose|k: int| 0 <= k < unsorted.len() && unsorted[k] == ls[i];
        assert(users.contains(users[k]));
        order::lemma_in_order_contains(m.dom(), users[k]);
    }
    assert forall|i: int| 0 <= i < ls.len() implies (passwd::entry_of(#[trigger] ls[i]) matches Some(
        (u, h),
    ) && m.dom().contains(u) && m[u] == h) && !ls[i].contains('\n') && text::without_cr(ls[i])
        == ls[i] by {
        assert(is_line_of(m, ls[i]));
        let u = choose|u: Seq<char>|
            m.dom().contains(u) && ls[i] == #[trigger] passwd::entry_line(u, m[u]);
        lemma_entry_line(u, m[u]);
    }
    lemma_users_of(ls, m);
    let back = passwd::users_of(ls);
    assert forall|u: Seq<char>| m.dom().contains(u) implies back.dom().contains(u) by {
        order::lemma_in_order_contains(m.dom(), u);
        let k = choose|k: int| 0 <= k < users.len() && users[k] == u;
        assert(unsorted[k] == passwd::entry_line(u, m[u]));
        assert(unsorted.contains(unsorted[k]));
        order::lemma_sorted_contains(unsorted, unsorted[k]);
        let i = choose|i: int| 0 <= i < ls.len() && ls[i] == unsorted[k];
        lemma_entry_line(u, m[u]);
        assert(named_in(ls[i]) == u);
    }
    assert(back =~= m);
    if ls.len() > 0 {
        text::lemma_lines_of_joined(ls);
    } else {
        assert(ls =~= Seq::empty());
        assert(passwd::file_of(m) =~= lf);
        text::lemma_first_of(lf, '\n', 0);
        let one = text::lines(lf);
        assert(lf.skip(1) =~= Seq::empty());
        assert(lf.take(0) =~= Seq::empty());
        assert(text::lines(Seq::empty()) =~= Seq::empty());
        assert(one =~= seq![Seq::<char>::empty()]);
        assert(text::trim(Seq::empty()) =~= Seq::empty());
        assert(one.drop_last() =~= Seq::empty());
        assert(passwd::users_of(one) =~= back);
    }
}

proof fn lemma_entry_is_storable(line: Seq<char>)
    requires
        !line.contains('\n'),
    ensures
        passwd::entry_of(line) matches Some((u, h)) ==> is_storable_name(u) && is_storable_hash(h),
{
    let t = text::trim(line);
    text::lemma_trim_props(line);
    text::lemma_first_of_props(t, ':');
    if let Some((u, h)) = passwd::entry_of(line) {
        let n = text::first_of(t, ':') as int;
        assert forall|k: int| 0 <= k < u.len() implies u[k] != ':' && u[k] != '\n' by {
            assert(u[k] == t[k]);
            assert(t.contains(t[k]));
        }
        assert forall|k: int| 0 <= k < h.len() implies h[k] != '\n' by {
            assert(h[k] == t[n + 1 + k]);
            assert(t.contains(t[n + 1 + k]));
        }
        if u.len() > 0 {
            assert(u[0] == t[0]);
        }
        if h.len() > 0 {
            assert(h.last() == t.last());
        }
    }
}

proof fn lemma_users_are_storable(ls: Seq<Seq<char>>)
    requires
        forall|i: int| 0 <= i < ls.len() ==> !(#[trigger] ls[i]).contains('\n'),
    ensures
        is_storable(passwd::users_of(ls)),
    decreases ls.len(),
{
    if ls.len() > 0 {
        let before = ls.drop_last();
        assert forall|i: int| 0 <= i < before.len() implies !(#[trigger] before[i]).contains(
            '\n',
        ) by {
            assert(before[i] == ls[i]);
        }
        lemma_users_are_storable(before);
        assert(!ls[ls.len() - 1].contains('\n'));
        lemma_entry_is_storable(ls.last());
    }
}

/// What is read from a password file can stand in one.
pub proof fn law_a_read_store_is_storable(content: Seq<char>)
    ensures
        is_storable(passwd::passwd_of(content)),
{
    text::lemma_lines_props(content);
    lemma_users_are_storable(text::lines(content));
}

/// A store that is written to a password file is read back as it was, exactly
/// if all its users can stand in one.
pub proof fn law_a_written_store_is_read_back(m: Map<Seq<char>, Seq<char>>)
    requires
        m.dom().finite(),
    ensures
        passwd::passwd_of(passwd::file_of(m)) == m <==> is_storable(m),
{
    if is_storable(m) {
        lemma_written_is_read_back(m);
    }
    law_a_read_store_is_storable(passwd::file_of(m));
}

/// Reading a password file and writing it again keeps all that it says.
pub proof fn law_rewriting_keeps_the_users(content: Seq<char>)
    ensures
        passwd::passwd_of(passwd::file_of(passwd::passwd_of(content))) == passwd::passwd_of(content),
{
    law_a_read_store_is_storable(content);
    law_a_written_store_is_read_back(passwd::passwd_of(content));
}

/// A user whose password was set is accepted with it, and nothing changes for
/// the others.
pub proof fn law_a_set_password_is_accepted(
    m: Map<Seq<char>, Seq<char>>,
    user: Seq<char>,
    password: Seq<char>,
    hash: Seq<char>,
    other: Seq<char>,
    guess: Seq<char>,
)
    requires
        hashing::bcrypt_says(password, hash) == Some(true),
        other != user,
    ensures
        passwd::accepts(m.insert(user, hash), user, password),
        passwd::accepts(m.insert(user, hash), other, guess) == passwd::accepts(m, other, guess),
{
}

/// A deleted user is accepted with no password, and nothing changes for the
/// others.
pub proof fn law_a_deleted_user_is_rejected(
    m: Map<Seq<char>, Seq<char>>,
    user: Seq<char>,
    other: Seq<char>,
    guess: Seq<char>,
)
    requires
        other != user,
    ensures
        !passwd::accepts(m.remove(user), user, guess),
        passwd::accepts(m.remove(user), other, guess) == passwd::accepts(m, other, guess),
{
}

/// Setting the password of a user whose name can stand in a password file
/// keeps a store that can be written.
pub proof fn law_setting_a_password_keeps_the_store_storable(
    m: Map<Seq<char>, Seq<char>>,
    user: Seq<char>,
    hash: Seq<char>,
)
    requires
        is_storable(m),
        is_storable_name(user),
        hashing::is_hash(hash),
    ensures
        is_storable(m.insert(user, hash)),
{
    reveal_strlit("$2b$12$");
    assert forall|k: int| 0 <= k < hash.len() implies hash[k] != '\n' by {
        if k < 7 {
            assert(hash[k] == hash.take(7)[k]);
        } else {
            assert(hashing::is_hash_char(hash[k]));
        }
    }
    assert(hashing::is_hash_char(hash[59]));
}

/// The line is the entry of a user: the name, a colon, and the hash, with white
/// space at most at the ends.
pub open spec fn is_entry(line: Seq<char>, user: Seq<char>, hash: Seq<char>) -> bool {
    &&& !text::is_remark(line)
    &&& text::trim(line) == user + seq![':'] + hash
    &&& !user.contains(':')
}

proof fn lemma_entry_of(line: Seq<char>, user: Seq<char>, hash: Seq<char>)
    ensures
        passwd::entry_of(line) == Some((user, hash)) <==> is_entry(line, user, hash),
{
    let t = text::trim(line);
    text::lemma_first_of_props(t, ':');
    let n = text::first_of(t, ':') as int;
    if passwd::entry_of(line) == Some((user, hash)) {
        assert(t =~= t.take(n) + seq![':'] + t.skip(n + 1));
        if user.contains(':') {
            let k = choose|k: int| 0 <= k < user.len() && user[k] == ':';
            assert(t[k] == user[k]);
        }
    }
    if is_entry(line, user, hash) {
        let m = user.len() as int;
        assert(t[m] == ':');
        assert forall|k: int| 0 <= k < m implies t[k] != ':' by {
            assert(t[k] == user[k]);
            assert(user.contains(user[k]));
        }
        text::lemma_first_of(t, ':', m);
        assert(t.take(m) =~= user);
        assert(t.skip(m + 1) =~= hash);
    }
}

/// Line `n` is the entry of the user, and no later line is one.
pub open spec fn is_last_entry(
    ls: Seq<Seq<char>>,
    n: int,
    user: Seq<char>,
    hash: Seq<char>,
) -> bool {
    &&& 0 <= n < ls.len()
    &&& is_entry(ls[n], user, hash)
    &&& forall|m: int, other: Seq<char>|
        n < m < ls.len() ==> !(#[trigger] is_entry(ls[m], user, other))
}

proof fn lemma_last_entry(ls: Seq<Seq<char>>, user: Seq<char>, hash: Seq<char>)
    ensures
        passwd::users_of(ls).dom().contains(user) && passwd::users_of(ls)[user] == hash
            <==> exists|n: int| #[trigger] is_last_entry(ls, n, user, hash),
    decreases ls.len(),
{
    if ls.len() > 0 {
        let before = ls.drop_last();
        let line = ls.last();
        let end = ls.len() - 1;
        lemma_last_entry(before, user, hash);
        assert forall|m: int| 0 <= m < end implies before[m] == ls[m] by {}
        match passwd::entry_of(line) {
            Some((u, h)) if u == user => {
                lemma_entry_of(line, user, h);
                assert(is_entry(ls[end], user, h));
                assert(is_last_entry(ls, end, user, h));
                if exists|n: int| #[trigger] is_last_entry(ls, n, user, hash) {
                    let n = choose|n: int| #[trigger] is_last_entry(ls, n, user, hash);
                    if n < end {
                        assert(!is_entry(ls[end], user, h));
                    } else {
                        lemma_entry_of(line, user, hash);
                    }
                }
            },
            _ => {
                assert forall|h: Seq<char>| !(#[trigger] is_entry(ls[end], user, h)) by {
                    lemma_entry_of(line, user, h);
                }
                if exists|n: int| #[trigger] is_last_entry(before, n, user, hash) {
                    let n = choose|n: int| #[trigger] is_last_entry(before, n, user, hash);
                    assert forall|m: int, other: Seq<char>| n < m < ls.len() implies !(
                    #[trigger] is_entry(ls[m], user, other)) by {
                        if m < end {
                            assert(!is_entry(before[m], user, other));
                        }
                    }
                    assert(is_last_entry(ls, n, user, hash));
                }
                if exists|n: int| #[trigger] is_last_entry(ls, n, user, hash) {
                    let n = choose|n: int| #[trigger] is_last_entry(ls, n, user, hash);
                    assert(n != end);
                    assert forall|m: int, other: Seq<char>| n < m < before.len() implies !(
                    #[trigger] is_entry(before[m], user, other)) by {
                        assert(!is_entry(ls[m], user, other));
                    }
                    assert(is_last_entry(before, n, user, hash));
                }
            },
        }
    }
}

/// A password file gives a user the hash on the last line that is an entry of
/// that user, and knows exactly the users that have one.
pub proof fn law_the_last_entry_counts(content: Seq<char>, user: Seq<char>, hash: Seq<char>)
    ensures
        passwd::passwd_of(content).dom().contains(user) && passwd::passwd_of(content)[user] == hash
            <==> exists|n: int| #[trigger] is_last_entry(text::lines(content), n, user, hash),
{
    lemma_last_entry(text::lines(content), user, hash);
}

/// A line is malformed exactly if it is no remark and has no colon. The
/// malformed lines are listed by their numbers, in their order.
pub proof fn law_malformed_lines_have_no_colon(ls: Seq<Seq<char>>, n: nat)
    ensures
        passwd::malformed(ls).contains(n) <==> {
            &&& 1 <= n <= ls.len()
            &&& !text::is_remark(ls[n - 1])
            &&& !text::trim(ls[n - 1]).contains(':')
        },
        forall|i: int, j: int|
            0 <= i < j < passwd::malformed(ls).len() ==> #[trigger] passwd::malformed(ls)[i]
                < #[trigger] passwd::malformed(ls)[j],
        forall|i: int|
            0 <= i < passwd::malformed(ls).len() ==> #[trigger] passwd::malformed(ls)[i]
                <= ls.len(),
    decreases ls.len(),
{
    if ls.len() > 0 {
        let line = ls.last();
        let before = passwd::malformed(ls.drop_last());
        let all = passwd::malformed(ls);
        law_malformed_lines_have_no_colon(ls.drop_last(), n);
        let t = text::trim(line);
        text::lemma_first_of_props(t, ':');
        let k = text::first_of(t, ':') as int;
        if k < t.len() {
            assert(t.contains(t[k]));
        }
        if 1 <= n < ls.len() {
            assert(ls.drop_last()[n - 1] == ls[n - 1]);
        }
        if before.contains(n) {
            let i = choose|i: int| 0 <= i < before.len() && before[i] == n;
            assert(all[i] == n);
        }
        if all.contains(n) {
            let i = choose|i: int| 0 <= i < all.len() && all[i] == n;
            if i < before.len() {
                assert(before[i] == n);
            }
        }
        if passwd::is_malformed(line) {
            assert(all[before.len() as int] == ls.len());
        }
    }
}

/// A password is accepted exactly if the user is there and the password is the
/// one that the user's hash was made of.
pub proof fn law_a_password_is_checked_against_the_users_hash(
    m: Map<Seq<char>, Seq<char>>,
    user: Seq<char>,
    password: Seq<char>,
)
    ensures
        m.dom().contains(user) ==> passwd::accepts(m, user, password) == (hashing::bcrypt_says(
            password,
            m[user],
        ) == Some(true)),
        !m.dom().contains(user) ==> !passwd::accepts(m, user, password),
{
}

/// The line is the name of a user, a colon, and the hash of that user.
pub open spec fn is_someones_line(m: Map<Seq<char>, Seq<char>>, line: Seq<char>) -> bool {
    exists|user: Seq<char>| #[trigger]
        m.dom().contains(user) && line == user + seq![':'] + m[user]
}

/// A password file has one line for each user, the name, a colon and the hash,
/// and nothing else. The lines are in the order of their texts, and each ends
/// with a line feed.
pub proof fn law_a_password_file_has_a_line_for_each_user(m: Map<Seq<char>, Seq<char>>)
    requires
        m.dom().finite(),
    ensures
        ({
            let ls = passwd::file_lines(m);
            &&& ls.len() == m.dom().len()
            &&& forall|user: Seq<char>| #[trigger]
                m.dom().contains(user) ==> ls.contains(user + seq![':'] + m[user])
            &&& forall|i: int|
                0 <= i < ls.len() ==> is_someones_line(m, #[trigger] ls[i])
            &&& forall|i: int, j: int|
                0 <= i < j < ls.len() ==> order::text_le(#[trigger] ls[i], #[trigger] ls[j])
            &&& passwd::file_of(m) == text::join(ls, seq!['\n']) + seq!['\n']
        }),
{
    reveal_strlit(":");
    reveal_strlit("\n");
    assert(":"@ =~= seq![':']);
    assert("\n"@ =~= seq!['\n']);
    let users = order::in_order(m.dom());
    let unsorted = Seq::new(users.len(), |i: int| passwd::entry_line(users[i], m[users[i]]));
    let ls = passwd::file_lines(m);
    order_laws::law_the_texts_of_a_set_are_listed_in_order(m.dom());
    order_laws::law_sorted_texts_are_in_order(unsorted);
    assert(ls.len() == unsorted.len()) by {
        broadcast use vstd::seq_lib::group_to_multiset_ensures;

        assert(ls.to_multiset().len() == unsorted.to_multiset().len());
    }
    assert forall|user: Seq<char>| #[trigger] m.dom().contains(user) implies ls.contains(
        user + seq![':'] + m[user],
    ) by {
        assert(users.to_set().contains(user));
        let i = choose|i: int| 0 <= i < users.len() && users[i] == user;
        assert(unsorted[i] == user + seq![':'] + m[user]);
        order::lemma_sorted_contains(unsorted, user + seq![':'] + m[user]);
    }
    assert forall|i: int| 0 <= i < ls.len() implies is_someones_line(m, #[trigger] ls[i]) by {
        order::lemma_sorted_contains(unsorted, ls[i]);
        assert(ls.contains(ls[i]));
        let k = choose|k: int| 0 <= k < unsorted.len() && unsorted[k] == ls[i];
        assert(users.to_set().contains(users[k]));
        assert(m.dom().contains(users[k]));
    }
}

} // verus!
