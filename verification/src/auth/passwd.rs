//! The password file: one user per line, with the hash of the password.
use vstd::prelude::*;
use vstd::relations::*;
use vstd::string::*;

use super::hashing::{self, bcrypt_hash, bcrypt_verify};
use crate::assoc::{self, find_name};
use crate::error::MastError;
use crate::order::{self, not_after, sort_texts};
use crate::text::{self, chars_of, content_of_line, joined, lines_of};

verus! {

/// In-memory store of hashed credentials, loaded from a passwd file.
///
/// File format (one entry per line):
/// ```text
/// username:$2b$12$<bcrypt_hash>
/// # lines starting with # are comments
/// ```
///
/// Its view maps each username to its hash.
pub struct PasswdStore {
    entries: Vec<(String, String)>,
}

spec fn pairs(entries: Seq<(String, String)>) -> Seq<(Seq<char>, Seq<char>)> {
    Seq::new(entries.len(), |i: int| (entries[i].0@, entries[i].1@))
}

/// Every name once, in order.
spec fn well_kept(entries: Seq<(String, String)>) -> bool {
    &&& assoc::distinct(pairs(entries))
    &&& sorted_by(assoc::names(pairs(entries)), order::text_order())
}

impl View for PasswdStore {
    type V = Map<Seq<char>, Seq<char>>;

    closed spec fn view(&self) -> Map<Seq<char>, Seq<char>> {
        assoc::as_map(pairs(self.entries@))
    }
}

/// The username and the hash that a line gives: what is before its first
/// colon and what is behind it. A remark, or a line without a colon, gives
/// nothing.
pub open spec fn entry_of(line: Seq<char>) -> Option<(Seq<char>, Seq<char>)> {
    let t = text::trim(line);
    let n = text::first_of(t, ':') as int;
    if !text::is_remark(line) && n < t.len() {
        Some((t.take(n), t.skip(n + 1)))
    } else {
        None
    }
}

/// The users that lines give. A later line for a user replaces an earlier one.
pub open spec fn users_of(ls: Seq<Seq<char>>) -> Map<Seq<char>, Seq<char>>
    decreases ls.len(),
{
    if ls.len() == 0 {
        Map::empty()
    } else {
        let before = users_of(ls.drop_last());
        match entry_of(ls.last()) {
            Some((user, hash)) => before.insert(user, hash),
            None => before,
        }
    }
}

/// What a password file says.
pub open spec fn passwd_of(content: Seq<char>) -> Map<Seq<char>, Seq<char>> {
    users_of(text::lines(content))
}

/// The line of the file for a user.
pub open spec fn entry_line(user: Seq<char>, hash: Seq<char>) -> Seq<char> {
    user + ":"@ + hash
}

/// The lines of the file, in the order of their text.
pub open spec fn file_lines(m: Map<Seq<char>, Seq<char>>) -> Seq<Seq<char>> {
    let users = order::in_order(m.dom());
    order::sorted(Seq::new(users.len(), |i: int| entry_line(users[i], m[users[i]])))
}

/// The file that holds the users.
pub open spec fn file_of(m: Map<Seq<char>, Seq<char>>) -> Seq<char> {
    text::join(file_lines(m), "\n"@) + "\n"@
}

/// The user exists and the password is theirs.
pub open spec fn accepts(m: Map<Seq<char>, Seq<char>>, user: Seq<char>, password: Seq<char>) -> bool {
    m.dom().contains(user) && hashing::bcrypt_says(password, m[user]) == Some(true)
}

fn put(entries: &mut Vec<(String, String)>, user: &str, hash: String)
    requires
        well_kept(old(entries)@),
    ensures
        well_kept(final(entries)@),
        assoc::as_map(pairs(final(entries)@)) == assoc::as_map(pairs(old(entries)@)).insert(
            user@,
            hash@,
        ),
{
    let ghost e = pairs(entries@);
    match find_name(entries, user) {
        Some(i) => {
            proof {
                assert(e[i as int].0 == user@);
                assoc::lemma_update(e, i as int, hash@);
            }
            let (name, _) = entries.remove(i);
            entries.insert(i, (name, hash));
            assert(pairs(entries@) =~= e.update(i as int, (e[i as int].0, hash@)));
            assert(assoc::names(pairs(entries@)) =~= assoc::names(e));
        },
        None => {
            assert(!assoc::has_name(e, user@));
            let ghost n = assoc::names(e);
            let mut j: usize = 0;
            while j < entries.len() && not_after(entries[j].0.as_str(), user)
                invariant
                    j <= entries.len(),
                    e == pairs(entries@),
                    n == assoc::names(e),
                    forall|k: int| 0 <= k < j ==> order::text_le(#[trigger] n[k], user@),
                decreases entries.len() - j,
            {
                assert(n[j as int] == entries@[j as int].0@);
                j += 1;
            }
            proof {
                if j < entries.len() {
                    assert(n[j as int] == entries@[j as int].0@);
                }
                order::lemma_insert_sorted(n, j as int, user@);
                assoc::lemma_insert(e, j as int, user@, hash@);
            }
            entries.insert(j, (user.to_string(), hash));
            assert(pairs(entries@) =~= e.insert(j as int, (user@, hash@)));
            assert(assoc::names(pairs(entries@)) =~= n.insert(j as int, user@));
        },
    }
}

/// Splits a line at its first colon.
fn split_entry<'a>(line: &'a str) -> (r: Option<(&'a str, &'a str)>)
    ensures
        match r {
            Some((a, b)) => text::first_of(line@, ':') < line@.len() && a@ == line@.take(
                text::first_of(line@, ':') as int,
            ) && b@ == line@.skip(text::first_of(line@, ':') as int + 1),
            None => text::first_of(line@, ':') == line@.len(),
        },
{
    let v = chars_of(line);
    let mut i: usize = 0;
    while i < v.len() && v[i] != ':'
        invariant
            i <= v.len(),
            v@ == line@,
            forall|k: int| 0 <= k < i ==> line@[k] != ':',
        decreases v.len() - i,
    {
        i += 1;
    }
    proof {
        text::lemma_first_of(line@, ':', i as int);
    }
    if i < v.len() {
        let a = line.substring_char(0, i);
        let b = line.substring_char(i + 1, v.len());
        assert(a@ =~= line@.take(i as int));
        assert(b@ =~= line@.skip(i + 1));
        Some((a, b))
    } else {
        None
    }
}

/// The line is malformed: it is no remark, and has no entry.
pub open spec fn is_malformed(line: Seq<char>) -> bool {
    !text::is_remark(line) && entry_of(line) is None
}

/// The numbers, counted from 1, of the malformed lines, in their order.
pub open spec fn malformed(ls: Seq<Seq<char>>) -> Seq<nat>
    decreases ls.len(),
{
    if ls.len() == 0 {
        Seq::empty()
    } else if is_malformed(ls.last()) {
        malformed(ls.drop_last()).push(ls.len())
    } else {
        malformed(ls.drop_last())
    }
}

/// The numbers of the lines of a password file that are passed over without
/// being remarks, in their order.
pub fn malformed_lines(content: &str) -> (v: Vec<usize>)
    ensures
        Seq::new(v@.len(), |i: int| v@[i] as nat) == malformed(text::lines(content@)),
{
    let ls = lines_of(content);
    let ghost texts = text::lines(content@);
    let mut v: Vec<usize> = Vec::new();
    let mut i: usize = 0;
    assert(Seq::new(v@.len(), |i: int| v@[i] as nat) =~= malformed(texts.take(0)));
    while i < ls.len()
        invariant
            i <= ls.len(),
            text::texts(ls@) == texts,
            Seq::new(v@.len(), |i: int| v@[i] as nat) == malformed(texts.take(i as int)),
        decreases ls.len() - i,
    {
        let ghost before = Seq::new(v@.len(), |i: int| v@[i] as nat);
        assert(texts[i as int] == ls@[i as int]@);
        assert(texts.take(i + 1).drop_last() =~= texts.take(i as int));
        match content_of_line(ls[i]) {
            None => {},
            Some(line) => {
                if split_entry(line).is_none() {
                    v.push(i + 1);
                    assert(Seq::new(v@.len(), |i: int| v@[i] as nat) =~= before.push(
                        (i + 1) as nat,
                    ));
                }
            },
        }
        i += 1;
    }
    assert(texts.take(i as int) =~= texts);
    v
}

impl PasswdStore {
    #[verifier::type_invariant]
    spec fn inv(self) -> bool {
        well_kept(self.entries@)
    }

    /// A store without users.
    pub fn empty() -> (s: PasswdStore)
        ensures
            s@ == Map::<Seq<char>, Seq<char>>::empty(),
            forall|user: Seq<char>, password: Seq<char>| !(#[trigger] accepts(s@, user, password)),
    {
        let s = PasswdStore { entries: Vec::new() };
        assert(s@ =~= Map::<Seq<char>, Seq<char>>::empty());
        s
    }

    /// Reads a password file.
    pub fn parse(content: &str) -> (s: PasswdStore)
        ensures
            s@ == passwd_of(content@),
    {
        let ls = lines_of(content);
        let ghost texts = text::lines(content@);
        let mut entries: Vec<(String, String)> = Vec::new();
        let mut i: usize = 0;
        assert(texts.take(0) =~= Seq::empty());
        assert(assoc::as_map(pairs(entries@)) =~= Map::<Seq<char>, Seq<char>>::empty());
        while i < ls.len()
            invariant
                i <= ls.len(),
                text::texts(ls@) == texts,
                well_kept(entries@),
                assoc::as_map(pairs(entries@)) == users_of(texts.take(i as int)),
            decreases ls.len() - i,
        {
            assert(texts[i as int] == ls@[i as int]@);
            assert(texts.take(i + 1).drop_last() =~= texts.take(i as int));
            match content_of_line(ls[i]) {
                None => {},
                Some(line) => {
                    match split_entry(line) {
                        Some((user, hash)) => put(&mut entries, user, hash.to_string()),
                        None => {},
                    }
                },
            }
            i += 1;
        }
        assert(texts.take(i as int) =~= texts);
        PasswdStore { entries }
    }

    /// The password file that holds this store.
    pub fn file_content(&self) -> (s: String)
        ensures
            s@ == file_of(self@),
            self@.dom().finite(),
    {
        proof {
            use_type_invariant(self);
            assoc::lemma_names(pairs(self.entries@));
            order::lemma_is_in_order(assoc::names(pairs(self.entries@)));
        }
        let ghost e = pairs(self.entries@);
        let ghost users = order::in_order(self@.dom());
        let ghost unsorted = Seq::new(users.len(), |i: int| entry_line(users[i], self@[users[i]]));
        let mut lines: Vec<String> = Vec::new();
        let mut i: usize = 0;
        while i < self.entries.len()
            invariant
                i <= self.entries.len(),
                e == pairs(self.entries@),
                assoc::distinct(e),
                users == assoc::names(e),
                self@ == assoc::as_map(e),
                unsorted == Seq::new(users.len(), |i: int| entry_line(users[i], self@[users[i]])),
                text::string_texts(lines@) == unsorted.take(i as int),
            decreases self.entries.len() - i,
        {
            proof {
                assoc::lemma_entry(e, i as int);
            }
            let line = self.entries[i].0.clone().concat(":").concat(self.entries[i].1.as_str());
            assert(line@ == unsorted[i as int]);
            let ghost before = text::string_texts(lines@);
            lines.push(line);
            assert(text::string_texts(lines@) =~= before.push(unsorted[i as int]));
            assert(unsorted.take(i + 1) =~= unsorted.take(i as int).push(unsorted[i as int]));
            i += 1;
        }
        assert(unsorted.take(i as int) =~= unsorted);
        let lines = sort_texts(&lines);
        joined(&lines, "\n").concat("\n")
    }

    /// Returns `true` if `username` exists and `password` matches its hash.
    pub fn verify(&self, username: &str, password: &str) -> (b: bool)
        ensures
            b == accepts(self@, username@, password@),
    {
        proof {
            use_type_invariant(self);
        }
        match find_name(&self.entries, username) {
            Some(i) => {
                proof {
                    assert(pairs(self.entries@)[i as int].0 == username@);
                    assoc::lemma_entry(pairs(self.entries@), i as int);
                }
                match bcrypt_verify(password, self.entries[i].1.as_str()) {
                    Ok(b) => b,
                    Err(_) => false,
                }
            },
            None => {
                assert(!assoc::has_name(pairs(self.entries@), username@));
                false
            },
        }
    }

    /// Adds or replaces a user's password.
    pub fn set_password(&mut self, username: &str, password: &str) -> (r: Result<(), MastError>)
        ensures
            match r {
                Ok(_) => exists|hash: Seq<char>|
                    {
                        &&& #[trigger] hashing::is_hash(hash)
                        &&& hashing::bcrypt_says(password@, hash) == Some(true)
                        &&& final(self)@ == old(self)@.insert(username@, hash)
                    },
                Err(e) => e is Bcrypt && final(self)@ == old(self)@,
            },
            r is Ok ==> accepts(final(self)@, username@, password@),
            forall|user: Seq<char>, guess: Seq<char>|
                user != username@ ==> #[trigger] accepts(final(self)@, user, guess) == accepts(
                    old(self)@,
                    user,
                    guess,
                ),
    {
        let hashed = bcrypt_hash(password);
        self.record(username, hashed)
    }

    /// Adds or replaces a user's hash, unless making it failed.
    pub fn record(&mut self, username: &str, hashed: Result<String, bcrypt::BcryptError>) -> (r:
        Result<(), MastError>)
        ensures
            match hashed {
                Ok(hash) => r is Ok && final(self)@ == old(self)@.insert(username@, hash@),
                Err(e) => r == Err::<(), MastError>(MastError::Bcrypt(e)) && final(self)@
                    == old(self)@,
            },
    {
        proof {
            use_type_invariant(&*self);
        }
        match hashed {
            Ok(hash) => {
                let mut entries: Vec<(String, String)> = Vec::new();
                std::mem::swap(&mut entries, &mut self.entries);
                put(&mut entries, username, hash);
                self.entries = entries;
                Ok(())
            },
            Err(e) => Err(MastError::Bcrypt(e)),
        }
    }

    /// Removes a user. Returns `true` if the user existed.
    pub fn delete(&mut self, username: &str) -> (b: bool)
        ensures
            b == old(self)@.dom().contains(username@),
            final(self)@ == old(self)@.remove(username@),
            forall|user: Seq<char>, guess: Seq<char>| #[trigger]
                accepts(final(self)@, user, guess) <==> accepts(old(self)@, user, guess) && user
                    != username@,
    {
        proof {
            use_type_invariant(&*self);
        }
        let ghost e = pairs(self.entries@);
        match find_name(&self.entries, username) {
            Some(i) => {
                let mut entries: Vec<(String, String)> = Vec::new();
                std::mem::swap(&mut entries, &mut self.entries);
                proof {
                    assert(e[i as int].0 == username@);
                    assoc::lemma_entry(e, i as int);
                    assoc::lemma_remove(e, i as int);
                }
                let _ = entries.remove(i);
                assert(pairs(entries@) =~= e.remove(i as int));
                assert forall|a: int, b: int|
                    0 <= a < b < entries.len() implies #[trigger] order::text_order()(
                    assoc::names(pairs(entries@))[a],
                    assoc::names(pairs(entries@))[b],
                ) by {
                    let a2 = if a < i { a } else { a + 1 };
                    let b2 = if b < i { b } else { b + 1 };
                    assert(order::text_order()(assoc::names(e)[a2], assoc::names(e)[b2]));
                }
                self.entries = entries;
                true
            },
            None => {
                assert(!assoc::has_name(e, username@));
                assert(self@.remove(username@) =~= self@);
                false
            },
        }
    }

    /// Sorted list of all usernames.
    pub fn list(&self) -> (names: Vec<&str>)
        ensures
            text::texts(names@) == order::in_order(self@.dom()),
            self@.dom().finite(),
    {
        proof {
            use_type_invariant(self);
            assoc::lemma_names(pairs(self.entries@));
            order::lemma_is_in_order(assoc::names(pairs(self.entries@)));
        }
        let ghost n = assoc::names(pairs(self.entries@));
        let mut names: Vec<&str> = Vec::new();
        let mut i: usize = 0;
        while i < self.entries.len()
            invariant
                i <= self.entries.len(),
                n == assoc::names(pairs(self.entries@)),
                text::texts(names@) == n.take(i as int),
            decreases self.entries.len() - i,
        {
            let ghost before = text::texts(names@);
            names.push(self.entries[i].0.as_str());
            assert(text::texts(names@) =~= before.push(n[i as int]));
            assert(n.take(i + 1) =~= n.take(i as int).push(n[i as int]));
            i += 1;
        }
        assert(n.take(i as int) =~= n);
        names
    }

    /// Tells whether there are no users.
    pub fn is_empty(&self) -> (b: bool)
        ensures
            b == (self@ == Map::<Seq<char>, Seq<char>>::empty()),
    {
        proof {
            use_type_invariant(self);
            let e = pairs(self.entries@);
            if e.len() == 0 {
                assert(self@ =~= Map::<Seq<char>, Seq<char>>::empty());
            } else {
                assoc::lemma_entry(e, 0);
            }
        }
        self.entries.len() == 0
    }
}

} // verus!
