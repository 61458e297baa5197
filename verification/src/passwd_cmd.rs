//! The `passwd` command, between the password file that it reads and the one
//! that it writes.
use vstd::prelude::*;
use vstd::string::*;

use crate::auth::hashing::{self, bcrypt_hash};
use crate::auth::passwd::{self, PasswdStore};
use crate::auth::passwd_laws;
use crate::config::parser::{self, MastConfig};
use crate::config::setting_laws;
use crate::error::MastError;
use crate::order;
use crate::order_laws;
use crate::text::{self, same_text};

verus! {

/// What the command does in the end.
#[derive(Debug)]
pub enum Outcome {
    /// Writes the password file and prints a message.
    Write { content: String, message: String },
    /// Prints an error message and fails.
    Refuse(String),
}

/// The password file of a configuration file, `None` if that could not be
/// read.
pub open spec fn password_file(config: Option<Seq<char>>) -> Seq<char> {
    match config {
        Some(content) => match parser::config_of(content) {
            Ok(c) => match c.password_file {
                Some(path) => path,
                None => "passwd"@,
            },
            Err(_) => "passwd"@,
        },
        None => "passwd"@,
    }
}

/// The password file that a configuration file names, or the default one.
pub fn configured_password_file(config: Option<&str>) -> (path: String)
    ensures
        path@ == password_file(
            match config {
                Some(content) => Some(content@),
                None => None,
            },
        ),
{
    let found = match config {
        Some(content) => match MastConfig::parse(content) {
            Ok(c) => c.password_file,
            Err(_) => None,
        },
        None => None,
    };
    match found {
        Some(path) => path,
        None => "passwd".to_string(),
    }
}

/// Checks that a password was typed the same way twice.
pub fn confirm(password: String, again: &str) -> (r: Result<String, String>)
    ensures
        match r {
            Ok(p) => password@ == again@ && p@ == password@,
            Err(message) => password@ != again@ && message@ == "Error: passwords do not match"@,
        },
{
    if same_text(password.as_str(), again) {
        Ok(password)
    } else {
        Err("Error: passwords do not match".to_string())
    }
}

/// The users of a password file, none if there is no such file.
pub open spec fn users_in(file: Option<Seq<char>>) -> Map<Seq<char>, Seq<char>> {
    match file {
        Some(content) => passwd::passwd_of(content),
        None => Map::empty(),
    }
}

fn read_store(file: Option<&str>) -> (store: PasswdStore)
    ensures
        store@ == users_in(
            match file {
                Some(content) => Some(content@),
                None => None,
            },
        ),
{
    match file {
        Some(content) => PasswdStore::parse(content),
        None => PasswdStore::empty(),
    }
}

/// Adds or updates a user, given the hash of the password.
pub fn set_hash(
    file: Option<&str>,
    username: &str,
    hashed: Result<String, bcrypt::BcryptError>,
) -> (r: Result<Outcome, MastError>)
    ensures
        match hashed {
            Ok(hash) => {
                &&& r matches Ok(Outcome::Write { content, message })
                &&& content@ == passwd::file_of(
                    users_in(
                        match file {
                            Some(old_content) => Some(old_content@),
                            None => None,
                        },
                    ).insert(username@, hash@),
                )
                &&& message@ == "Password updated for '"@ + username@ + "'"@
            },
            Err(e) => r == Err::<Outcome, MastError>(MastError::Bcrypt(e)),
        },
{
    let mut store = read_store(file);
    match store.record(username, hashed) {
        Ok(()) => Ok(
            Outcome::Write {
                content: store.file_content(),
                message: "Password updated for '".to_string().concat(username).concat("'"),
            },
        ),
        Err(e) => Err(e),
    }
}

/// Adds or updates a user.
pub fn set_user(file: Option<&str>, username: &str, password: &str) -> (r: Result<
    Outcome,
    MastError,
>)
    ensures
        match r {
            Ok(Outcome::Write { content, message }) => {
                &&& exists|hash: Seq<char>|
                    {
                        &&& #[trigger] hashing::is_hash(hash)
                        &&& hashing::bcrypt_says(password@, hash) == Some(true)
                        &&& content@ == passwd::file_of(
                            users_in(
                                match file {
                                    Some(old_content) => Some(old_content@),
                                    None => None,
                                },
                            ).insert(username@, hash),
                        )
                    }
                &&& message@ == "Password updated for '"@ + username@ + "'"@
            },
            Ok(Outcome::Refuse(_)) => false,
            Err(e) => e is Bcrypt,
        },
        r matches Ok(Outcome::Write { content, .. }) ==> passwd_laws::is_storable_name(username@)
            ==> {
            let before = users_in(
                match file {
                    Some(old_content) => Some(old_content@),
                    None => None,
                },
            );
            let after = passwd::passwd_of(content@);
            &&& passwd::accepts(after, username@, password@)
            &&& forall|user: Seq<char>, guess: Seq<char>|
                user != username@ ==> #[trigger] passwd::accepts(after, user, guess)
                    == passwd::accepts(before, user, guess)
        },
{
    let hashed = bcrypt_hash(password);
    let ghost view = match file {
        Some(old_content) => Some(old_content@),
        None => None,
    };
    proof {
        if let Ok(hash) = &hashed {
            if passwd_laws::is_storable_name(username@) {
                let after = passwd::passwd_of(
                    passwd::file_of(users_in(view).insert(username@, hash@)),
                );
                law_a_user_that_was_set_is_accepted(
                    view,
                    username@,
                    password@,
                    hash@,
                    username@.push(':'),
                    password@,
                );
                assert forall|user: Seq<char>, guess: Seq<char>| user
                    != username@ implies #[trigger] passwd::accepts(after, user, guess)
                    == passwd::accepts(users_in(view), user, guess) by {
                    law_a_user_that_was_set_is_accepted(
                        view,
                        username@,
                        password@,
                        hash@,
                        user,
                        guess,
                    );
                }
            }
        }
    }
    set_hash(file, username, hashed)
}

/// Deletes a user.
pub fn delete_user(content: &str, username: &str) -> (r: Outcome)
    ensures
        match r {
            Outcome::Write { content: new_content, message } => {
                &&& passwd::passwd_of(content@).dom().contains(username@)
                &&& new_content@ == passwd::file_of(
                    passwd::passwd_of(content@).remove(username@),
                )
                &&& message@ == "Deleted user '"@ + username@ + "'"@
            },
            Outcome::Refuse(message) => {
                &&& !passwd::passwd_of(content@).dom().contains(username@)
                &&& message@ == "User '"@ + username@ + "' not found"@
            },
        },
        r matches Outcome::Write { content: new_content, .. } ==> forall|
            user: Seq<char>,
            guess: Seq<char>,
        | #[trigger]
            passwd::accepts(passwd::passwd_of(new_content@), user, guess) <==> passwd::accepts(
                passwd::passwd_of(content@),
                user,
                guess,
            ) && user != username@,
{
    proof {
        let after = passwd::passwd_of(
            passwd::file_of(passwd::passwd_of(content@).remove(username@)),
        );
        assert forall|user: Seq<char>, guess: Seq<char>| #[trigger]
            passwd::accepts(after, user, guess) <==> passwd::accepts(
            passwd::passwd_of(content@),
            user,
            guess,
        ) && user != username@ by {
            assert(username@.push(':').len() != username@.len());
            law_a_user_that_was_deleted_is_rejected(
                content@,
                username@,
                if user != username@ {
                    user
                } else {
                    username@.push(':')
                },
                guess,
            );
        }
    }
    let mut store = PasswdStore::parse(content);
    if store.delete(username) {
        Outcome::Write {
            content: store.file_content(),
            message: "Deleted user '".to_string().concat(username).concat("'"),
        }
    } else {
        Outcome::Refuse("User '".to_string().concat(username).concat("' not found"))
    }
}

/// The lines that tell of the users: their names in order, or that there are
/// none.
pub open spec fn listing(users: Map<Seq<char>, Seq<char>>) -> Seq<Seq<char>> {
    if users == Map::<Seq<char>, Seq<char>>::empty() {
        seq!["(no users)"@]
    } else {
        order::in_order(users.dom())
    }
}

/// Lists the users.
pub fn list_users(file: Option<&str>) -> (lines: Vec<String>)
    ensures
        text::string_texts(lines@) == listing(
            users_in(
                match file {
                    Some(content) => Some(content@),
                    None => None,
                },
            ),
        ),
{
    let store = read_store(file);
    let mut lines: Vec<String> = Vec::new();
    if store.is_empty() {
        lines.push("(no users)".to_string());
        assert(text::string_texts(lines@) =~= seq!["(no users)"@]);
        return lines;
    }
    let names = store.list();
    let ghost all = text::texts(names@);
    let mut i: usize = 0;
    while i < names.len()
        invariant
            i <= names.len(),
            all == text::texts(names@),
            text::string_texts(lines@) == all.take(i as int),
        decreases names.len() - i,
    {
        let ghost before = text::string_texts(lines@);
        lines.push(names[i].to_string());
        assert(text::string_texts(lines@) =~= before.push(all[i as int]));
        assert(all.take(i + 1) =~= all.take(i as int).push(all[i as int]));
        i += 1;
    }
    assert(all.take(i as int) =~= all);
    lines
}

/// A user whose name can stand in a password file, and whose password was set,
/// is accepted with it once the file that was written is read again. For all
/// others nothing changes.
pub proof fn law_a_user_that_was_set_is_accepted(
    file: Option<Seq<char>>,
    user: Seq<char>,
    password: Seq<char>,
    hash: Seq<char>,
    other: Seq<char>,
    guess: Seq<char>,
)
    requires
        passwd_laws::is_storable_name(user),
        hashing::is_hash(hash),
        hashing::bcrypt_says(password, hash) == Some(true),
        other != user,
    ensures
        ({
            let after = passwd::passwd_of(passwd::file_of(users_in(file).insert(user, hash)));
            &&& passwd::accepts(after, user, password)
            &&& passwd::accepts(after, other, guess) == passwd::accepts(
                users_in(file),
                other,
                guess,
            )
        }),
{
    let m = users_in(file);
    match file {
        Some(content) => passwd_laws::law_a_read_store_is_storable(content),
        None => {},
    }
    passwd_laws::law_setting_a_password_keeps_the_store_storable(m, user, hash);
    passwd_laws::law_a_written_store_is_read_back(m.insert(user, hash));
    passwd_laws::law_a_set_password_is_accepted(m, user, password, hash, other, guess);
}

/// A user who was deleted is accepted with no password once the file that was
/// written is read again. For all others nothing changes.
pub proof fn law_a_user_that_was_deleted_is_rejected(
    content: Seq<char>,
    user: Seq<char>,
    other: Seq<char>,
    guess: Seq<char>,
)
    requires
        other != user,
    ensures
        ({
            let after = passwd::passwd_of(
                passwd::file_of(passwd::passwd_of(content).remove(user)),
            );
            &&& !passwd::accepts(after, user, guess)
            &&& passwd::accepts(after, other, guess) == passwd::accepts(
                passwd::passwd_of(content),
                other,
                guess,
            )
        }),
{
    let m = passwd::passwd_of(content);
    passwd_laws::law_a_read_store_is_storable(content);
    passwd_laws::law_a_written_store_is_read_back(m.remove(user));
    passwd_laws::law_a_deleted_user_is_rejected(m, user, other, guess);
}

/// The password file is the one that the last `password_file` line of an
/// accepted configuration file names; without such a line, and where the
/// configuration cannot be read or is refused, it is `passwd`.
pub proof fn law_the_configuration_names_the_password_file(content: Seq<char>)
    ensures
        password_file(None) == "passwd"@,
        parser::config_of(content) is Err ==> password_file(Some(content)) == "passwd"@,
        parser::config_of(content) is Ok ==> password_file(Some(content)) == (
        match setting_laws::last(text::lines(content), "password_file"@) {
            Some(path) => path,
            None => "passwd"@,
        }),
{
    setting_laws::law_each_setting_is_on_its_last_line(content);
}

/// A file that is not there has no users.
pub proof fn law_a_missing_file_has_no_users(content: Seq<char>)
    ensures
        users_in(None) == Map::<Seq<char>, Seq<char>>::empty(),
        users_in(Some(content)) == passwd::passwd_of(content),
{
}

/// The listing has each user once and in order, or says that there are none.
pub proof fn law_the_listing_names_each_user(users: Map<Seq<char>, Seq<char>>)
    requires
        users.dom().finite(),
    ensures
        users.dom().len() == 0 ==> listing(users) == seq!["(no users)"@],
        users.dom().len() > 0 ==> {
            &&& listing(users).no_duplicates()
            &&& listing(users).to_set() == users.dom()
            &&& forall|i: int, j: int|
                0 <= i < j < listing(users).len() ==> order::text_le(
                    #[trigger] listing(users)[i],
                    #[trigger] listing(users)[j],
                )
        },
{
    if users.dom().len() == 0 {
        assert(users =~= Map::<Seq<char>, Seq<char>>::empty());
    } else {
        assert(users.dom() != Map::<Seq<char>, Seq<char>>::empty().dom());
        order_laws::law_the_texts_of_a_set_are_listed_in_order(users.dom());
    }
}

} // verus!
