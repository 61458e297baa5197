use captain_mast::auth::passwd::malformed_lines;
use captain_mast::auth::PasswdStore;
use captain_mast::error::MastError;
use captain_mast::passwd_cmd::{
    configured_password_file, confirm, delete_user, list_users, set_hash, set_user, Outcome,
};

const HASH: &str = "$2a$05$CCCCCCCCCCCCCCCCCCCCC.E5YPO9kmyuRGyh0XouQYb4YMJKvyOeW";

fn file() -> String {
    format!("# users\nzoe:{}\n\n  bob:x:y  \nbroken\n", HASH)
}

#[test]
fn a_password_file_is_read() {
    let s = PasswdStore::parse(&file());
    assert_eq!(s.list(), vec!["bob", "zoe"]);
    assert!(!s.is_empty());
    assert_eq!(s.file_content(), format!("bob:x:y\nzoe:{}\n", HASH));
}

#[test]
fn passwords_are_checked() {
    let s = PasswdStore::parse(&file());
    assert!(s.verify("zoe", "U*U"));
    assert!(!s.verify("zoe", "U*V"));
    assert!(!s.verify("zoe", HASH));
    assert!(!s.verify("bob", "x:y"));
    assert!(!s.verify("nobody", "U*U"));
}

#[test]
fn an_empty_store() {
    let s = PasswdStore::empty();
    assert!(s.is_empty());
    assert!(s.list().is_empty());
    assert!(!s.verify("", ""));
    assert_eq!(s.file_content(), "\n");
    assert!(PasswdStore::parse("# nobody\n").is_empty());
}

#[test]
fn a_set_password_is_accepted() {
    let mut s = PasswdStore::parse(&file());
    assert!(s.set_password("bob", "secret").is_ok());
    assert!(s.verify("bob", "secret"));
    assert!(!s.verify("bob", "Secret"));
    assert!(s.verify("zoe", "U*U"));
}

#[test]
fn a_written_store_is_read_back() {
    let mut s = PasswdStore::empty();
    assert!(s.set_password("amy", "pw").is_ok());
    let content = s.file_content();
    assert!(content.starts_with("amy:$2b$12$"));
    assert_eq!(content.len(), "amy:".len() + 60 + 1);
    let t = PasswdStore::parse(&content);
    assert!(t.verify("amy", "pw"));
    assert_eq!(t.file_content(), content);
}

#[test]
fn some_names_are_not_read_back() {
    let mut s = PasswdStore::empty();
    assert!(s.record("a:b", Ok("h".to_string())).is_ok());
    let t = PasswdStore::parse(&s.file_content());
    assert_eq!(t.list(), vec!["a"]);
    let mut s = PasswdStore::empty();
    assert!(s.record("#a", Ok("h".to_string())).is_ok());
    assert!(PasswdStore::parse(&s.file_content()).is_empty());
}

#[test]
fn the_last_entry_counts() {
    let s = PasswdStore::parse("a:1\na:2\n");
    assert_eq!(s.file_content(), "a:2\n");
}

#[test]
fn lines_are_sorted_as_lines() {
    let s = PasswdStore::parse("a!:2\na:1\n");
    assert_eq!(s.list(), vec!["a", "a!"]);
    assert_eq!(s.file_content(), "a!:2\na:1\n");
}

#[test]
fn a_deleted_user_is_gone() {
    let mut s = PasswdStore::parse(&file());
    assert!(s.delete("zoe"));
    assert!(!s.delete("zoe"));
    assert!(!s.verify("zoe", "U*U"));
    assert_eq!(s.list(), vec!["bob"]);
}

#[test]
fn a_hash_that_failed_is_not_recorded() {
    let mut s = PasswdStore::parse(&file());
    let r = s.record("bob", Err(bcrypt::BcryptError::CostNotAllowed(99)));
    assert!(matches!(
        r,
        Err(MastError::Bcrypt(bcrypt::BcryptError::CostNotAllowed(99)))
    ));
    assert_eq!(s.file_content(), format!("bob:x:y\nzoe:{}\n", HASH));
}

#[test]
fn the_command_sets_a_user() {
    let content = match set_user(Some("zoe:h\n"), "bob", "pw") {
        Ok(Outcome::Write { content, message }) => {
            assert_eq!(message, "Password updated for 'bob'");
            content
        }
        other => panic!("{:?}", other),
    };
    assert!(content.ends_with("\nzoe:h\n"));
    let s = PasswdStore::parse(&content);
    assert!(s.verify("bob", "pw"));
    assert_eq!(s.list(), vec!["bob", "zoe"]);
}

#[test]
fn the_command_makes_a_new_file() {
    match set_hash(None, "bob", Ok("h".to_string())) {
        Ok(Outcome::Write { content, message }) => {
            assert_eq!(content, "bob:h\n");
            assert_eq!(message, "Password updated for 'bob'");
        }
        other => panic!("{:?}", other),
    }
    let r = set_hash(None, "bob", Err(bcrypt::BcryptError::CostNotAllowed(1)));
    assert!(matches!(r, Err(MastError::Bcrypt(_))));
}

#[test]
fn the_command_deletes_a_user() {
    match delete_user("bob:h\nzoe:g\n", "bob") {
        Outcome::Write { content, message } => {
            assert_eq!(content, "zoe:g\n");
            assert_eq!(message, "Deleted user 'bob'");
        }
        other => panic!("{:?}", other),
    }
    match delete_user("bob:h\n", "eve") {
        Outcome::Refuse(message) => assert_eq!(message, "User 'eve' not found"),
        other => panic!("{:?}", other),
    }
}

#[test]
fn the_command_lists_the_users() {
    assert_eq!(list_users(Some("zoe:g\nbob:h\n")), vec!["bob", "zoe"]);
    assert_eq!(list_users(Some("# none\n")), vec!["(no users)"]);
    assert_eq!(list_users(None), vec!["(no users)"]);
}

#[test]
fn the_password_is_confirmed() {
    assert_eq!(confirm("pw".to_string(), "pw"), Ok("pw".to_string()));
    assert_eq!(
        confirm("pw".to_string(), "PW"),
        Err("Error: passwords do not match".to_string())
    );
}

#[test]
fn the_password_file_is_found() {
    assert_eq!(configured_password_file(None), "passwd");
    assert_eq!(configured_password_file(Some("")), "passwd");
    assert_eq!(configured_password_file(Some("listener x\n")), "passwd");
    assert_eq!(configured_password_file(Some("password_file /etc/mast/pw\n")), "/etc/mast/pw");
    assert_eq!(
        configured_password_file(Some("password_file pw\nallow_anonymous maybe\n")),
        "passwd"
    );
}

#[test]
fn malformed_lines_are_reported() {
    assert_eq!(malformed_lines(&file()), vec![5]);
    assert_eq!(malformed_lines("a\n# b\n\n:c\n d \n"), vec![1, 5]);
    assert!(malformed_lines("").is_empty());
}
