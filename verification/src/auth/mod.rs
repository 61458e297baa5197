//! Who may connect, and who may read or write which topic.
pub mod acl;
pub mod acl_file_laws;
pub mod acl_laws;
pub mod hashing;
pub mod passwd;
pub mod passwd_laws;

pub use acl::{topic_matches, AclAccess, AclStore};
pub use passwd::PasswdStore;
