//! Password hashes, as the `bcrypt` crate makes and checks them.
use vstd::prelude::*;
use vstd::string::*;

verus! {

/// A name for what `bcrypt::verify` says of a password and a hash: whether the
/// password is the one that was hashed, or `None` where the text is no hash.
pub uninterp spec fn bcrypt_says(password: Seq<char>, hash: Seq<char>) -> Option<bool>;

/// A character of the alphabet in which a hash writes its salt and digest.
pub open spec fn is_hash_char(c: char) -> bool {
    let n = c as int;
    ||| 0x2e <= n <= 0x39
    ||| 0x41 <= n <= 0x5a
    ||| 0x61 <= n <= 0x7a
}

/// The shape of a hash: version, cost, then salt and digest.
pub open spec fn is_hash(h: Seq<char>) -> bool {
    &&& h.len() == 60
    &&& h.take(7) == "$2b$12$"@
    &&& forall|k: int| 7 <= k < 60 ==> is_hash_char(#[trigger] h[k])
}

/// Calls `bcrypt::verify`. The result is a function of the password and of the
/// hash alone; it fails where the hash is not one.
#[verifier::external_body]
pub(crate) fn bcrypt_verify(password: &str, hash: &str) -> (r: Result<bool, bcrypt::BcryptError>)
    ensures
        match r {
            Ok(b) => bcrypt_says(password@, hash@) == Some(b),
            Err(_) => bcrypt_says(password@, hash@) is None,
        },
{
    bcrypt::verify(password, hash)
}

/// Calls `bcrypt::hash` at the crate's default cost. The salt is random, so
/// two hashes of one password differ. A hash that was made has the shape of
/// one, and verifies the password that it was made of. When the call fails is
/// left unsaid: that depends on the system's source of randomness.
#[verifier::external_body]
pub(crate) fn bcrypt_hash(password: &str) -> (r: Result<String, bcrypt::BcryptError>)
    ensures
        r matches Ok(h) ==> is_hash(h@) && bcrypt_says(password@, h@) == Some(true),
{
    bcrypt::hash(password, bcrypt::DEFAULT_COST)
}

} // verus!
