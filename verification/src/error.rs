//! The errors of the library.
use vstd::prelude::*;

verus! {

/// Declares `bcrypt::BcryptError`, the error of `bcrypt::hash` and
/// `bcrypt::verify`. It is only carried; nothing is claimed of what it holds.
#[verifier::external_type_specification]
#[verifier::external_body]
pub struct ExBcryptError(bcrypt::BcryptError);

/// What can go wrong while reading the broker's files, hashing a password or
/// asking for a classification.
#[derive(Debug)]
pub enum MastError {
    /// A directive of the configuration file is not acceptable.
    ConfigParse { line: usize, message: String },
    /// The configuration as a whole is not acceptable.
    Config(String),
    /// Hashing a password failed.
    Bcrypt(bcrypt::BcryptError),
    /// Asking for a classification failed.
    Inference(String),
}

} // verus!
