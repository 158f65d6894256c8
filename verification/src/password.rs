//! Password hashing, done by the `bcrypt` crate.
use vstd::prelude::*;

verus! {

#[verifier::external_type_specification]
#[verifier::external_body]
pub struct ExBcryptError(bcrypt::BcryptError);

/// What `bcrypt::verify(password, hash)` returns: `Some(b)` for `Ok(b)` and
/// `None` for an error. It depends on the two arguments alone: the hash
/// string carries the salt and the cost.
pub uninterp spec fn bcrypt_verify_outcome(password: Seq<char>, hash: Seq<char>) -> Option<bool>;

/// Whether `hash` is a bcrypt hash that `password` verifies against.
pub open spec fn password_matches(password: Seq<char>, hash: Seq<char>) -> bool {
    bcrypt_verify_outcome(password, hash) == Some(true)
}

/// The shape of a hash made at the default cost: `$2b$12$`, then 22
/// characters of salt and 31 of hash, all in bcrypt's base64 alphabet.
pub open spec fn default_cost_hash(h: Seq<char>) -> bool {
    h.len() == 60 && h.take(7) == "$2b$12$"@
}

/// Calls `bcrypt::hash(password, DEFAULT_COST)`. The salt is random, so
/// nothing names the hash itself; what the crate's source shows is that the
/// hash is written as `$2b$12$` followed by the 22-character salt and the
/// 31-character hash, and that it verifies the same password (`verify`
/// rebuilds the hash from the salt and cost stored in it). It fails only when
/// the system's random source fails; the contract leaves failure open.
#[verifier::external_body]
pub(crate) fn bcrypt_hash(password: &str) -> (r: Result<String, bcrypt::BcryptError>)
    ensures
        r matches Ok(h) ==> default_cost_hash(h@) && password_matches(password@, h@),
{
    bcrypt::hash(password, bcrypt::DEFAULT_COST)
}

/// Calls `bcrypt::verify(password, hash)`.
#[verifier::external_body]
pub(crate) fn bcrypt_verify(password: &str, hash: &str) -> (r: Result<bool, bcrypt::BcryptError>)
    ensures
        match r {
            Ok(b) => bcrypt_verify_outcome(password@, hash@) == Some(b),
            Err(_) => bcrypt_verify_outcome(password@, hash@) is None,
        },
{
    bcrypt::verify(password, hash)
}

/// Hashes a password; `None` when the hashing failed.
pub fn hash_password(password: &str) -> (r: Option<String>)
    ensures
        r matches Some(h) ==> default_cost_hash(h@) && password_matches(password@, h@),
{
    match bcrypt_hash(password) {
        Ok(h) => Some(h),
        Err(_) => None,
    }
}

/// Whether `password` verifies against the stored `hash`; a hash that
/// cannot be read counts as no match.
pub fn check_password(password: &str, hash: &str) -> (r: bool)
    ensures
        r == password_matches(password@, hash@),
{
    match bcrypt_verify(password, hash) {
        Ok(b) => b,
        Err(_) => false,
    }
}

} // verus!
