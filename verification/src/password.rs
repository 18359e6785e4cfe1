//! Password hashing and verification, treated as an external primitive.

use vstd::prelude::*;

verus! {

/// Whether bcrypt verification of `password` against `digest` succeeds: a
/// function of the two arguments alone (the salt and cost are read back out
/// of the digest).
pub uninterp spec fn bcrypt_verifies(password: Seq<char>, digest: Seq<char>) -> bool;

/// Whether bcrypt verification against `digest` completes at all: a
/// function of the digest alone (verification fails early only when the
/// digest does not parse or carries a cost outside bcrypt's range).
pub uninterp spec fn bcrypt_digest_ok(digest: Seq<char>) -> bool;

/// Relies on bcrypt::hash with the crate's default cost: the digest it
/// returns is a well-formed bcrypt digest embedding the salt, and
/// bcrypt::verify of the same password against that digest completes and
/// succeeds.
#[verifier::external_body]
pub fn hash_password(password: &String) -> (r: Result<String, String>)
    ensures
        r matches Ok(d) ==> bcrypt_verifies(password@, d@) && bcrypt_digest_ok(d@),
{
    match bcrypt::hash(password.as_str(), bcrypt::DEFAULT_COST) {
        Ok(d) => Ok(d),
        Err(e) => Err(format!("{e}")),
    }
}

/// Relies on bcrypt::verify: deterministic in the password and the digest,
/// and it errs only when the digest is malformed or carries an out-of-range
/// cost — never on a digest bcrypt's own hashing produced.
#[verifier::external_body]
pub fn verify_password(password: &String, digest: &String) -> (r: Result<bool, String>)
    ensures
        r matches Ok(b) ==> b == bcrypt_verifies(password@, digest@),
        bcrypt_digest_ok(digest@) ==> r is Ok,
{
    match bcrypt::verify(password.as_str(), digest.as_str()) {
        Ok(b) => Ok(b),
        Err(e) => Err(format!("{e}")),
    }
}

} // verus!
