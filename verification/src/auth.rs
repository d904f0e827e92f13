//! Password hashes (argon2id, in the PHC string format).

use vstd::prelude::*;
use argon2::{Argon2, PasswordHasher, PasswordVerifier};

verus! {

/// Whether argon2 accepts `password` against the PHC string `hash`: the
/// string parses, and hashing the password with its salt and parameters
/// gives its output.
pub uninterp spec fn argon2_accepts(password: Seq<char>, hash: Seq<char>) -> bool;

/// Calls `PasswordHasher::hash_password` of `Argon2::default()` (argon2id
/// with the default parameters and a fresh random salt) and renders the
/// hash as its PHC string, or the error as its text. Claimed: a string it
/// gives is accepted for the same password by `verify_password`, since
/// verifying hashes the password again with the salt and parameters that
/// the string carries; and a PHC string starts with `$`. Not claimed:
/// which salt is drawn, or when the system's random source fails.
#[verifier::external_body]
fn argon2_hash(password: &str) -> (r: Result<String, String>)
    ensures
        r matches Ok(h) ==> argon2_accepts(password@, h@) && h@.len() > 0 && h@[0] == '$',
{
    match Argon2::default().hash_password(password.as_bytes()) {
        Ok(h) => Ok(h.to_string()),
        Err(e) => Err(e.to_string()),
    }
}

/// Calls `PasswordVerifier::verify_password` of `Argon2::default()` with
/// the PHC string itself, which parses the string first. Claimed: the
/// result is `argon2_accepts` of the two arguments, and a string that is
/// empty or does not start with `$` fails to parse and is refused.
#[verifier::external_body]
fn argon2_verify(password: &str, hash: &str) -> (r: bool)
    ensures
        r == argon2_accepts(password@, hash@),
        hash@.len() == 0 || hash@[0] != '$' ==> !r,
{
    Argon2::default().verify_password(password.as_bytes(), hash).is_ok()
}

/// The start of the message when hashing fails.
pub open spec fn hash_failure_prefix() -> Seq<char> {
    "パスワードのハッシュに失敗: "@
}

/// Hashes a password for storing. A hash it gives is one that `verify`
/// accepts for the same password.
pub fn hash(password: &str) -> (r: Result<String, String>)
    ensures
        r matches Ok(h) ==> argon2_accepts(password@, h@) && h@.len() > 0 && h@[0] == '$',
        r matches Err(m) ==> m@.len() >= hash_failure_prefix().len()
            && m@.subrange(0, hash_failure_prefix().len() as int) == hash_failure_prefix(),
{
    match argon2_hash(password) {
        Ok(h) => Ok(h),
        Err(e) => {
            let mut m = String::from_str("パスワードのハッシュに失敗: ");
            proof { reveal_strlit("パスワードのハッシュに失敗: "); }
            let ghost p = m@;
            m.append(e.as_str());
            assert(m@.subrange(0, p.len() as int) == p);
            Err(m)
        },
    }
}

/// Whether `password` matches the stored hash. A stored value that is not
/// a PHC string (such as `!`, which the guest account has) matches no
/// password.
pub fn verify(password: &str, hash: &str) -> (r: bool)
    ensures
        r == argon2_accepts(password@, hash@),
        hash@.len() == 0 || hash@[0] != '$' ==> !r,
{
    argon2_verify(password, hash)
}

} // verus!
