//! Signing in.

use crate::text::str_eq;
use argon2::{Argon2, PasswordHash, PasswordVerifier};
use vstd::prelude::*;
use vstd::string::StringSliceAdditionalSpecFns;

verus! {

/// Whether the password is the one that a hash in PHC string format was
/// made of, as argon2 judges with the parameters that the hash names;
/// `None` where the text is no such hash.
pub uninterp spec fn password_verdict(password: Seq<u8>, hash: Seq<char>) -> Option<bool>;

/// `PasswordHash::new` and `Argon2::verify_password`: whether the
/// password matches the hash, or nothing where the hash cannot be read.
#[verifier::external_body]
fn verify_password(password: &[u8], hash: &str) -> (verdict: Option<bool>)
    ensures
        verdict == password_verdict(password@, hash@),
{
    let parsed = PasswordHash::new(hash).ok()?;
    Some(Argon2::default().verify_password(password, &parsed).is_ok())
}

/// How an attempt to sign in ends.
#[derive(Debug, Clone, Copy, PartialEq, Eq, Structural)]
pub enum Signin {
    /// The owner is signed in.
    Welcome,
    /// The name is not the owner's, or the password is not theirs.
    UserNotFound,
    /// The owner's password hash cannot be read.
    InvalidHash,
}

/// How an attempt with a name ends, given what became of the password.
pub open spec fn signin_of(name_matches: bool, verdict: Option<bool>) -> Signin {
    if !name_matches {
        Signin::UserNotFound
    } else {
        match verdict {
            Some(true) => Signin::Welcome,
            Some(false) => Signin::UserNotFound,
            None => Signin::InvalidHash,
        }
    }
}

/// Decides an attempt of which the name was compared already, given what
/// became of the password.
pub fn judge_signin(name_matches: bool, verdict: Option<bool>) -> (outcome: Signin)
    ensures
        outcome == signin_of(name_matches, verdict),
{
    if !name_matches {
        return Signin::UserNotFound;
    }
    match verdict {
        Some(true) => Signin::Welcome,
        Some(false) => Signin::UserNotFound,
        None => Signin::InvalidHash,
    }
}

/// Performs sign in: the owner is signed in where the name is theirs and
/// the password matches their hash. The password is not looked at where
/// the name is another's.
pub fn signin(account_name: &str, account_password: &str, username: &str, password: &str) -> (outcome:
    Signin)
    ensures
        outcome == signin_of(
            username@ == account_name@,
            password_verdict(password.spec_bytes(), account_password@),
        ),
{
    // Verify username
    if !str_eq(username, account_name) {
        return Signin::UserNotFound;
    }
    // Verify password
    judge_signin(true, verify_password(password.as_bytes(), account_password))
}

} // verus!
