//! Sessions

use vstd::prelude::*;

verus! {

/// What every key of a stored session begins with.
pub const SESSION_KEY_HEADER: &'static str = "kebisafe.session:";

/// A workaround for sessions whose identifier has to change after sign-in:
/// the session is marked, and the store asks for the mark when it stores
/// the session.
pub trait SessionWorkaroundExt {
    /// Session key of regeneration flag.
    const REGENERATION_MARK_KEY: &'static str;

    /// Marks the session for ID regeneration.
    fn mark_for_regenerate(&mut self);

    /// Checks whether the session should regenerate the ID.
    /// The session key `REGENERATION_MARK_KEY` will be removed.
    fn should_regenerate(&mut self) -> bool;
}

/// Generates the key under which the store keeps a session: the header
/// followed by the session's own key.
pub fn redis_key(id_header: &str, original_key: &str) -> (key: String)
    ensures
        key@ == id_header@ + original_key@,
{
    let mut key = id_header.to_owned();
    key.append(original_key);
    key
}

/// The pattern that matches the keys of all stored sessions: the header
/// followed by `*`.
pub fn key_pattern(id_header: &str) -> (pattern: String)
    ensures
        pattern@ == id_header@ + "*"@,
{
    let mut pattern = id_header.to_owned();
    pattern.append("*");
    pattern
}

} // verus!
