//! Contains API manipulations and types.

pub mod schema;

use crate::text::{ascii_words, chars_eq, chars_of, opt_str_view, split_ascii_whitespace};
use vstd::prelude::*;

verus! {

/// Authorizes API call.
pub struct ApiAuthorizationMiddleware {
    token: String,
}

/// What becomes of an API call.
#[derive(Debug, Clone, Copy, PartialEq, Eq, Structural)]
pub enum Authorization {
    /// The call goes on.
    Granted,
    /// The call is refused: its `Authorization` header does not carry the
    /// token.
    Failed,
    /// The call is refused: it has no `Authorization` header.
    Needed,
}

/// What becomes of a call with the given `Authorization` header where
/// `token` is expected: it goes on where the header's first word is
/// `Bearer` and its second word is the token.
pub open spec fn authorization(token: Seq<char>, header: Option<Seq<char>>) -> Authorization {
    match header {
        Some(header) => {
            let words = ascii_words(header);
            if words.len() >= 2 && words[0] == "Bearer"@ && words[1] == token {
                Authorization::Granted
            } else {
                Authorization::Failed
            }
        },
        None => Authorization::Needed,
    }
}

impl ApiAuthorizationMiddleware {
    /// The token that calls have to carry.
    pub closed spec fn token(&self) -> Seq<char> {
        self.token@
    }

    /// Constructs a new middleware.
    pub fn new(token: &str) -> (middleware: ApiAuthorizationMiddleware)
        ensures
            middleware.token() == token@,
    {
        ApiAuthorizationMiddleware { token: token.to_owned() }
    }

    /// Decides on a call by its `Authorization` header.
    pub fn authorize(&self, header: Option<&str>) -> (decision: Authorization)
        ensures
            decision == authorization(self.token(), opt_str_view(header)),
    {
        match header {
            Some(header) => {
                let words = split_ascii_whitespace(header);
                if words.len() < 2 {
                    return Authorization::Failed;
                }
                let bearer = chars_of("Bearer");
                let token = chars_of(self.token.as_str());
                assert(ascii_words(header@)[0] == words@[0]@);
                assert(ascii_words(header@)[1] == words@[1]@);
                if chars_eq(&words[0], &bearer) && chars_eq(&words[1], &token) {
                    Authorization::Granted
                } else {
                    Authorization::Failed
                }
            },
            None => Authorization::Needed,
        }
    }
}

impl Authorization {
    /// The message a refused call is answered with.
    pub fn message(self) -> (message: Option<&'static str>)
        ensures
            opt_str_view(message) == match self {
                Authorization::Granted => None,
                Authorization::Failed => Some("Authorization failed"@),
                Authorization::Needed => Some("Authorization needed"@),
            },
    {
        match self {
            Authorization::Granted => None,
            Authorization::Failed => Some("Authorization failed"),
            Authorization::Needed => Some("Authorization needed"),
        }
    }
}

} // verus!
