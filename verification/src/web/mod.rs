//! Contains Web manipulations.
//!
//! What the middlewares decide before a request reaches its endpoint, by
//! the request's method and the kind of its body.

pub mod auth;
pub mod multipart;
pub mod session;

use crate::action::session::{token_verdict, verify_csrf_token, TokenError, KEY_LENGTH};
use crate::text::{opt_str_view, str_eq};
use vstd::prelude::*;

verus! {

/// The kinds of request body that the middlewares tell apart.
#[derive(Debug, Clone, Copy, PartialEq, Eq, Structural)]
pub enum BodyKind {
    /// `application/x-www-form-urlencoded`
    Form,
    /// `multipart/form-data`
    Multipart,
    /// Any other content type, or none.
    Other,
}

/// The kind of a body by the essence of its content type.
pub open spec fn body_kind_of(essence: Option<Seq<char>>) -> BodyKind {
    match essence {
        Some(essence) => if essence == "application/x-www-form-urlencoded"@ {
            BodyKind::Form
        } else if essence == "multipart/form-data"@ {
            BodyKind::Multipart
        } else {
            BodyKind::Other
        },
        None => BodyKind::Other,
    }
}

/// The kind of a body by the essence of its content type.
pub fn body_kind(essence: Option<&str>) -> (kind: BodyKind)
    ensures
        kind == body_kind_of(opt_str_view(essence)),
{
    match essence {
        Some(essence) => if str_eq(essence, "application/x-www-form-urlencoded") {
            BodyKind::Form
        } else if str_eq(essence, "multipart/form-data") {
            BodyKind::Multipart
        } else {
            BodyKind::Other
        },
        None => BodyKind::Other,
    }
}

/// What to do with a request's body before its endpoint runs.
#[derive(Debug, Clone, Copy, PartialEq, Eq, Structural)]
pub enum Preparse {
    /// Hand the request on as it is.
    Skip,
    /// Parse the body as a form and keep the result with the request.
    Form,
    /// Parse the body as multipart data with the content type's boundary
    /// and keep the fields with the request.
    Multipart,
    /// Refuse the request: a multipart body without boundary.
    Invalid,
}

/// Parses form bodies ahead of the endpoints.
pub struct FormPreparseMiddleware;

impl FormPreparseMiddleware {
    /// Decides what to parse, by the kind of the body and by whether its
    /// content type names a boundary.
    pub fn plan(&self, kind: BodyKind, has_boundary: bool) -> (plan: Preparse)
        ensures
            plan == match kind {
                BodyKind::Other => Preparse::Skip,
                BodyKind::Form => Preparse::Form,
                BodyKind::Multipart => if has_boundary {
                    Preparse::Multipart
                } else {
                    Preparse::Invalid
                },
            },
    {
        match kind {
            BodyKind::Other => Preparse::Skip,
            BodyKind::Form => Preparse::Form,
            BodyKind::Multipart => if has_boundary {
                Preparse::Multipart
            } else {
                Preparse::Invalid
            },
        }
    }
}

/// Whether requests of the method go on unchecked: those that only read.
pub open spec fn is_safe_method(method: Seq<char>) -> bool {
    method == "GET"@ || method == "HEAD"@ || method == "OPTIONS"@
}

/// Whether requests of the method go on unchecked.
pub fn safe_method(method: &str) -> (safe: bool)
    ensures
        safe == is_safe_method(method@),
{
    str_eq(method, "GET") || str_eq(method, "HEAD") || str_eq(method, "OPTIONS")
}

/// The name of the method that a request asks to be taken for: the value
/// of its `_method` field, for a `POST` request whose body is a form or
/// multipart data.
pub fn method_override<'a>(method: &str, kind: BodyKind, field: Option<&'a str>) -> (wanted:
    Option<&'a str>)
    ensures
        wanted == if method@ == "POST"@ && kind != BodyKind::Other {
            field
        } else {
            None
        },
{
    if !str_eq(method, "POST") {
        return None;
    }
    match kind {
        BodyKind::Form => field,
        BodyKind::Multipart => field,
        BodyKind::Other => None,
    }
}

/// What the CSRF protection does with a request.
#[derive(Debug, Clone, Copy, PartialEq, Eq, Structural)]
pub enum CsrfPlan {
    /// Hand the request on unchecked.
    Pass,
    /// Verify the token of the request and hand it on only if it holds.
    Verify,
    /// Refuse the request: it carries no token.
    Refuse,
}

/// What the CSRF protection does with a request by its method, the kind
/// of its body and whether it carries a token: one that only reads goes
/// on unchecked, and so does one whose body is neither a form nor
/// multipart data; any other has to carry a token.
pub open spec fn csrf_plan_of(method: Seq<char>, kind: BodyKind, has_token: bool) -> CsrfPlan {
    if is_safe_method(method) || kind == BodyKind::Other {
        CsrfPlan::Pass
    } else if has_token {
        CsrfPlan::Verify
    } else {
        CsrfPlan::Refuse
    }
}

/// Decides whether a request has to prove itself.
pub fn csrf_plan(method: &str, kind: BodyKind, has_token: bool) -> (plan: CsrfPlan)
    ensures
        plan == csrf_plan_of(method@, kind, has_token),
{
    if safe_method(method) {
        return CsrfPlan::Pass;
    }
    match kind {
        BodyKind::Other => CsrfPlan::Pass,
        _ => if has_token {
            CsrfPlan::Verify
        } else {
            CsrfPlan::Refuse
        },
    }
}

/// Why the CSRF protection refuses a request.
#[derive(Debug, Clone, Copy, PartialEq, Eq, Structural)]
pub enum CsrfRefusal {
    /// The request carries no token.
    Missing,
    /// The token of the request does not hold.
    Invalid(TokenError),
}

/// Validates the CSRF token of requests that write.
pub struct CsrfProtectionMiddleware {
    secret_key: Vec<u8>,
}

impl CsrfProtectionMiddleware {
    #[verifier::type_invariant]
    spec fn well_formed(self) -> bool {
        self.secret_key@.len() == KEY_LENGTH
    }

    /// The key that tokens are sealed with.
    pub closed spec fn secret_key(&self) -> Seq<u8> {
        self.secret_key@
    }

    /// Constructs the protection from the key that tokens are sealed
    /// with; fails where the key is not of `KEY_LENGTH` bytes.
    pub fn new(secret_key: Vec<u8>) -> (middleware: Result<CsrfProtectionMiddleware, TokenError>)
        ensures
            match middleware {
                Ok(middleware) => secret_key@.len() == KEY_LENGTH && middleware.secret_key()
                    == secret_key@,
                Err(error) => error == TokenError::Key && secret_key@.len() != KEY_LENGTH,
            },
    {
        if secret_key.len() != KEY_LENGTH {
            return Err(TokenError::Key);
        }
        Ok(CsrfProtectionMiddleware { secret_key })
    }

    /// Decides on a request of the given method and body kind in the
    /// session, at the given time in seconds since the Unix epoch: it goes
    /// on where it needs no token or carries one that holds.
    pub fn handle(
        &self,
        method: &str,
        kind: BodyKind,
        token: Option<&str>,
        session_id: &str,
        now: i64,
    ) -> (decision: Result<(), CsrfRefusal>)
        ensures
            self.secret_key().len() == KEY_LENGTH,
            decision == match csrf_plan_of(method@, kind, token.is_some()) {
                CsrfPlan::Pass => Ok::<(), CsrfRefusal>(()),
                CsrfPlan::Refuse => Err(CsrfRefusal::Missing),
                CsrfPlan::Verify => match token_verdict(
                    self.secret_key(),
                    session_id@,
                    token.unwrap()@,
                    now as int,
                ) {
                    Ok(_) => Ok(()),
                    Err(error) => Err(CsrfRefusal::Invalid(error)),
                },
            },
    {
        proof {
            use_type_invariant(self);
        }
        match csrf_plan(method, kind, token.is_some()) {
            CsrfPlan::Pass => Ok(()),
            CsrfPlan::Refuse => Err(CsrfRefusal::Missing),
            CsrfPlan::Verify => match token {
                Some(token) => match verify_csrf_token(
                    self.secret_key.as_slice(),
                    session_id,
                    token,
                    now,
                ) {
                    Ok(_) => Ok(()),
                    Err(error) => Err(CsrfRefusal::Invalid(error)),
                },
                None => Err(CsrfRefusal::Missing),
            },
        }
    }
}

} // verus!
