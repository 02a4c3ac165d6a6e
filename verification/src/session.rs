//! Session identity: an opaque per-browser token carried in a cookie.
//! Resolution never fails; an absent, empty or malformed token is
//! replaced by a fresh one.

use vstd::prelude::*;

verus! {

/// Names what `uuid::Uuid::parse_str` accepts: whether the text is a
/// well-formed UUID.
pub uninterp spec fn uuid_accepts(s: Seq<char>) -> bool;

/// Relies on `uuid::Uuid::parse_str`: decides whether the text is a
/// well-formed UUID.
#[verifier::external_body]
pub(crate) fn is_valid_uuid(s: &str) -> (r: bool)
    ensures
        r == uuid_accepts(s@),
{
    uuid::Uuid::parse_str(s).is_ok()
}

/// Relies on `uuid::Uuid::now_v7` and its hyphenated text form: every
/// generated token is 36 characters and parses back as a UUID.
#[verifier::external_body]
pub(crate) fn fresh_session_token() -> (r: String)
    ensures
        uuid_accepts(r@),
        r@.len() == 36,
{
    uuid::Uuid::now_v7().to_string()
}

/// Quiz session context: a wrapper around the session token.
#[derive(Debug)]
pub struct QuizSession {
    pub session_id: String,
}

impl QuizSession {
    /// The session token.
    pub fn session_id(&self) -> (r: &str)
        ensures
            r@ == self.session_id@,
    {
        self.session_id.as_str()
    }

    /// A session with a freshly generated token.
    pub fn new() -> (r: QuizSession)
        ensures
            uuid_accepts(r.session_id@),
            r.session_id@.len() == 36,
    {
        QuizSession { session_id: fresh_session_token() }
    }

    /// A session over an existing token.
    pub fn from_session_id(session_id: String) -> (r: QuizSession)
        ensures
            r.session_id == session_id,
    {
        QuizSession { session_id }
    }
}

/// Resolves the session token of a request: a present, non-empty,
/// well-formed token is kept word for word; anything else yields a fresh
/// one. This never fails.
pub fn resolve_session(cookie_value: Option<&str>) -> (r: String)
    ensures
        match cookie_value {
            Some(s) => if s@.len() > 0 && uuid_accepts(s@) {
                r@ == s@
            } else {
                uuid_accepts(r@) && r@.len() == 36
            },
            None => uuid_accepts(r@) && r@.len() == 36,
        },
{
    match cookie_value {
        Some(s) => {
            if s.unicode_len() > 0 && is_valid_uuid(s) {
                String::from_str(s)
            } else {
                fresh_session_token()
            }
        },
        None => fresh_session_token(),
    }
}

} // verus!
