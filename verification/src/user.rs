//! The authenticated user record carried by a session, and the decision
//! rule that resolves a request's session data to a user. The transport
//! itself (cookies, the session store, the HTTP handler) lives outside
//! the library; it hands in what it read and performs the redirect the
//! decision calls for.

use vstd::prelude::*;

verus! {

/// The signal that a request must be redirected to authentication.
#[derive(Debug, Clone, Copy, PartialEq, Eq)]
pub struct AuthRedirect;

/// One authenticated user: identifier and mail address.
#[derive(Debug, Clone, PartialEq, Eq)]
pub struct User {
    pub id: String,
    pub mail: String,
}

impl User {
    /// The user's identifier, consuming the record.
    pub fn id(self) -> (r: String)
        ensures
            r == self.id,
    {
        self.id
    }

    pub fn new(id: &str, mail: &str) -> (r: User)
        ensures
            r.id@ == id@,
            r.mail@ == mail@,
    {
        User { id: crate::text::string_of(&crate::text::chars_of(id)), mail: crate::text::string_of(
            &crate::text::chars_of(mail),
        ) }
    }
}

/// Resolve a request to its user: a missing session cookie, a session
/// that cannot be loaded, and a session without a stored user each
/// redirect to authentication; only a stored user passes through.
pub fn resolve_session_user(cookie: Option<String>, session_user: Option<User>) -> (r: Result<
    User,
    AuthRedirect,
>)
    ensures
        cookie is None ==> (r matches Err(e) && e == AuthRedirect),
        cookie is Some && session_user is None ==> (r matches Err(e) && e == AuthRedirect),
        cookie is Some && session_user is Some ==> (r matches Ok(u) && Some(u) == session_user),
{
    match cookie {
        None => Err(AuthRedirect),
        Some(_) => match session_user {
            None => Err(AuthRedirect),
            Some(u) => Ok(u),
        },
    }
}

} // verus!
