//! The bearer-token check around the user-facing routes.
//!
//! The layer holds the two accepted secrets; the service it wraps lets a
//! request through exactly when the presented bearer token equals one of
//! them.  The decision is made here; the surrounding middleware plumbing is
//! not part of the library.

use vstd::prelude::*;

verus! {

/// Holds the user and admin secrets a request may present.
#[derive(Debug, Clone)]
pub struct ValidateUserOrAdminTokenLayer {
    user_token: String,
    admin_token: String,
}

impl ValidateUserOrAdminTokenLayer {
    /// The accepted user secret.
    pub closed spec fn user_token_spec(&self) -> Seq<char> {
        self.user_token@
    }

    /// The accepted admin secret.
    pub closed spec fn admin_token_spec(&self) -> Seq<char> {
        self.admin_token@
    }

    pub fn new(user_token: &str, admin_token: &str) -> (r: ValidateUserOrAdminTokenLayer)
        ensures
            r.user_token_spec() == user_token@,
            r.admin_token_spec() == admin_token@,
    {
        ValidateUserOrAdminTokenLayer {
            user_token: user_token.to_owned(),
            admin_token: admin_token.to_owned(),
        }
    }

    /// Wraps a service in the token check.
    pub fn layer<S>(&self, inner: S) -> (r: ValidateUserOrAdminToken<S>)
        ensures
            r.user_token_spec() == self.user_token_spec(),
            r.admin_token_spec() == self.admin_token_spec(),
    {
        ValidateUserOrAdminToken {
            inner,
            user_token: self.user_token.clone(),
            admin_token: self.admin_token.clone(),
        }
    }
}

/// The token check around one service: requests pass exactly when their
/// bearer token equals the user secret or the admin secret.
#[derive(Debug, Clone)]
pub struct ValidateUserOrAdminToken<S> {
    pub inner: S,
    user_token: String,
    admin_token: String,
}

impl<S> ValidateUserOrAdminToken<S> {
    /// The accepted user secret.
    pub closed spec fn user_token_spec(&self) -> Seq<char> {
        self.user_token@
    }

    /// The accepted admin secret.
    pub closed spec fn admin_token_spec(&self) -> Seq<char> {
        self.admin_token@
    }

    /// Whether a presented bearer token authorizes the request: exact
    /// equality with either accepted secret, nothing less.
    pub fn authorizes(&self, presented: &str) -> (r: bool)
        ensures
            r == (presented@ == self.user_token_spec() || presented@ == self.admin_token_spec()),
    {
        let p = presented.to_owned();
        p == self.user_token || p == self.admin_token
    }
}

} // verus!
