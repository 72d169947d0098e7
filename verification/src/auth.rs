//! Credentials for the language-model API and when they are usable.
use vstd::prelude::*;
use crate::strings::chars_of;

verus! {

/// How to authenticate with the language-model API.
#[derive(Debug, Clone)]
pub enum AuthMethod {
    ApiKey(String),
    OAuth2 {
        access_token: String,
        /// Unix time in seconds when the token expires.
        expires_at: Option<u64>,
    },
}

/// A credential is usable at time `now` (Unix seconds): a non-empty API
/// key, or a non-empty token that has not expired.
pub open spec fn valid_at(a: AuthMethod, now: u64) -> bool {
    match a {
        AuthMethod::ApiKey(key) => key@.len() > 0,
        AuthMethod::OAuth2 { access_token, expires_at } => access_token@.len() > 0 && match expires_at {
            Some(exp) => now < exp,
            None => true,
        },
    }
}

impl AuthMethod {
    /// Whether the credential is usable at `now` (Unix seconds).
    pub fn is_valid_at(&self, now: u64) -> (r: bool)
        ensures
            r == valid_at(*self, now),
    {
        match self {
            AuthMethod::ApiKey(key) => chars_of(key.as_str()).len() > 0,
            AuthMethod::OAuth2 { access_token, expires_at } => {
                if chars_of(access_token.as_str()).len() == 0 {
                    return false;
                }
                match expires_at {
                    Some(exp) => now < *exp,
                    None => true,
                }
            },
        }
    }

    /// The credential an OAuth2 token response gives at `now`: it expires
    /// `expires_in` seconds later.
    pub fn from_token(access_token: String, expires_in: u64, now: u64) -> (r: AuthMethod)
        requires
            now + expires_in <= u64::MAX,
        ensures
            r matches AuthMethod::OAuth2 { access_token: t, expires_at } && t@ == access_token@ && expires_at == Some(
                (now + expires_in) as u64,
            ),
    {
        AuthMethod::OAuth2 { access_token, expires_at: Some(now + expires_in) }
    }
}

/// A token granted at `now` for `expires_in` seconds is usable from `now`
/// until just before `now + expires_in`, and from then on it is not
/// (provided the token is non-empty and the lifetime positive).
pub proof fn lemma_token_window(access_token: String, expires_in: u64, now: u64, t: u64)
    requires
        now + expires_in <= u64::MAX,
        access_token@.len() > 0,
    ensures
        valid_at(
            AuthMethod::OAuth2 { access_token, expires_at: Some((now + expires_in) as u64) },
            t,
        ) == (t < now + expires_in),
{
}

} // verus!
