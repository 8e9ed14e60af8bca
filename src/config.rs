//! The stored credentials.
use crate::cookie::{cookie_pairs, lookup, missing_key, Cookie, CookieError};
use crate::twitter::Auth;
use vstd::prelude::*;

verus! {

/// The bearer token, the csrf token and the three cookie values, and whether
/// they were ever filled in.
#[derive(Debug, Clone, Default)]
pub struct Config {
    pub authorization_token: String,
    pub csrf_token: String,
    pub cookie_auth_token: String,
    pub cookie_twitter_sess: String,
    pub cookie_ct0: String,
    pub init: bool,
}

impl Config {
    pub open spec fn spec_validate(&self) -> bool {
        self.authorization_token@.len() > 0 && self.csrf_token@.len() > 0
            && self.cookie_auth_token@.len() > 0 && self.cookie_twitter_sess@.len() > 0
            && self.cookie_ct0@.len() > 0
    }

    /// Builds a configuration from the two tokens and a raw cookie header.
    pub fn from_cookie(authorization_token: String, csrf_token: String, cookie: String) -> (r:
        Result<Config, CookieError>)
        ensures
            match missing_key(cookie@) {
                Some(e) => r == Err::<Config, CookieError>(e),
                None => r matches Ok(c) && c.authorization_token == authorization_token
                    && c.csrf_token == csrf_token && c.init && lookup(
                    cookie_pairs(cookie@),
                    "auth_token"@,
                ) == Some(c.cookie_auth_token@) && lookup(cookie_pairs(cookie@), "_twitter_sess"@)
                    == Some(c.cookie_twitter_sess@) && lookup(cookie_pairs(cookie@), "ct0"@)
                    == Some(c.cookie_ct0@),
            },
    {
        let c = match Cookie::from_str(cookie.as_str()) {
            Ok(c) => c,
            Err(e) => return Err(e),
        };
        Ok(Config {
            authorization_token,
            csrf_token,
            cookie_auth_token: c.auth_token,
            cookie_twitter_sess: c.twitter_sess,
            cookie_ct0: c.ct0,
            init: true,
        })
    }

    /// Whether all five values are non-empty.
    pub fn validate(&self) -> (r: bool)
        ensures
            r == self.spec_validate(),
    {
        !self.authorization_token.as_str().is_empty() && !self.csrf_token.as_str().is_empty()
            && !self.cookie_auth_token.as_str().is_empty() && !self.cookie_twitter_sess.as_str().is_empty()
            && !self.cookie_ct0.as_str().is_empty()
    }

    /// The credentials of a request.
    pub fn into_auth(self) -> (r: Auth)
        ensures
            r.authorization_token == self.authorization_token,
            r.csrf_token == self.csrf_token,
            r.cookie.auth_token == self.cookie_auth_token,
            r.cookie.twitter_sess == self.cookie_twitter_sess,
            r.cookie.ct0 == self.cookie_ct0,
    {
        Auth {
            authorization_token: self.authorization_token,
            csrf_token: self.csrf_token,
            cookie: Cookie {
                auth_token: self.cookie_auth_token,
                twitter_sess: self.cookie_twitter_sess,
                ct0: self.cookie_ct0,
            },
        }
    }
}

} // verus!
