//! Remote-store authentication state: the service-account key read from
//! configuration, and the bearer credential with its expiry.
//!
//! Obtaining and exchanging tokens is transport work done outside the
//! library; here live the values and the one decision the loop makes each
//! cycle, whether the credential must be refreshed before the next batch
//! of requests.

use vstd::prelude::*;

use crate::jsonio::{json_as_str, json_key};

verus! {

/// A service-account key: the fields of the configured key file that the
/// token exchange needs.
pub struct ServiceKey {
    email: String,
    private_key: String,
    token_url: String,
}

impl ServiceKey {
    /// The account email.
    pub closed spec fn spec_email(self) -> Seq<char> {
        self.email@
    }

    /// The PEM private key.
    pub closed spec fn spec_private_key(self) -> Seq<char> {
        self.private_key@
    }

    /// The token-exchange endpoint.
    pub closed spec fn spec_token_url(self) -> Seq<char> {
        self.token_url@
    }

    /// Builds a key from its three fields.
    pub fn from_parts(email: String, private_key: String, token_url: String) -> (r: ServiceKey)
        ensures
            r.spec_email() == email@,
            r.spec_private_key() == private_key@,
            r.spec_token_url() == token_url@,
    {
        ServiceKey { email, private_key, token_url }
    }

    /// Reads a key from parsed key-file JSON: the `client_email`,
    /// `private_key` and `token_uri` members, all of which must be
    /// strings.
    pub fn new(key: &serde_json::Value) -> (r: Option<ServiceKey>) {
        let email = match json_key(key, "client_email") {
            Some(v) => match json_as_str(v) {
                Some(s) => s,
                None => {
                    return None;
                },
            },
            None => {
                return None;
            },
        };
        let private_key = match json_key(key, "private_key") {
            Some(v) => match json_as_str(v) {
                Some(s) => s,
                None => {
                    return None;
                },
            },
            None => {
                return None;
            },
        };
        let token_url = match json_key(key, "token_uri") {
            Some(v) => match json_as_str(v) {
                Some(s) => s,
                None => {
                    return None;
                },
            },
            None => {
                return None;
            },
        };
        Some(ServiceKey::from_parts(email, private_key, token_url))
    }

    /// The account email.
    pub fn email(&self) -> (r: &String)
        ensures
            r@ == self.spec_email(),
    {
        &self.email
    }

    /// The PEM private key.
    pub fn private_key(&self) -> (r: &String)
        ensures
            r@ == self.spec_private_key(),
    {
        &self.private_key
    }

    /// The token-exchange endpoint.
    pub fn token_url(&self) -> (r: &String)
        ensures
            r@ == self.spec_token_url(),
    {
        &self.token_url
    }
}

/// A bearer credential for the remote store, with the timestamp it
/// expires at.
pub struct Credential {
    token: String,
    expires_at: i64,
}

/// The refresh rule: a new credential is needed when none is held or the
/// held one has expired.
pub open spec fn spec_needs_refresh(cred: Option<Credential>, now: int) -> bool {
    match cred {
        None => true,
        Some(c) => c.spec_expires_at() < now,
    }
}

impl Credential {
    /// The expiry timestamp.
    pub closed spec fn spec_expires_at(self) -> int {
        self.expires_at as int
    }

    /// The bearer token.
    pub closed spec fn spec_token(self) -> Seq<char> {
        self.token@
    }

    /// Builds a credential from a token and its expiry timestamp.
    pub fn new(token: String, expires_at: i64) -> (r: Credential)
        ensures
            r.spec_token() == token@,
            r.spec_expires_at() == expires_at,
    {
        Credential { token, expires_at }
    }

    /// The bearer token.
    pub fn token(&self) -> (r: &String)
        ensures
            r@ == self.spec_token(),
    {
        &self.token
    }

    /// The expiry timestamp.
    pub fn expires_at(&self) -> (r: i64)
        ensures
            r == self.spec_expires_at(),
    {
        self.expires_at
    }
}

/// Whether a new credential must be obtained before the next request
/// batch: none is held, or the held one expired before `now`.
pub fn needs_refresh(cred: &Option<Credential>, now: i64) -> (r: bool)
    ensures
        r == spec_needs_refresh(*cred, now as int),
{
    match cred {
        None => true,
        Some(c) => c.expires_at() < now,
    }
}

} // verus!
