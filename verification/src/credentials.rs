//! What the client identifies itself with when it renews its access token.

use vstd::prelude::*;

verus! {

/// The long-lived secrets of an application, from which short-lived access
/// tokens are obtained.
pub struct Credentials {
    pub client_id: String,
    pub client_secret: String,
    pub refresh_token: String,
}

impl Credentials {
    /// Credentials with the given texts.
    pub fn new(client_id: String, client_secret: String, refresh_token: String) -> (credentials:
        Credentials)
        ensures
            credentials.client_id == client_id,
            credentials.client_secret == client_secret,
            credentials.refresh_token == refresh_token,
    {
        Credentials { client_id, client_secret, refresh_token }
    }
}

} // verus!
