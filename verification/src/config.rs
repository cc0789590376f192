use vstd::prelude::*;

verus! {

/// Runtime settings for one deployment: poll interval, portal credentials,
/// persistence connection string, and the messenger endpoint and token.
/// Loaded once at startup by the surrounding program; the core only reads it.
#[derive(Debug, Clone)]
pub struct Configuration {
    pub tick_interval: i64,
    pub sph_cred_username: String,
    pub sph_cred_password: String,
    pub database_credentials: String,
    pub messenger_token: String,
    pub messenger_endpoint: String,
}

} // verus!
