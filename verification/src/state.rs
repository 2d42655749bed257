//! Process-wide configuration handed to every request handler.

use vstd::prelude::*;

verus! {

/// The configuration surface the core consumes.  All values are required
/// at startup; a missing or malformed value is a startup failure, never a
/// runtime one.
pub struct Env {
    pub database_path: String,
    pub port: usize,
    pub client_id: String,
    pub client_secret: String,
    pub client_url: String,
    pub redirect_url: String,
    pub auth_url: String,
    pub token_url: String,
}

} // verus!
