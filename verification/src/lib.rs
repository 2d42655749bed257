//! Habit-tracking web application core: cookie-backed sessions with a
//! pluggable store, an OAuth2 authorization-code flow with CSRF state
//! checking, and identity reconciliation over a capability-based data layer.
//!
//! Network and database I/O live outside this crate; everything here is
//! plain logic over plain values, verified against the contracts below.

pub mod auth;
pub mod codec;
pub mod database;
pub mod error;
pub mod models;
pub mod routes;
pub mod state;
pub mod templates;

use vstd::prelude::*;

verus! {

/// Name of the cookie that carries the session reference.
pub const COOKIE_NAME: &'static str = "SESSION";

} // verus!
