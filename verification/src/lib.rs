pub mod auth;
pub mod hashing;
pub mod hexnum;
pub mod jwt;
pub mod models;
pub mod store;
pub mod strutil;
pub mod todos;

use vstd::prelude::*;

verus! {

/// Seconds a freshly issued token stays valid: thirty days.
pub const VALIDITY_WINDOW: u64 = 2592000;

/// The shared application state handed to the routers.  The store and the
/// signing key are passed explicitly, so nothing lives here yet.
#[derive(Clone, Copy, Debug)]
pub struct AppState;

} // verus!
