//! Domain types.
pub mod diff;
pub mod env;
pub mod identity;
pub mod recipient;
pub mod secret;
pub mod sync;
pub mod vault_info;
