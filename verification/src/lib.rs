//! A local secrets manager for development teams: the verified core.
pub mod audit;
pub mod cipher;
pub mod config;
pub mod constants;
pub mod detect;
pub mod domain;
pub mod error;
pub mod fingerprint;
pub mod store;
pub mod strmap;
pub mod text;
pub mod validation;
pub mod vault;
