//! Credential vault and session core.
//!
//! The crate keeps one cryptographic secret per local user account,
//! sealed under a password-derived key inside a self-describing
//! envelope, and drives the shared connection/sign-in lifecycle for a
//! remote network client.  All logic is verified; the key-derivation
//! and authenticated-cipher calls are trusted wrappers around outside
//! crates.

pub mod accounts;
pub mod codec;
pub mod connection;
pub mod crypto;
pub mod envelope;
pub mod errors;
mod kvmap;
pub mod metadata;
pub mod session;
