//! An encrypted password-vault storage engine.
//!
//! A [`vault::Vault`] holds grouped credential entries in memory. It can be
//! serialized to a single tamper-evident byte image under a key derived from a
//! master password, and reconstructed from such an image given the same
//! password. Password generation (random characters or diceware words) is
//! provided as a secondary capability.

pub mod codec;
pub mod crypto;
pub mod error;
pub mod generator;
pub mod password;
mod rng;
pub mod security;
pub mod vault;
